//! A verified text-replacement engine. A pipeline is an ordered list of
//! steps, each an ordered list of pattern/replacement rules; a run compiles
//! the pipeline once, then rewrites the input step by step, always applying
//! the highest-priority matching rule to all of its occurrences and
//! restarting the scan after every substitution, until no rule matches. A
//! per-step cycle detector aborts runs that oscillate, a growth guard aborts
//! runs whose content grows out of proportion, and a shared flag cancels a
//! run cooperatively at its next iteration boundary.
//!
//! Pattern matching and substitution are performed by `regex::bytes`, and
//! content checksums by `crc32fast`, behind the trusted boundary in
//! [`pattern`]; everything else is verified against the rewriting model in
//! [`semantics`].

pub mod cancel;
pub mod engine;
pub mod model;
pub mod pattern;
pub mod semantics;
pub mod step;
pub mod text_project;

pub use cancel::CancelFlag;
pub use engine::{
    compile_pipeline, growth_exceeded, pattern_compiles, replace_text, CompileError,
    CompiledPipeline, CycleDetector,
};
pub use model::{Model, StartError};
pub use step::{MoveDirection, RegexInfo, Step, StepProps, VirtualSort};
pub use text_project::{CancelMotive, OutputStatus, TextProject, TextProjectProps};
