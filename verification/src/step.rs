//! The editable data model of a replacement step and its rules.
//!
//! A rule is a raw pattern text and a replacement template; a step is an
//! ordered, enable-flagged list of rules whose order is the priority order
//! (rule 0 has the highest priority). The raw model is compiled into a
//! `CompiledPipeline` once per run.

use vstd::prelude::*;

verus! {

/// The direction in which a rule is moved within its step's priority order.
#[derive(Clone, Copy, Debug, PartialEq, Eq, Structural)]
pub enum MoveDirection {
    Up,
    Down,
}

/// Reserved alternative rule orderings. Only `Unsorted` (keep the edited
/// order) is exercised by the engine; the others are extension points.
#[derive(Clone, Copy, Debug, PartialEq, Eq, Structural)]
pub enum VirtualSort {
    Unsorted,
    CharLength,
    CharLengthRev,
}

/// Presentation and policy properties of a step.
pub struct StepProps {
    /// The step title.
    pub title: String,
    /// Whether the step is enabled during a replacement run.
    pub enabled: bool,
    /// Whether it is selected for edit.
    pub selected: bool,
    /// Whether any rule match triggers a return to the first rule. The engine
    /// always restarts; this field is a reserved extension point.
    pub restart_on_match: bool,
    /// In which rule ordering replacement should run.
    pub virtual_sort: VirtualSort,
}

impl Default for StepProps {
    /// A fresh step is enabled, not selected, and restarts on every match.
    fn default() -> (r: Self)
        ensures
            r.title@ =~= Seq::<char>::empty(),
            r.enabled,
            !r.selected,
            r.restart_on_match,
            r.virtual_sort == VirtualSort::Unsorted,
    {
        StepProps {
            title: String::new(),
            enabled: true,
            selected: false,
            restart_on_match: true,
            virtual_sort: VirtualSort::Unsorted,
        }
    }
}

/// One editable rule: a raw pattern text and a replacement template. A rule
/// whose pattern text is empty is inert: it never matches, never errors, and
/// is dropped when the pipeline is compiled.
pub struct RegexInfo {
    pub title: String,
    pub pattern: String,
    pub replacement: String,
}

impl Default for RegexInfo {
    /// A fresh rule is inert: its pattern text is empty.
    fn default() -> (r: Self)
        ensures
            r.title@ =~= Seq::<char>::empty(),
            r.pattern@ =~= Seq::<char>::empty(),
            r.replacement@ =~= Seq::<char>::empty(),
    {
        RegexInfo { title: String::new(), pattern: String::new(), replacement: String::new() }
    }
}

/// An ordered, enable-flagged collection of rules.
pub struct Step {
    pub props: StepProps,
    pub regexes: Vec<RegexInfo>,
}

impl Default for Step {
    /// A fresh step has default properties and no rules.
    fn default() -> (r: Self)
        ensures
            r.props.enabled,
            r.props.restart_on_match,
            r.regexes@ =~= Seq::<RegexInfo>::empty(),
    {
        Step { props: StepProps::default(), regexes: Vec::new() }
    }
}

} // verus!
