//! Text projects and the lifecycle status of their output.

use vstd::prelude::*;

verus! {

/// Presentation properties of a text project.
pub struct TextProjectProps {
    pub title: String,
    pub commentary: Option<String>,
}

impl Default for TextProjectProps {
    /// A fresh project has an empty title and no commentary.
    fn default() -> (r: Self)
        ensures
            r.title@ =~= Seq::<char>::empty(),
            r.commentary is None,
    {
        TextProjectProps { title: String::new(), commentary: None }
    }
}

/// Why a run ended without completing.
#[derive(Clone, Copy, Debug, PartialEq, Eq, Structural)]
pub enum CancelMotive {
    ManuallyCancelled,
    CycleDetected,
    HighGrowth,
}

/// The lifecycle status of a project's output: `Outdated` after the input was
/// edited, `InProgress` while a run is active, and `Done` or
/// `Cancelled(motive)` once a run has terminated.
#[derive(Clone, Copy, Debug, PartialEq, Eq, Structural)]
pub enum OutputStatus {
    Outdated,
    InProgress,
    Done,
    Cancelled(CancelMotive),
}

impl Default for OutputStatus {
    /// A freshly created project, whose input and output are both empty, is
    /// considered up to date.
    fn default() -> (r: Self)
        ensures
            r == OutputStatus::Done,
    {
        OutputStatus::Done
    }
}

/// A text project: its input text, the latest output produced for it, and
/// that output's lifecycle status.
pub struct TextProject {
    pub props: TextProjectProps,
    pub input: String,
    pub output: String,
    pub output_status: OutputStatus,
}

impl Default for TextProject {
    /// A fresh project: empty input and output, status `Done`.
    fn default() -> (r: Self)
        ensures
            r.input@ =~= Seq::<char>::empty(),
            r.output@ =~= Seq::<char>::empty(),
            r.output_status == OutputStatus::Done,
            r.props.title@ =~= Seq::<char>::empty(),
            r.props.commentary is None,
    {
        TextProject {
            props: TextProjectProps::default(),
            input: String::new(),
            output: String::new(),
            output_status: OutputStatus::Done,
        }
    }
}

} // verus!
