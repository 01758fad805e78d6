//! The run controller: owns the text projects, the step list, the
//! one-run-at-a-time guard and the cancellation flag, and drives each
//! project's output status through its lifecycle
//! (`Outdated | InProgress | Done | Cancelled(motive)`).

use vstd::prelude::*;

use vstd::string::StrSliceExecFns;
use vstd::utf8::{encode_utf8, valid_utf8};

use crate::cancel::CancelFlag;
use crate::engine::{
    compile_pipeline, compiled_steps_of, pattern_compiles, pipeline_ok, replace_text, CompileError,
    CompiledPipeline,
};
use crate::pattern::{bytes_to_string, lossy_utf8, re_valid};
use crate::semantics::{cycle_evidence, first_growth_abort, pipeline_completes, pipeline_reaches};
use crate::step::{MoveDirection, RegexInfo, Step};
use crate::text_project::{CancelMotive, OutputStatus, TextProject};

verus! {

/// Why a run request was rejected: a run is already active, or an enabled
/// rule's non-empty pattern text does not compile (the offending pattern is
/// reported).
#[derive(Debug)]
pub enum StartError {
    AlreadyInProgress,
    Pattern(CompileError),
}

/// The run controller. One run may be active at a time; the engine works on
/// a pipeline compiled and an input snapshotted at run start, so edits made
/// while a run is in progress never affect it.
pub struct Model {
    pub text_projects: Vec<TextProject>,
    pub steps: Vec<Step>,
    pub replacement_in_progress: bool,
    pub replacement_cancel_signal: CancelFlag,
}

impl Model {
    /// A fresh controller: one empty project, one empty enabled step, no run
    /// in progress.
    pub fn new() -> (m: Model)
        ensures
            m.text_projects@.len() == 1,
            m.text_projects@[0].output_status == OutputStatus::Done,
            m.text_projects@[0].input@ =~= Seq::<char>::empty(),
            m.text_projects@[0].output@ =~= Seq::<char>::empty(),
            m.text_projects@[0].props.title@ =~= Seq::<char>::empty(),
            m.text_projects@[0].props.commentary is None,
            m.steps@.len() == 1,
            m.steps@[0].props.enabled,
            m.steps@[0].props.restart_on_match,
            m.steps@[0].regexes@.len() == 0,
            !m.replacement_in_progress,
    {
        let mut text_projects: Vec<TextProject> = Vec::new();
        text_projects.push(TextProject::default());
        let mut steps: Vec<Step> = Vec::new();
        steps.push(Step::default());
        Model {
            text_projects,
            steps,
            replacement_in_progress: false,
            replacement_cancel_signal: CancelFlag::new(),
        }
    }

    /// Appends a fresh project (empty input and output, status `Done`).
    pub fn add_text_project(&mut self)
        ensures
            final(self).text_projects@.len() == old(self).text_projects@.len() + 1,
            final(self).text_projects@.drop_last() == old(self).text_projects@,
            final(self).text_projects@.last().output_status == OutputStatus::Done,
            final(self).text_projects@.last().input@ =~= Seq::<char>::empty(),
            final(self).text_projects@.last().output@ =~= Seq::<char>::empty(),
            final(self).steps == old(self).steps,
            final(self).replacement_in_progress == old(self).replacement_in_progress,
    {
        self.text_projects.push(TextProject::default());
        proof {
            assert(self.text_projects@.drop_last() =~= old(self).text_projects@);
        }
    }

    /// Appends a fresh step (enabled, no rules). A step added while a run is
    /// in progress does not affect it: the engine works on the pipeline
    /// compiled at run start.
    pub fn add_step(&mut self)
        ensures
            final(self).steps@.len() == old(self).steps@.len() + 1,
            final(self).steps@.drop_last() == old(self).steps@,
            final(self).steps@.last().props.enabled,
            final(self).steps@.last().regexes@.len() == 0,
            final(self).text_projects == old(self).text_projects,
            final(self).replacement_in_progress == old(self).replacement_in_progress,
    {
        self.steps.push(Step::default());
        proof {
            assert(self.steps@.drop_last() =~= old(self).steps@);
        }
    }

    /// Edits a project's input. Rejected while a run is in progress (input is
    /// immutable mid-run; the engine works on a snapshot); otherwise the
    /// input is replaced and the project's output becomes `Outdated`.
    pub fn input_updated(&mut self, project_index: usize, value: String) -> (accepted: bool)
        requires
            project_index < old(self).text_projects@.len(),
        ensures
            accepted == !old(self).replacement_in_progress,
            !accepted ==> *final(self) == *old(self),
            accepted ==> {
                let p = final(self).text_projects@[project_index as int];
                let q = old(self).text_projects@[project_index as int];
                &&& final(self).text_projects@.len() == old(self).text_projects@.len()
                &&& p.input == value
                &&& p.output_status == OutputStatus::Outdated
                &&& p.output == q.output
                &&& p.props == q.props
                &&& forall|i: int|
                    0 <= i < old(self).text_projects@.len() && i != project_index
                        ==> final(self).text_projects@[i] == old(self).text_projects@[i]
                &&& final(self).steps == old(self).steps
                &&& final(self).replacement_in_progress == old(self).replacement_in_progress
            },
    {
        if self.replacement_in_progress {
            return false;
        }
        let mut project = self.text_projects.remove(project_index);
        project.input = value;
        project.output_status = OutputStatus::Outdated;
        self.text_projects.insert(project_index, project);
        true
    }

    /// The output pane is read-only: a direct edit of a project's output is a
    /// caller error and is rejected with no state change.
    pub fn output_updated(&mut self, project_index: usize, value: String) -> (accepted: bool)
        ensures
            !accepted,
            *final(self) == *old(self),
    {
        let _ = project_index;
        let _ = value;
        false
    }

    /// Requests cancellation of the active run: sets the shared flag, which
    /// the engine observes at its next iteration boundary (cancellation is
    /// cooperative, never preemptive). Rejected when no run is in progress.
    pub fn request_cancel(&mut self) -> (accepted: bool)
        ensures
            accepted == old(self).replacement_in_progress,
            *final(self) == *old(self),
    {
        if self.replacement_in_progress {
            self.replacement_cancel_signal.store(true);
            true
        } else {
            false
        }
    }

    /// Appends a fresh, inert rule (empty pattern, template and title) to a
    /// step. A rule added while a run is in progress does not affect it: the
    /// engine works on the pipeline compiled at run start.
    pub fn add_regex(&mut self, step_index: usize)
        requires
            step_index < old(self).steps@.len(),
        ensures
            final(self).steps@.len() == old(self).steps@.len(),
            ({
                let s = final(self).steps@[step_index as int];
                let t = old(self).steps@[step_index as int];
                &&& s.regexes@.len() == t.regexes@.len() + 1
                &&& s.regexes@.drop_last() == t.regexes@
                &&& s.regexes@.last().pattern@ =~= Seq::<char>::empty()
                &&& s.regexes@.last().replacement@ =~= Seq::<char>::empty()
                &&& s.props == t.props
            }),
            forall|i: int|
                0 <= i < old(self).steps@.len() && i != step_index ==> final(self).steps@[i]
                    == old(self).steps@[i],
            final(self).text_projects == old(self).text_projects,
            final(self).replacement_in_progress == old(self).replacement_in_progress,
    {
        let mut step = self.steps.remove(step_index);
        step.regexes.push(RegexInfo::default());
        proof {
            assert(step.regexes@.drop_last() =~= old(self).steps@[step_index as int].regexes@);
        }
        self.steps.insert(step_index, step);
    }

    /// Removes a rule from a step once the removal is confirmed; an
    /// unconfirmed request changes nothing. A rule removed while a run is in
    /// progress does not affect it.
    pub fn delete_regex(&mut self, step_index: usize, regex_index: usize, confirmed: bool)
        requires
            step_index < old(self).steps@.len(),
            regex_index < old(self).steps@[step_index as int].regexes@.len(),
        ensures
            !confirmed ==> *final(self) == *old(self),
            confirmed ==> ({
                let s = final(self).steps@[step_index as int];
                let t = old(self).steps@[step_index as int];
                &&& final(self).steps@.len() == old(self).steps@.len()
                &&& s.regexes@ == t.regexes@.remove(regex_index as int)
                &&& s.props == t.props
            }),
            forall|i: int|
                0 <= i < old(self).steps@.len() && i != step_index ==> final(self).steps@[i]
                    == old(self).steps@[i],
            final(self).text_projects == old(self).text_projects,
            final(self).replacement_in_progress == old(self).replacement_in_progress,
    {
        if !confirmed {
            return ;
        }
        let mut step = self.steps.remove(step_index);
        step.regexes.remove(regex_index);
        self.steps.insert(step_index, step);
    }

    /// Moves a rule one place up or down in its step's priority order (rule 0
    /// has the highest priority) and reports whether anything moved: a rule
    /// already at the edge stays put. A move made while a run is in progress
    /// does not affect it.
    pub fn move_regex(
        &mut self,
        step_index: usize,
        regex_index: usize,
        direction: MoveDirection,
    ) -> (moved: bool)
        requires
            step_index < old(self).steps@.len(),
            regex_index < old(self).steps@[step_index as int].regexes@.len(),
        ensures
            moved == (match direction {
                MoveDirection::Up => regex_index >= 1,
                MoveDirection::Down => regex_index + 1 < old(
                    self,
                ).steps@[step_index as int].regexes@.len(),
            }),
            !moved ==> *final(self) == *old(self),
            moved ==> ({
                let s = final(self).steps@[step_index as int];
                let t = old(self).steps@[step_index as int];
                let j = regex_index as int;
                let o = match direction {
                    MoveDirection::Up => j - 1,
                    MoveDirection::Down => j + 1,
                };
                &&& final(self).steps@.len() == old(self).steps@.len()
                &&& s.regexes@.len() == t.regexes@.len()
                &&& s.regexes@[j] == t.regexes@[o]
                &&& s.regexes@[o] == t.regexes@[j]
                &&& forall|i: int|
                    0 <= i < t.regexes@.len() && i != j && i != o ==> s.regexes@[i]
                        == t.regexes@[i]
                &&& s.props == t.props
            }),
            forall|i: int|
                0 <= i < old(self).steps@.len() && i != step_index ==> final(self).steps@[i]
                    == old(self).steps@[i],
            final(self).text_projects == old(self).text_projects,
            final(self).replacement_in_progress == old(self).replacement_in_progress,
    {
        let ghost t = old(self).steps@[step_index as int];
        match direction {
            MoveDirection::Up => {
                if regex_index < 1 {
                    return false;
                }
                let mut step = self.steps.remove(step_index);
                let r = step.regexes.remove(regex_index);
                step.regexes.insert(regex_index - 1, r);
                proof {
                    assert(step.regexes@.len() == t.regexes@.len());
                    assert forall|i: int|
                        0 <= i < t.regexes@.len() && i != regex_index as int && i != regex_index
                            - 1 implies step.regexes@[i] == t.regexes@[i] by {
                        assert(step.regexes@[i] == t.regexes@.remove(regex_index as int).insert(
                            regex_index - 1,
                            t.regexes@[regex_index as int],
                        )[i]);
                    }
                }
                self.steps.insert(step_index, step);
                true
            },
            MoveDirection::Down => {
                let rlen = self.steps[step_index].regexes.len();
                if regex_index >= rlen - 1 {
                    return false;
                }
                let mut step = self.steps.remove(step_index);
                let r = step.regexes.remove(regex_index);
                step.regexes.insert(regex_index + 1, r);
                proof {
                    assert(step.regexes@.len() == t.regexes@.len());
                    assert forall|i: int|
                        0 <= i < t.regexes@.len() && i != regex_index as int && i != regex_index
                            + 1 implies step.regexes@[i] == t.regexes@[i] by {
                        assert(step.regexes@[i] == t.regexes@.remove(regex_index as int).insert(
                            regex_index + 1,
                            t.regexes@[regex_index as int],
                        )[i]);
                    }
                }
                self.steps.insert(step_index, step);
                true
            },
        }
    }

    /// Replaces a rule's pattern text. The new text is validated eagerly, so
    /// a compile error is visible before any run starts: the result reports
    /// whether the new pattern is usable (an empty pattern is inert and so
    /// always accepted). A change made while a run is in progress does not
    /// affect it: the engine works on the pipeline compiled at run start.
    pub fn update_regex_search(
        &mut self,
        step_index: usize,
        regex_index: usize,
        search: String,
    ) -> (valid: bool)
        requires
            step_index < old(self).steps@.len(),
            regex_index < old(self).steps@[step_index as int].regexes@.len(),
        ensures
            valid == (search@.len() == 0 || re_valid(search@)),
            final(self).steps@.len() == old(self).steps@.len(),
            ({
                let s = final(self).steps@[step_index as int];
                let t = old(self).steps@[step_index as int];
                let r = s.regexes@[regex_index as int];
                let q = t.regexes@[regex_index as int];
                &&& s.regexes@.len() == t.regexes@.len()
                &&& r.pattern == search
                &&& r.replacement == q.replacement
                &&& r.title == q.title
                &&& s.props == t.props
                &&& forall|i: int|
                    0 <= i < t.regexes@.len() && i != regex_index ==> s.regexes@[i]
                        == t.regexes@[i]
            }),
            forall|i: int|
                0 <= i < old(self).steps@.len() && i != step_index ==> final(self).steps@[i]
                    == old(self).steps@[i],
            final(self).text_projects == old(self).text_projects,
            final(self).replacement_in_progress == old(self).replacement_in_progress,
    {
        let valid = search.as_str().is_empty() || pattern_compiles(search.as_str());
        let mut step = self.steps.remove(step_index);
        let mut rule = step.regexes.remove(regex_index);
        rule.pattern = search;
        step.regexes.insert(regex_index, rule);
        self.steps.insert(step_index, step);
        valid
    }

    /// Starts a run: rejected if one is already in progress or if an enabled
    /// rule's non-empty pattern fails to compile — then nothing changes and
    /// no content is processed. On success the project goes `InProgress`,
    /// the cancellation flag is reset, and the pipeline compiled from the
    /// current steps is returned with the snapshot of the project's input
    /// that the engine must work on.
    pub fn start_run(&mut self, project_index: usize) -> (r: Result<
        (CompiledPipeline, Vec<u8>),
        StartError,
    >)
        requires
            project_index < old(self).text_projects@.len(),
        ensures
            r is Ok <==> !old(self).replacement_in_progress && pipeline_ok(old(self).steps@),
            r is Err ==> *final(self) == *old(self),
            !old(self).replacement_in_progress && r is Err
                ==> r matches Err(StartError::Pattern(_)),
            old(self).replacement_in_progress ==> (r matches Err(StartError::AlreadyInProgress)
                && *final(self) == *old(self)),
            r matches Err(StartError::Pattern(e)) ==> ({
                &&& !old(self).replacement_in_progress
                &&& *final(self) == *old(self)
                &&& e.step_index < old(self).steps@.len()
                &&& old(self).steps@[e.step_index as int].props.enabled
                &&& e.rule_index < old(self).steps@[e.step_index as int].regexes@.len()
                &&& e.pattern@ == old(self).steps@[e.step_index as int].regexes@[e.rule_index as int].pattern@
                &&& e.pattern@.len() > 0
                &&& !re_valid(e.pattern@)
            }),
            r matches Ok((cp, input)) ==> {
                let p = final(self).text_projects@[project_index as int];
                let q = old(self).text_projects@[project_index as int];
                &&& cp@ == compiled_steps_of(old(self).steps@)
                &&& input@ == encode_utf8(q.input@)
                &&& final(self).replacement_in_progress
                &&& final(self).steps == old(self).steps
                &&& final(self).text_projects@.len() == old(self).text_projects@.len()
                &&& p.output_status == OutputStatus::InProgress
                &&& p.input == q.input
                &&& p.output == q.output
                &&& p.props == q.props
                &&& forall|i: int|
                    0 <= i < old(self).text_projects@.len() && i != project_index
                        ==> final(self).text_projects@[i] == old(self).text_projects@[i]
            },
    {
        if self.replacement_in_progress {
            return Err(StartError::AlreadyInProgress);
        }
        let cp = match compile_pipeline(&self.steps) {
            Ok(cp) => cp,
            Err(e) => {
                return Err(StartError::Pattern(e));
            },
        };
        self.replacement_in_progress = true;
        self.replacement_cancel_signal.store(false);
        let mut project = self.text_projects.remove(project_index);
        project.output_status = OutputStatus::InProgress;
        let input = project.input.as_str().as_bytes_vec();
        self.text_projects.insert(project_index, project);
        Ok((cp, input))
    }

    /// Records a successful run: the project's output becomes the final
    /// content as text, its status becomes `Done`, and the in-progress guard
    /// and the cancellation flag are reset so they never leak into the next
    /// run. Rejected (no state change) when no run is in progress.
    pub fn finish_run(&mut self, project_index: usize, content: Vec<u8>) -> (accepted: bool)
        requires
            project_index < old(self).text_projects@.len(),
        ensures
            accepted == old(self).replacement_in_progress,
            !accepted ==> *final(self) == *old(self),
            accepted ==> {
                let p = final(self).text_projects@[project_index as int];
                let q = old(self).text_projects@[project_index as int];
                &&& !final(self).replacement_in_progress
                &&& p.output_status == OutputStatus::Done
                &&& p.output@ == lossy_utf8(content@)
                &&& (valid_utf8(content@) ==> encode_utf8(p.output@) == content@)
                &&& p.input == q.input
                &&& p.props == q.props
                &&& final(self).text_projects@.len() == old(self).text_projects@.len()
                &&& forall|i: int|
                    0 <= i < old(self).text_projects@.len() && i != project_index
                        ==> final(self).text_projects@[i] == old(self).text_projects@[i]
                &&& final(self).steps == old(self).steps
            },
    {
        if !self.replacement_in_progress {
            return false;
        }
        self.replacement_in_progress = false;
        self.replacement_cancel_signal.store(false);
        let mut project = self.text_projects.remove(project_index);
        project.output = bytes_to_string(&content);
        project.output_status = OutputStatus::Done;
        self.text_projects.insert(project_index, project);
        true
    }

    /// Records an aborted run: the project's output becomes the partial
    /// content as text, its status becomes `Cancelled` with the motive, and
    /// the in-progress guard and the cancellation flag are reset. Rejected
    /// (no state change) when no run is in progress.
    pub fn run_cancelled(
        &mut self,
        project_index: usize,
        motive: CancelMotive,
        partial: Vec<u8>,
    ) -> (accepted: bool)
        requires
            project_index < old(self).text_projects@.len(),
        ensures
            accepted == old(self).replacement_in_progress,
            !accepted ==> *final(self) == *old(self),
            accepted ==> {
                let p = final(self).text_projects@[project_index as int];
                let q = old(self).text_projects@[project_index as int];
                &&& !final(self).replacement_in_progress
                &&& p.output_status == OutputStatus::Cancelled(motive)
                &&& p.output@ == lossy_utf8(partial@)
                &&& (valid_utf8(partial@) ==> encode_utf8(p.output@) == partial@)
                &&& p.input == q.input
                &&& p.props == q.props
                &&& final(self).text_projects@.len() == old(self).text_projects@.len()
                &&& forall|i: int|
                    0 <= i < old(self).text_projects@.len() && i != project_index
                        ==> final(self).text_projects@[i] == old(self).text_projects@[i]
                &&& final(self).steps == old(self).steps
            },
    {
        if !self.replacement_in_progress {
            return false;
        }
        self.replacement_in_progress = false;
        self.replacement_cancel_signal.store(false);
        let mut project = self.text_projects.remove(project_index);
        project.output = bytes_to_string(&partial);
        project.output_status = OutputStatus::Cancelled(motive);
        self.text_projects.insert(project_index, project);
        true
    }

    /// Runs the whole replacement for one project synchronously: compiles
    /// the pipeline, runs the engine on a snapshot of the project's input,
    /// and records the outcome. On success the project ends `Done` with a
    /// pipeline fixpoint of its input as output, or `Cancelled(motive)` with
    /// a mid-run content as partial output. A host that interleaves the run
    /// with other work calls `start_run`, drives `replace_text` itself, and
    /// hands the outcome to `finish_run` or `run_cancelled` instead.
    pub fn run_replacement(&mut self, project_index: usize) -> (r: Result<(), StartError>)
        requires
            project_index < old(self).text_projects@.len(),
        ensures
            r is Ok <==> !old(self).replacement_in_progress && pipeline_ok(old(self).steps@),
            r is Err ==> *final(self) == *old(self),
            old(self).replacement_in_progress ==> r matches Err(StartError::AlreadyInProgress),
            !old(self).replacement_in_progress && r is Err
                ==> r matches Err(StartError::Pattern(_)),
            r is Ok && compiled_steps_of(old(self).steps@).len() == 0
                ==> final(self).text_projects@[project_index as int].output_status
                == OutputStatus::Done,
            r matches Err(StartError::Pattern(e)) ==> ({
                &&& !old(self).replacement_in_progress
                &&& e.step_index < old(self).steps@.len()
                &&& old(self).steps@[e.step_index as int].props.enabled
                &&& e.rule_index < old(self).steps@[e.step_index as int].regexes@.len()
                &&& e.pattern@ == old(self).steps@[e.step_index as int].regexes@[e.rule_index as int].pattern@
                &&& e.pattern@.len() > 0
                &&& !re_valid(e.pattern@)
            }),
            r is Ok ==> {
                let p = final(self).text_projects@[project_index as int];
                let q = old(self).text_projects@[project_index as int];
                let cp = compiled_steps_of(old(self).steps@);
                let inb = encode_utf8(q.input@);
                &&& !final(self).replacement_in_progress
                &&& final(self).steps == old(self).steps
                &&& final(self).text_projects@.len() == old(self).text_projects@.len()
                &&& p.input == q.input
                &&& p.props == q.props
                &&& forall|i: int|
                    0 <= i < old(self).text_projects@.len() && i != project_index
                        ==> final(self).text_projects@[i] == old(self).text_projects@[i]
                &&& match p.output_status {
                    OutputStatus::Done => exists|outb: Seq<u8>|
                        #[trigger] pipeline_completes(cp, inb, outb) && p.output@ == lossy_utf8(
                            outb,
                        ) && (valid_utf8(outb) ==> encode_utf8(p.output@) == outb) && !(outb.len()
                            > 4 * inb.len() && outb.len() > 1000),
                    OutputStatus::Cancelled(m) => exists|outb: Seq<u8>|
                        #[trigger] pipeline_reaches(cp, inb, outb) && p.output@ == lossy_utf8(outb)
                            && (valid_utf8(outb) ==> encode_utf8(p.output@) == outb) && (m
                            == CancelMotive::HighGrowth ==> outb.len() > 4 * inb.len()
                            && outb.len() > 1000 && first_growth_abort(cp, inb, outb)) && (m
                            == CancelMotive::CycleDetected ==> cycle_evidence(cp, inb, outb)),
                    _ => false,
                }
            },
    {
        let (cp, input) = match self.start_run(project_index) {
            Ok(pair) => pair,
            Err(e) => {
                return Err(e);
            },
        };
        match replace_text(input, &cp, &self.replacement_cancel_signal) {
            Ok(out) => {
                let accepted = self.finish_run(project_index, out);
                assert(accepted);
            },
            Err((motive, partial)) => {
                let accepted = self.run_cancelled(project_index, motive, partial);
                assert(accepted);
            },
        }
        Ok(())
    }
}

} // verus!
