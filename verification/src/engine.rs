//! The replacement engine: pipeline compilation, the per-step fixpoint loop
//! with priority-restart semantics, the cycle detector and the growth guard.

use vstd::prelude::*;

use crate::cancel::CancelFlag;
use crate::pattern::{
    compile_rule, crc32, crc32_of, re_matches, re_valid, rule_matches, rule_replace_all,
    CompiledRule, RuleModel,
};
use crate::semantics::{
    completes_to_step, completes_to_step_within, cycle_evidence, first_growth_abort,
    lemma_completes_within_last, lemma_prefix_then_completes, lemma_prefix_then_reaches,
    lemma_priority_order, lemma_reaches_in_step, pipeline_completes, pipeline_completes_from,
    pipeline_reaches, pipeline_reaches_from, reaches_in, step_blocked, step_completes,
    step_completes_within, step_iterate, step_next, step_reaches, within_growth_bound,
};
use crate::step::{RegexInfo, Step};
use crate::text_project::CancelMotive;

verus! {

/// The models of a step's compiled rules, in priority order.
pub open spec fn rules_model(rules: Seq<CompiledRule>) -> Seq<RuleModel> {
    rules.map_values(|r: CompiledRule| r@)
}

/// What compiling one step's rules keeps: the rules with non-empty pattern
/// text, in order. Rules with empty pattern text are inert and dropped.
pub open spec fn compiled_rules_of(rules: Seq<RegexInfo>) -> Seq<RuleModel>
    decreases rules.len(),
{
    if rules.len() == 0 {
        Seq::empty()
    } else {
        let rest = compiled_rules_of(rules.drop_last());
        let r = rules.last();
        if r.pattern@.len() > 0 {
            rest.push(RuleModel { pattern: r.pattern@, replacement: r.replacement@ })
        } else {
            rest
        }
    }
}

/// Every non-inert rule of the step has a pattern that compiles.
pub open spec fn step_rules_ok(rules: Seq<RegexInfo>) -> bool {
    forall|i: int|
        0 <= i < rules.len() ==> ((#[trigger] rules[i].pattern@).len() > 0 ==> re_valid(
            rules[i].pattern@,
        ))
}

/// What compiling a pipeline snapshot produces: the enabled steps, in order,
/// each reduced to its non-inert rules.
pub open spec fn compiled_steps_of(steps: Seq<Step>) -> Seq<Seq<RuleModel>>
    decreases steps.len(),
{
    if steps.len() == 0 {
        Seq::empty()
    } else {
        let rest = compiled_steps_of(steps.drop_last());
        let s = steps.last();
        if s.props.enabled {
            rest.push(compiled_rules_of(s.regexes@))
        } else {
            rest
        }
    }
}

/// Every non-inert rule of every enabled step has a pattern that compiles.
pub open spec fn pipeline_ok(steps: Seq<Step>) -> bool {
    forall|i: int|
        0 <= i < steps.len() ==> ((#[trigger] steps[i].props).enabled ==> step_rules_ok(
            steps[i].regexes@,
        ))
}

/// A pipeline compiled once at run start: the enabled steps, each reduced to
/// its non-inert rules with their compiled patterns. Immutable for the
/// duration of one run.
pub struct CompiledPipeline {
    pub(crate) steps: Vec<Vec<CompiledRule>>,
}

impl View for CompiledPipeline {
    type V = Seq<Seq<RuleModel>>;

    closed spec fn view(&self) -> Seq<Seq<RuleModel>> {
        self.steps@.map_values(|s: Vec<CompiledRule>| rules_model(s@))
    }
}

/// A non-empty pattern that failed to compile, reported at run start: the
/// position of the offending rule and its raw pattern text.
#[derive(Debug)]
pub struct CompileError {
    pub step_index: usize,
    pub rule_index: usize,
    pub pattern: String,
}

/// Compiles a pipeline snapshot: keeps the enabled steps, drops inert rules
/// (empty pattern text), and fails fast on the first non-empty pattern that
/// does not compile, in which case no content is ever processed.
pub fn compile_pipeline(steps: &Vec<Step>) -> (r: Result<CompiledPipeline, CompileError>)
    ensures
        r is Ok <==> pipeline_ok(steps@),
        r matches Ok(cp) ==> cp@ == compiled_steps_of(steps@),
        r matches Err(e) ==> e.step_index < steps@.len() && steps@[e.step_index as int].props.enabled
            && e.rule_index < steps@[e.step_index as int].regexes@.len() && e.pattern@
            == steps@[e.step_index as int].regexes@[e.rule_index as int].pattern@ && e.pattern@.len()
            > 0 && !re_valid(e.pattern@),
{
    let mut compiled: Vec<Vec<CompiledRule>> = Vec::new();
    let mut k: usize = 0;
    while k < steps.len()
        invariant
            k <= steps@.len(),
            compiled@.map_values(|s: Vec<CompiledRule>| rules_model(s@)) == compiled_steps_of(
                steps@.subrange(0, k as int),
            ),
            forall|i: int|
                0 <= i < k ==> ((#[trigger] steps@[i].props).enabled ==> step_rules_ok(
                    steps@[i].regexes@,
                )),
        decreases steps@.len() - k,
    {
        let step = &steps[k];
        if step.props.enabled {
            let mut rules: Vec<CompiledRule> = Vec::new();
            let mut j: usize = 0;
            while j < step.regexes.len()
                invariant
                    j <= step.regexes@.len(),
                    step == steps@[k as int],
                    step.props.enabled,
                    k < steps@.len(),
                    rules_model(rules@) == compiled_rules_of(step.regexes@.subrange(0, j as int)),
                    forall|i: int|
                        0 <= i < j ==> ((#[trigger] step.regexes@[i].pattern@).len() > 0
                            ==> re_valid(step.regexes@[i].pattern@)),
                decreases step.regexes@.len() - j,
            {
                let rule = &step.regexes[j];
                if rule.pattern.as_str().is_empty() {
                    // inert rule: skipped, never an error
                    proof {
                        assert(step.regexes@.subrange(0, j + 1 as int).drop_last() =~= step.regexes@
                            .subrange(0, j as int));
                        assert(step.regexes@.subrange(0, j + 1 as int).last() == step.regexes@[j as int]);
                    }
                } else {
                    match compile_rule(rule.pattern.as_str(), rule.replacement.as_str()) {
                        Some(cr) => {
                            rules.push(cr);
                            proof {
                                assert(step.regexes@.subrange(0, j + 1 as int).drop_last()
                                    =~= step.regexes@.subrange(0, j as int));
                                assert(step.regexes@.subrange(0, j + 1 as int).last()
                                    == step.regexes@[j as int]);
                                assert(rules_model(rules@) =~= rules_model(rules@.drop_last()).push(
                                    rules@.last()@,
                                ));
                            }
                        },
                        None => {
                            proof {
                                assert(steps@[k as int].regexes@[j as int].pattern@.len() > 0);
                                assert(!re_valid(steps@[k as int].regexes@[j as int].pattern@));
                                assert(!step_rules_ok(steps@[k as int].regexes@));
                                assert(!pipeline_ok(steps@));
                            }
                            return Err(
                                CompileError {
                                    step_index: k,
                                    rule_index: j,
                                    pattern: rule.pattern.clone(),
                                },
                            );
                        },
                    }
                }
                j += 1;
            }
            proof {
                assert(step.regexes@.subrange(0, step.regexes@.len() as int) =~= step.regexes@);
            }
            compiled.push(rules);
            proof {
                assert(steps@.subrange(0, k + 1 as int).drop_last() =~= steps@.subrange(
                    0,
                    k as int,
                ));
                assert(steps@.subrange(0, k + 1 as int).last() == steps@[k as int]);
                assert(compiled@.map_values(|s: Vec<CompiledRule>| rules_model(s@))
                    =~= compiled@.drop_last().map_values(|s: Vec<CompiledRule>| rules_model(s@))
                    .push(rules_model(compiled@.last()@)));
            }
        } else {
            proof {
                assert(steps@.subrange(0, k + 1 as int).drop_last() =~= steps@.subrange(
                    0,
                    k as int,
                ));
                assert(steps@.subrange(0, k + 1 as int).last() == steps@[k as int]);
            }
        }
        k += 1;
    }
    proof {
        assert(steps@.subrange(0, steps@.len() as int) =~= steps@);
    }
    Ok(CompiledPipeline { steps: compiled })
}

/// One checksum recorded by the cycle detector: the CRC32 of a content
/// observed at some iteration, together with that content's length.
pub struct SumRecord {
    pub len: usize,
    pub sum: u32,
}

/// The per-step cycle detector. It records the length of the content at
/// every iteration; the first time a length repeats, it starts recording
/// content checksums for it, and a repeated checksum at a repeated length
/// means the loop has returned to (checksum-)identical content and will
/// never converge. Tracking is scoped to one step's fixpoint loop, so a step
/// that revisits a length an earlier step held is not falsely flagged.
pub struct CycleDetector {
    lens: Vec<usize>,
    sums: Vec<SumRecord>,
}

impl CycleDetector {
    /// The content lengths observed so far.
    pub closed spec fn lens_rec(self) -> Seq<usize> {
        self.lens@
    }

    /// The (length, checksum) pairs recorded so far.
    pub closed spec fn sums_rec(self) -> Seq<SumRecord> {
        self.sums@
    }

    /// Whether the length `l` has been observed.
    pub open spec fn has_len(self, l: usize) -> bool {
        exists|i: int| 0 <= i < self.lens_rec().len() && #[trigger] self.lens_rec()[i] == l
    }

    /// Whether the checksum `h` has been recorded for the length `l`.
    pub open spec fn has_sum(self, l: usize, h: u32) -> bool {
        exists|i: int|
            0 <= i < self.sums_rec().len() && (#[trigger] self.sums_rec()[i]).len == l
                && self.sums_rec()[i].sum == h
    }

    /// The detector never records a length or a pair twice, and records
    /// checksums only for lengths it has observed.
    pub open spec fn wf(self) -> bool {
        &&& forall|i: int, j: int|
            0 <= i < j < self.lens_rec().len() ==> #[trigger] self.lens_rec()[i]
                != #[trigger] self.lens_rec()[j]
        &&& forall|i: int, j: int|
            0 <= i < j < self.sums_rec().len() ==> !((#[trigger] self.sums_rec()[i]).len
                == (#[trigger] self.sums_rec()[j]).len && self.sums_rec()[i].sum
                == self.sums_rec()[j].sum)
        &&& forall|i: int|
            0 <= i < self.sums_rec().len() ==> self.has_len((#[trigger] self.sums_rec()[i]).len)
    }

    /// A fresh detector for one step's fixpoint loop: nothing observed yet.
    pub fn new() -> (d: CycleDetector)
        ensures
            d.wf(),
            d.lens_rec() =~= Seq::<usize>::empty(),
            d.sums_rec() =~= Seq::<SumRecord>::empty(),
    {
        CycleDetector { lens: Vec::new(), sums: Vec::new() }
    }

    /// Whether the length is already recorded.
    fn contains_len(&self, l: usize) -> (r: bool)
        ensures
            r == self.has_len(l),
    {
        let mut i: usize = 0;
        while i < self.lens.len()
            invariant
                i <= self.lens_rec().len(),
                forall|j: int| 0 <= j < i ==> #[trigger] self.lens_rec()[j] != l,
            decreases self.lens_rec().len() - i,
        {
            if self.lens[i] == l {
                return true;
            }
            i += 1;
        }
        false
    }

    /// Whether the pair is already recorded.
    fn contains_sum(&self, l: usize, h: u32) -> (r: bool)
        ensures
            r == self.has_sum(l, h),
    {
        let mut i: usize = 0;
        while i < self.sums.len()
            invariant
                i <= self.sums_rec().len(),
                forall|j: int|
                    0 <= j < i ==> !((#[trigger] self.sums_rec()[j]).len == l
                        && self.sums_rec()[j].sum == h),
            decreases self.sums_rec().len() - i,
        {
            if self.sums[i].len == l && self.sums[i].sum == h {
                return true;
            }
            i += 1;
        }
        false
    }

    /// Records the observation of the content and reports whether the run has
    /// returned to content with an already-recorded checksum. The first time
    /// a length is seen, only the length is remembered and no checksum is
    /// computed — hashing starts once a length repeats. A repeated checksum
    /// at a repeated length declares a cycle and leaves the detector
    /// unchanged.
    pub fn check(&mut self, content: &Vec<u8>) -> (cycle: bool)
        requires
            old(self).wf(),
        ensures
            final(self).wf(),
            check_obs(
                *old(self),
                *final(self),
                content@.len() as usize,
                crc32_of(content@),
                cycle,
            ),
    {
        let l = content.len();
        if !self.contains_len(l) {
            self.lens.push(l);
            proof {
                assert(self.lens_rec() =~= old(self).lens_rec().push(l));
                assert(self.lens_rec()[self.lens_rec().len() - 1] == l);
                assert forall|i: int, j: int|
                    0 <= i < j < self.lens_rec().len() implies #[trigger] self.lens_rec()[i]
                    != #[trigger] self.lens_rec()[j] by {
                    assert(self.lens_rec()[i] == old(self).lens_rec()[i]);
                    if j < self.lens_rec().len() - 1 {
                        assert(self.lens_rec()[j] == old(self).lens_rec()[j]);
                    }
                }
                assert forall|i: int|
                    0 <= i < self.sums_rec().len() implies self.has_len(
                    (#[trigger] self.sums_rec()[i]).len,
                ) by {
                    assert(old(self).has_len(old(self).sums_rec()[i].len));
                    let w = choose|w: int|
                        0 <= w < old(self).lens_rec().len() && #[trigger] old(self).lens_rec()[w]
                            == old(self).sums_rec()[i].len;
                    assert(self.lens_rec()[w] == old(self).lens_rec()[w]);
                }
            }
            false
        } else {
            let h = crc32(content);
            if self.contains_sum(l, h) {
                true
            } else {
                self.sums.push(SumRecord { len: l, sum: h });
                proof {
                    assert(self.sums_rec() =~= old(self).sums_rec().push(
                        SumRecord { len: l, sum: h },
                    ));
                    assert(self.sums_rec()[self.sums_rec().len() - 1].len == l);
                    assert forall|i: int, j: int|
                        0 <= i < j < self.sums_rec().len() implies !((
                        #[trigger] self.sums_rec()[i]).len == (#[trigger] self.sums_rec()[j]).len
                        && self.sums_rec()[i].sum == self.sums_rec()[j].sum) by {
                        assert(self.sums_rec()[i] == old(self).sums_rec()[i]);
                        if j < self.sums_rec().len() - 1 {
                            assert(self.sums_rec()[j] == old(self).sums_rec()[j]);
                        }
                    }
                    assert forall|i: int|
                        0 <= i < self.sums_rec().len() implies self.has_len(
                        (#[trigger] self.sums_rec()[i]).len,
                    ) by {
                        if i < self.sums_rec().len() - 1 {
                            assert(self.sums_rec()[i] == old(self).sums_rec()[i]);
                            assert(old(self).has_len(old(self).sums_rec()[i].len));
                        } else {
                            assert(old(self).has_len(l));
                        }
                        let ln = self.sums_rec()[i].len;
                        let w = choose|w: int|
                            0 <= w < old(self).lens_rec().len() && #[trigger] old(
                                self,
                            ).lens_rec()[w] == ln;
                        assert(self.lens_rec()[w] == ln);
                    }
                }
                false
            }
        }
    }
}

/// How one call of `check` on content of length `l` and checksum `h` changes
/// the detector and what it reports: a cycle exactly when the pair was
/// already recorded (then nothing changes); otherwise a new length is
/// remembered without a checksum, and a repeated length gets the checksum
/// recorded.
pub open spec fn check_obs(
    pre: CycleDetector,
    post: CycleDetector,
    l: usize,
    h: u32,
    cycle: bool,
) -> bool {
    &&& cycle == pre.has_sum(l, h)
    &&& (cycle ==> post == pre)
    &&& (!cycle && !pre.has_len(l) ==> post.lens_rec() == pre.lens_rec().push(l)
        && post.sums_rec() == pre.sums_rec())
    &&& (!cycle && pre.has_len(l) ==> post.lens_rec() == pre.lens_rec() && post.sums_rec()
        == pre.sums_rec().push(SumRecord { len: l, sum: h }))
}

/// What one `check` call does to the recorded sets: both grow monotonically,
/// and at most the observed pair is added.
pub proof fn lemma_check_obs_effect(
    pre: CycleDetector,
    post: CycleDetector,
    l: usize,
    h: u32,
    cycle: bool,
)
    requires
        check_obs(pre, post, l, h, cycle),
    ensures
        forall|l2: usize| pre.has_len(l2) ==> post.has_len(l2),
        forall|l2: usize, h2: u32| pre.has_sum(l2, h2) ==> post.has_sum(l2, h2),
        forall|l2: usize| post.has_len(l2) ==> pre.has_len(l2) || l2 == l,
        forall|l2: usize, h2: u32|
            post.has_sum(l2, h2) ==> pre.has_sum(l2, h2) || (l2 == l && h2 == h),
        !cycle ==> post.has_len(l),
        !cycle && pre.has_len(l) ==> post.has_sum(l, h),
{
    if !cycle && !pre.has_len(l) {
        assert(post.lens_rec()[post.lens_rec().len() - 1] == l);
        assert forall|l2: usize| pre.has_len(l2) implies post.has_len(l2) by {
            let i = choose|i: int|
                0 <= i < pre.lens_rec().len() && #[trigger] pre.lens_rec()[i] == l2;
            assert(post.lens_rec()[i] == l2);
        }
        assert forall|l2: usize| post.has_len(l2) implies pre.has_len(l2) || l2 == l by {
            let i = choose|i: int|
                0 <= i < post.lens_rec().len() && #[trigger] post.lens_rec()[i] == l2;
            if i < pre.lens_rec().len() {
                assert(pre.lens_rec()[i] == l2);
            }
        }
    }
    if !cycle && pre.has_len(l) {
        assert(post.sums_rec()[post.sums_rec().len() - 1] == (SumRecord { len: l, sum: h }));
        assert forall|l2: usize| pre.has_len(l2) implies post.has_len(l2) by {
            let i = choose|i: int|
                0 <= i < pre.lens_rec().len() && #[trigger] pre.lens_rec()[i] == l2;
            assert(post.lens_rec()[i] == l2);
        }
        assert forall|l2: usize, h2: u32| pre.has_sum(l2, h2) implies post.has_sum(l2, h2) by {
            let i = choose|i: int|
                0 <= i < pre.sums_rec().len() && (#[trigger] pre.sums_rec()[i]).len == l2
                    && pre.sums_rec()[i].sum == h2;
            assert(post.sums_rec()[i].len == l2 && post.sums_rec()[i].sum == h2);
        }
        assert forall|l2: usize, h2: u32| post.has_sum(l2, h2) implies pre.has_sum(l2, h2) || (l2
            == l && h2 == h) by {
            let i = choose|i: int|
                0 <= i < post.sums_rec().len() && (#[trigger] post.sums_rec()[i]).len == l2
                    && post.sums_rec()[i].sum == h2;
            if i < pre.sums_rec().len() {
                assert(pre.sums_rec()[i].len == l2 && pre.sums_rec()[i].sum == h2);
            }
        }
    }
}

/// A later detector state knows everything an earlier one knew.
pub open spec fn detector_extends(pre: CycleDetector, post: CycleDetector) -> bool {
    &&& forall|l: usize| pre.has_len(l) ==> post.has_len(l)
    &&& forall|l: usize, h: u32| pre.has_sum(l, h) ==> post.has_sum(l, h)
}

/// Bounded detection law: once a run returns to checksum-identical content, a
/// cycle is declared within two further sightings. If the same content
/// (length `l`, checksum `h`) is observed three times — with any other
/// observations in between — the first sighting records the length, the
/// second records the checksum, and the third at the latest reports the
/// cycle.
pub proof fn lemma_third_repeat_detected(
    a0: CycleDetector,
    a1: CycleDetector,
    b0: CycleDetector,
    b1: CycleDetector,
    c0: CycleDetector,
    c1: CycleDetector,
    l: usize,
    h: u32,
    cyc1: bool,
    cyc2: bool,
    cyc3: bool,
)
    requires
        check_obs(a0, a1, l, h, cyc1),
        detector_extends(a1, b0),
        check_obs(b0, b1, l, h, cyc2),
        detector_extends(b1, c0),
        check_obs(c0, c1, l, h, cyc3),
    ensures
        cyc1 || cyc2 || cyc3,
{
    if !cyc1 && !cyc2 {
        lemma_check_obs_effect(a0, a1, l, h, cyc1);
        lemma_check_obs_effect(b0, b1, l, h, cyc2);
        assert(b1.has_sum(l, h));
    }
}

/// Each `check` call is itself an extension of the detector's knowledge.
pub proof fn lemma_check_extends(
    pre: CycleDetector,
    post: CycleDetector,
    l: usize,
    h: u32,
    cycle: bool,
)
    requires
        check_obs(pre, post, l, h, cycle),
    ensures
        detector_extends(pre, post),
{
    lemma_check_obs_effect(pre, post, l, h, cycle);
}

/// Inert rule law: a rule with empty pattern text never matches and never
/// errors — inserting one anywhere in a step, whatever its replacement
/// template, changes neither whether the step compiles nor what it compiles
/// to, and so has zero effect on any run.
pub proof fn lemma_inert_rule_dropped(rules: Seq<RegexInfo>, pos: int, inert: RegexInfo)
    requires
        0 <= pos <= rules.len(),
        inert.pattern@.len() == 0,
    ensures
        compiled_rules_of(rules.insert(pos, inert)) == compiled_rules_of(rules),
        step_rules_ok(rules.insert(pos, inert)) == step_rules_ok(rules),
    decreases rules.len(),
{
    let s = rules.insert(pos, inert);
    if pos == rules.len() {
        assert(s.drop_last() =~= rules);
        assert(s.last() == inert);
    } else {
        assert(s.last() == rules.last());
        assert(s.drop_last() =~= rules.drop_last().insert(pos, inert));
        lemma_inert_rule_dropped(rules.drop_last(), pos, inert);
    }
    if step_rules_ok(rules) {
        assert forall|i: int|
            0 <= i < s.len() implies ((#[trigger] s[i].pattern@).len() > 0 ==> re_valid(
            s[i].pattern@,
        )) by {
            if i < pos {
                assert(s[i] == rules[i]);
            } else if i == pos {
                assert(s[i] == inert);
            } else {
                assert(s[i] == rules[i - 1]);
            }
        }
    }
    if step_rules_ok(s) {
        assert forall|j: int|
            0 <= j < rules.len() implies ((#[trigger] rules[j].pattern@).len() > 0 ==> re_valid(
            rules[j].pattern@,
        )) by {
            if j < pos {
                assert(rules[j] == s[j]);
            } else {
                assert(rules[j] == s[j + 1]);
            }
        }
    }
}

/// Inert rule law, for a whole pipeline: two pipeline snapshots that differ
/// only in that one step of the second carries one extra rule with empty
/// pattern text compile identically — same compiled pipeline, same
/// compile-time validity — so every run behaves identically on them.
pub proof fn lemma_inert_rule_dropped_in_pipeline(
    steps1: Seq<Step>,
    steps2: Seq<Step>,
    k: int,
    pos: int,
    inert: RegexInfo,
)
    requires
        steps1.len() == steps2.len(),
        0 <= k < steps1.len(),
        forall|i: int| 0 <= i < steps1.len() && i != k ==> steps2[i] == #[trigger] steps1[i],
        steps2[k].props == steps1[k].props,
        0 <= pos <= steps1[k].regexes@.len(),
        inert.pattern@.len() == 0,
        steps2[k].regexes@ == steps1[k].regexes@.insert(pos, inert),
    ensures
        compiled_steps_of(steps2) == compiled_steps_of(steps1),
        pipeline_ok(steps2) == pipeline_ok(steps1),
    decreases steps1.len(),
{
    lemma_inert_rule_dropped(steps1[k].regexes@, pos, inert);
    if k == steps1.len() - 1 {
        assert(steps2.drop_last() =~= steps1.drop_last());
        assert(compiled_rules_of(steps2.last().regexes@) == compiled_rules_of(
            steps1.last().regexes@,
        ));
    } else {
        assert(steps2.last() == steps1.last());
        assert(steps2.drop_last()[k] == steps2[k]);
        lemma_inert_rule_dropped_in_pipeline(
            steps1.drop_last(),
            steps2.drop_last(),
            k,
            pos,
            inert,
        );
    }
    assert(pipeline_ok(steps2) == pipeline_ok(steps1)) by {
        if pipeline_ok(steps1) {
            assert forall|i: int|
                0 <= i < steps2.len() implies ((#[trigger] steps2[i].props).enabled
                ==> step_rules_ok(steps2[i].regexes@)) by {
                assert(steps1[i].props.enabled ==> step_rules_ok(steps1[i].regexes@));
            }
        }
        if pipeline_ok(steps2) {
            assert forall|i: int|
                0 <= i < steps1.len() implies ((#[trigger] steps1[i].props).enabled
                ==> step_rules_ok(steps1[i].regexes@)) by {
                assert(steps2[i].props.enabled ==> step_rules_ok(steps2[i].regexes@));
            }
        }
    }
}

/// A sequence of distinct machine integers, all at most `bound`, has at most
/// `bound + 1` elements.
proof fn lemma_distinct_bounded_lens(s: Seq<usize>, bound: int)
    requires
        forall|i: int, j: int| 0 <= i < j < s.len() ==> #[trigger] s[i] != #[trigger] s[j],
        forall|i: int| 0 <= i < s.len() ==> (#[trigger] s[i]) as int <= bound,
        0 <= bound,
    ensures
        s.len() <= bound + 1,
{
    let t = s.map_values(|x: usize| x as int);
    assert(t.no_duplicates()) by {
        assert forall|i: int, j: int|
            0 <= i < t.len() && 0 <= j < t.len() && i != j implies t[i] != t[j] by {
            assert(t[i] == s[i] as int && t[j] == s[j] as int);
            if i < j {
                assert(s[i] != s[j]);
            } else {
                assert(s[j] != s[i]);
            }
        }
    }
    t.unique_seq_to_set();
    vstd::set_lib::lemma_int_range(0, bound + 1);
    assert(t.to_set().subset_of(vstd::set_lib::set_int_range(0, bound + 1))) by {
        assert forall|x: int|
            t.to_set().contains(x) implies vstd::set_lib::set_int_range(0, bound + 1).contains(
            x,
        ) by {
            let i = choose|i: int| 0 <= i < t.len() && t[i] == x;
            assert(t[i] == s[i] as int);
        }
    }
    vstd::set_lib::lemma_len_subset(t.to_set(), vstd::set_lib::set_int_range(0, bound + 1));
}

/// A sequence of distinct (length, checksum) records whose lengths are at
/// most `bound` has at most `(bound + 1) * 2^32` elements: each record maps
/// injectively to `len * 2^32 + sum`.
proof fn lemma_distinct_bounded_sums(s: Seq<SumRecord>, bound: int)
    requires
        forall|i: int, j: int|
            0 <= i < j < s.len() ==> !((#[trigger] s[i]).len == (#[trigger] s[j]).len && s[i].sum
                == s[j].sum),
        forall|i: int| 0 <= i < s.len() ==> (#[trigger] s[i]).len as int <= bound,
        0 <= bound,
    ensures
        s.len() <= (bound + 1) * 0x1_0000_0000,
{
    let t = s.map_values(|r: SumRecord| r.len as int * 0x1_0000_0000 + r.sum as int);
    assert(t.no_duplicates()) by {
        assert forall|i: int, j: int|
            0 <= i < t.len() && 0 <= j < t.len() && i != j implies t[i] != t[j] by {
            assert(t[i] == s[i].len as int * 0x1_0000_0000 + s[i].sum as int);
            assert(t[j] == s[j].len as int * 0x1_0000_0000 + s[j].sum as int);
            let a1 = s[i].len as int;
            let b1 = s[i].sum as int;
            let a2 = s[j].len as int;
            let b2 = s[j].sum as int;
            if i < j {
                assert(!(s[i].len == s[j].len && s[i].sum == s[j].sum));
            } else {
                assert(!(s[j].len == s[i].len && s[j].sum == s[i].sum));
            }
            assert(a1 * 0x1_0000_0000 + b1 != a2 * 0x1_0000_0000 + b2) by (nonlinear_arith)
                requires
                    a1 != a2 || b1 != b2,
                    0 <= b1 < 0x1_0000_0000,
                    0 <= b2 < 0x1_0000_0000,
            {
            }
        }
    }
    t.unique_seq_to_set();
    assert(0 <= (bound + 1) * 0x1_0000_0000) by (nonlinear_arith)
        requires
            0 <= bound,
    {
    }
    vstd::set_lib::lemma_int_range(0, (bound + 1) * 0x1_0000_0000);
    assert(t.to_set().subset_of(vstd::set_lib::set_int_range(0, (bound + 1) * 0x1_0000_0000)))
        by {
        assert forall|x: int|
            t.to_set().contains(x) implies vstd::set_lib::set_int_range(
            0,
            (bound + 1) * 0x1_0000_0000,
        ).contains(x) by {
            let i = choose|i: int| 0 <= i < t.len() && t[i] == x;
            assert(t[i] == s[i].len as int * 0x1_0000_0000 + s[i].sum as int);
            let a = s[i].len as int;
            let b = s[i].sum as int;
            assert(0 <= a * 0x1_0000_0000 + b < (bound + 1) * 0x1_0000_0000) by (nonlinear_arith)
                requires
                    0 <= a <= bound,
                    0 <= b < 0x1_0000_0000,
            {
            }
        }
    }
    vstd::set_lib::lemma_len_subset(
        t.to_set(),
        vstd::set_lib::set_int_range(0, (bound + 1) * 0x1_0000_0000),
    );
}

/// Scans a step's rules in priority order and applies the first one whose
/// pattern matches, replacing all of its occurrences; reports `None` exactly
/// when no rule matches, so that the step's fixpoint loop can stop.
fn apply_first_match(rules: &Vec<CompiledRule>, content: &Vec<u8>) -> (r: Option<Vec<u8>>)
    ensures
        r is None <==> step_blocked(rules_model(rules@), content@),
        r matches Some(nc) ==> !step_blocked(rules_model(rules@), content@) && nc@ == step_next(
            rules_model(rules@),
            content@,
        ),
{
    let ghost rm = rules_model(rules@);
    let mut j: usize = 0;
    while j < rules.len()
        invariant
            j <= rules@.len(),
            rm == rules_model(rules@),
            forall|i: int| 0 <= i < j ==> !#[trigger] re_matches(rm[i].pattern, content@),
        decreases rules@.len() - j,
    {
        if rule_matches(&rules[j], content) {
            let nc = rule_replace_all(&rules[j], content);
            proof {
                assert(rm[j as int] == rules@[j as int]@);
                lemma_priority_order(rm, content@, j as int);
                assert(!step_blocked(rm, content@));
            }
            return Some(nc);
        }
        j += 1;
    }
    None
}

/// The growth guard: a run is aborted once the working content has grown past
/// four times the length of the original input and past an absolute floor of
/// 1000 bytes. Both conditions must hold, so that small inputs are never
/// flagged on relative growth alone; the threshold is a hand-tuned heuristic,
/// not a formal bound.
pub fn growth_exceeded(current_len: usize, original_len: usize) -> (r: bool)
    ensures
        r == (current_len > 4 * original_len && current_len > 1000),
{
    (current_len as u128) > 4u128 * (original_len as u128) && current_len > 1000
}

/// Eager validation of a rule's pattern text, for edit-time feedback: a
/// compile error is visible as soon as the pattern changes, before any run
/// starts. An empty pattern is inert, not an error, so only non-empty text is
/// compiled.
pub fn pattern_compiles(pattern: &str) -> (r: bool)
    ensures
        r == re_valid(pattern@),
{
    compile_rule(pattern, "").is_some()
}

/// Runs the compiled pipeline on the input. For each enabled step, in order,
/// the engine applies one substitution per iteration — all occurrences of the
/// highest-priority matching rule — and restarts the rule scan after every
/// substitution, until no rule matches. On every iteration it first consults
/// the cycle detector, then observes the cancellation flag, then the growth
/// guard. It returns the final content — always within the growth bound —
/// or the motive of the abort together with the content as of the last
/// completed iteration; a growth abort returns the run's first
/// iteration-boundary content past the bound. An empty pipeline always
/// succeeds, with the input unchanged. The fixpoint loop
/// provably terminates: an iteration that neither aborts nor reaches the
/// fixpoint records a new length or a new (length, checksum) pair, and the
/// growth guard bounds how many of those there can be.
pub fn replace_text(original: Vec<u8>, pipeline: &CompiledPipeline, cancel: &CancelFlag) -> (r:
    Result<Vec<u8>, (CancelMotive, Vec<u8>)>)
    ensures
        pipeline@.len() == 0 ==> r is Ok,
        r matches Ok(out) ==> pipeline_completes(pipeline@, original@, out@) && !(out@.len() > 4
            * original@.len() && out@.len() > 1000),
        r matches Err((motive, partial)) ==> pipeline_reaches(pipeline@, original@, partial@) && (
        motive == CancelMotive::HighGrowth ==> partial@.len() > 4 * original@.len()
            && partial@.len() > 1000 && first_growth_abort(pipeline@, original@, partial@)) && (
        motive == CancelMotive::CycleDetected ==> cycle_evidence(pipeline@, original@, partial@)),
{
    let ghost steps_m: Seq<Seq<RuleModel>> = pipeline@;
    let ghost orig: Seq<u8> = original@;
    let original_len: usize = original.len();
    let mut content = original;
    let mut k: usize = 0;
    while k < pipeline.steps.len()
        invariant
            k <= pipeline.steps@.len(),
            steps_m == pipeline@,
            steps_m.len() == pipeline.steps@.len(),
            orig == original@,
            orig.len() == original_len as nat,
            completes_to_step(steps_m, k as int, orig, content@),
            completes_to_step_within(steps_m, k as int, orig, content@, orig.len()),
        decreases pipeline.steps@.len() - k,
    {
        let rules: &Vec<CompiledRule> = &pipeline.steps[k];
        proof {
            assert(steps_m[k as int] == rules_model(rules@));
        }
        let ghost rm: Seq<RuleModel> = steps_m[k as int];
        let ghost s0: Seq<u8> = content@;
        let ghost bound: int = if 4 * orig.len() as int > 1000 {
            4 * orig.len() as int
        } else {
            1000
        };
        let mut detector = CycleDetector::new();
        let ghost mut iter: nat = 0;
        loop
            invariant_except_break
                forall|l2: usize, h2: u32| #[trigger]
                    detector.has_sum(l2, h2) ==> exists|c: Seq<u8>, m: nat|
                        m < iter && #[trigger] reaches_in(rm, s0, c, m) && c.len() == l2 as nat
                            && crc32_of(c) == h2,
            invariant
                detector.wf(),
                steps_m == pipeline@,
                0 <= k < steps_m.len(),
                rm == steps_m[k as int],
                rm == rules_model(rules@),
                orig == original@,
                orig.len() == original_len as nat,
                bound == if 4 * orig.len() as int > 1000 {
                    4 * orig.len() as int
                } else {
                    1000
                },
                completes_to_step(steps_m, k as int, orig, s0),
                completes_to_step_within(steps_m, k as int, orig, s0, orig.len()),
                reaches_in(rm, s0, content@, iter),
                content@ == step_iterate(rm, s0, iter),
                forall|m: nat|
                    m < iter ==> within_growth_bound(
                        (#[trigger] step_iterate(rm, s0, m)).len(),
                        orig.len(),
                    ),
                forall|i: int|
                    0 <= i < detector.lens_rec().len() ==> (#[trigger] detector.lens_rec()[i]) as int
                        <= bound,
                forall|i: int|
                    0 <= i < detector.sums_rec().len() ==> (
                    #[trigger] detector.sums_rec()[i]).len as int <= bound,
            ensures
                step_blocked(rm, content@),
                reaches_in(rm, s0, content@, iter),
                content@ == step_iterate(rm, s0, iter),
                forall|m: nat|
                    m <= iter ==> within_growth_bound(
                        (#[trigger] step_iterate(rm, s0, m)).len(),
                        orig.len(),
                    ),
            decreases (bound + 1) + (bound + 1) * 0x1_0000_0000 - detector.lens_rec().len()
                - detector.sums_rec().len(),
        {
            let clen: usize = content.len();
            let ghost pre: CycleDetector = detector;
            let cycle = detector.check(&content);
            proof {
                assert(check_obs(pre, detector, clen, crc32_of(content@), cycle));
            }
            if cycle {
                proof {
                    let h: u32 = crc32_of(content@);
                    assert(pre.has_sum(clen, h));
                    let (c1, n1) = choose|c: Seq<u8>, m: nat|
                        m < iter && #[trigger] reaches_in(rm, s0, c, m) && c.len() == clen as nat
                            && crc32_of(c) == h;
                    assert(reaches_in(steps_m[k as int], s0, c1, n1));
                    assert(reaches_in(steps_m[k as int], s0, content@, iter));
                    assert(cycle_evidence(steps_m, orig, content@));
                    assert(step_reaches(steps_m[k as int], s0, content@));
                    assert(pipeline_reaches_from(steps_m, k as int, s0, content@));
                    lemma_prefix_then_reaches(steps_m, k as int, orig, s0, content@);
                }
                return Err((CancelMotive::CycleDetected, content));
            }
            if cancel.is_set() {
                proof {
                    assert(step_reaches(steps_m[k as int], s0, content@));
                    assert(pipeline_reaches_from(steps_m, k as int, s0, content@));
                    lemma_prefix_then_reaches(steps_m, k as int, orig, s0, content@);
                }
                return Err((CancelMotive::ManuallyCancelled, content));
            }
            if growth_exceeded(clen, original_len) {
                proof {
                    assert(step_reaches(steps_m[k as int], s0, content@));
                    assert(pipeline_reaches_from(steps_m, k as int, s0, content@));
                    lemma_prefix_then_reaches(steps_m, k as int, orig, s0, content@);
                    assert(content@ == step_iterate(steps_m[k as int], s0, iter));
                    assert(!within_growth_bound(content@.len(), orig.len()));
                    assert(first_growth_abort(steps_m, orig, content@));
                }
                return Err((CancelMotive::HighGrowth, content));
            }
            proof {
                assert(clen as int <= bound);
            }
            match apply_first_match(rules, &content) {
                Some(nc) => {
                    proof {
                        let h: u32 = crc32_of(content@);
                        lemma_check_obs_effect(pre, detector, clen, h, false);
                        lemma_reaches_in_step(rm, s0, content@, iter);
                        assert(nc@ == step_next(rm, content@));
                        assert(reaches_in(rm, s0, nc@, iter + 1));
                        assert(step_iterate(rm, s0, iter + 1) == step_next(
                            rm,
                            step_iterate(rm, s0, iter),
                        ));
                        assert(nc@ == step_iterate(rm, s0, iter + 1));
                        assert forall|m: nat|
                            m < iter + 1 implies within_growth_bound(
                            (#[trigger] step_iterate(rm, s0, m)).len(),
                            orig.len(),
                        ) by {
                            if m == iter {
                                assert(step_iterate(rm, s0, m) == content@);
                            }
                        }
                        assert forall|l2: usize, h2: u32| #[trigger]
                            detector.has_sum(l2, h2) implies exists|c: Seq<u8>, m: nat|
                            m < iter + 1 && #[trigger] reaches_in(rm, s0, c, m) && c.len()
                                == l2 as nat && crc32_of(c) == h2 by {
                            if pre.has_sum(l2, h2) {
                                let (c, m) = choose|c: Seq<u8>, m: nat|
                                    m < iter && #[trigger] reaches_in(rm, s0, c, m) && c.len()
                                        == l2 as nat && crc32_of(c) == h2;
                                assert(m < iter + 1);
                            } else {
                                assert(l2 == clen && h2 == h);
                                assert(reaches_in(rm, s0, content@, iter));
                                assert(content@.len() == clen as nat);
                            }
                        }
                        assert forall|i: int|
                            0 <= i < detector.lens_rec().len() implies (
                        #[trigger] detector.lens_rec()[i]) as int <= bound by {
                            if !pre.has_len(clen) {
                                assert(detector.lens_rec() == pre.lens_rec().push(clen));
                                if i < pre.lens_rec().len() {
                                    assert(detector.lens_rec()[i] == pre.lens_rec()[i]);
                                }
                            } else {
                                assert(detector.lens_rec() == pre.lens_rec());
                            }
                        }
                        assert forall|i: int|
                            0 <= i < detector.sums_rec().len() implies (
                        #[trigger] detector.sums_rec()[i]).len as int <= bound by {
                            if pre.has_len(clen) {
                                assert(detector.sums_rec() == pre.sums_rec().push(
                                    SumRecord { len: clen, sum: h },
                                ));
                                if i < pre.sums_rec().len() {
                                    assert(detector.sums_rec()[i] == pre.sums_rec()[i]);
                                }
                            } else {
                                assert(detector.sums_rec() == pre.sums_rec());
                            }
                        }
                        lemma_distinct_bounded_lens(detector.lens_rec(), bound);
                        lemma_distinct_bounded_sums(detector.sums_rec(), bound);
                    }
                    content = nc;
                    proof {
                        iter = iter + 1;
                    }
                },
                None => {
                    proof {
                        assert forall|m: nat|
                            m <= iter implies within_growth_bound(
                            (#[trigger] step_iterate(rm, s0, m)).len(),
                            orig.len(),
                        ) by {
                            if m == iter {
                                assert(step_iterate(rm, s0, m) == content@);
                            }
                        }
                    }
                    break;
                },
            }
        }
        proof {
            let k1: int = k as int + 1;
            assert(step_reaches(steps_m[k as int], s0, content@));
            assert(step_completes(steps_m[k1 - 1], s0, content@));
            assert(completes_to_step(steps_m, k1, orig, content@));
            assert(step_completes_within(steps_m[k1 - 1], s0, content@, orig.len()));
            assert(completes_to_step_within(steps_m, k1, orig, content@, orig.len()));
        }
        k += 1;
    }
    proof {
        assert(pipeline_completes_from(steps_m, steps_m.len() as int, content@, content@));
        lemma_prefix_then_completes(steps_m, steps_m.len() as int, orig, content@, content@);
        if steps_m.len() == 0 {
            assert(content@ == orig);
        } else {
            lemma_completes_within_last(steps_m, steps_m.len() as int, orig, content@, orig.len());
        }
        assert(within_growth_bound(content@.len(), orig.len()));
    }
    Ok(content)
}

} // verus!
