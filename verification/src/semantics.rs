//! The mathematical model of the replacement engine.
//!
//! A step is a priority-ordered sequence of compiled rules. One iteration of
//! the engine applies the first matching rule to the content (`step_next`);
//! a step runs iterations until no rule matches (`step_completes`); a pipeline
//! runs its steps in order (`pipeline_completes`). `pipeline_reaches`
//! describes every content the engine can hold mid-run, and `cycle_evidence`
//! what the cycle detector has established when it aborts a run.

use vstd::prelude::*;

use crate::pattern::{crc32_of, re_matches, re_replaced, RuleModel};

verus! {

/// No rule of the step matches the content: the step's fixpoint is reached.
pub open spec fn step_blocked(rules: Seq<RuleModel>, c: Seq<u8>) -> bool {
    forall|i: int| 0 <= i < rules.len() ==> !#[trigger] re_matches(rules[i].pattern, c)
}

/// The content after one substitution, scanning rules from priority `i` on:
/// the first matching rule replaces all of its occurrences; if none matches,
/// the content is unchanged.
pub open spec fn step_next_from(rules: Seq<RuleModel>, c: Seq<u8>, i: int) -> Seq<u8>
    decreases rules.len() - i,
{
    if i < 0 || i >= rules.len() {
        c
    } else if re_matches(rules[i].pattern, c) {
        re_replaced(rules[i].pattern, rules[i].replacement, c)
    } else {
        step_next_from(rules, c, i + 1)
    }
}

/// The content after one substitution by the highest-priority matching rule.
pub open spec fn step_next(rules: Seq<RuleModel>, c: Seq<u8>) -> Seq<u8> {
    step_next_from(rules, c, 0)
}

/// `b` is reached from `a` by exactly `n` substitutions of the step, every
/// one of them applied while some rule still matched.
pub open spec fn reaches_in(rules: Seq<RuleModel>, a: Seq<u8>, b: Seq<u8>, n: nat) -> bool
    decreases n,
{
    if n == 0 {
        a == b
    } else {
        !step_blocked(rules, a) && reaches_in(rules, step_next(rules, a), b, (n - 1) as nat)
    }
}

/// `b` is reached from `a` by some number of substitutions of the step.
pub open spec fn step_reaches(rules: Seq<RuleModel>, a: Seq<u8>, b: Seq<u8>) -> bool {
    exists|n: nat| reaches_in(rules, a, b, n)
}

/// The step, started on `a`, runs to the fixpoint `b`.
pub open spec fn step_completes(rules: Seq<RuleModel>, a: Seq<u8>, b: Seq<u8>) -> bool {
    step_reaches(rules, a, b) && step_blocked(rules, b)
}

/// The first `k` steps of the pipeline, started on `a`, run to their
/// fixpoints in order and leave `b`.
pub open spec fn completes_to_step(steps: Seq<Seq<RuleModel>>, k: int, a: Seq<u8>, b: Seq<u8>) -> bool
    decreases k,
{
    if k <= 0 {
        a == b
    } else {
        exists|m: Seq<u8>|
            completes_to_step(steps, k - 1, a, m) && #[trigger] step_completes(steps[k - 1], m, b)
    }
}

/// The steps from index `k` on, started on `a`, run to their fixpoints in
/// order and leave `b`.
pub open spec fn pipeline_completes_from(
    steps: Seq<Seq<RuleModel>>,
    k: int,
    a: Seq<u8>,
    b: Seq<u8>,
) -> bool
    decreases steps.len() - k,
{
    if k < 0 || k >= steps.len() {
        a == b
    } else {
        exists|m: Seq<u8>|
            #[trigger] step_completes(steps[k], a, m) && pipeline_completes_from(steps, k + 1, m, b)
    }
}

/// The whole pipeline, started on `a`, runs every step to its fixpoint and
/// leaves `b`.
pub open spec fn pipeline_completes(steps: Seq<Seq<RuleModel>>, a: Seq<u8>, b: Seq<u8>) -> bool {
    pipeline_completes_from(steps, 0, a, b)
}

/// Starting at step `k` on `a`, the run can hold content `b` at some
/// iteration boundary: either within step `k`, or after completing it and
/// continuing in a later step.
pub open spec fn pipeline_reaches_from(
    steps: Seq<Seq<RuleModel>>,
    k: int,
    a: Seq<u8>,
    b: Seq<u8>,
) -> bool
    decreases steps.len() - k,
{
    if k < 0 || k >= steps.len() {
        a == b
    } else {
        step_reaches(steps[k], a, b) || exists|m: Seq<u8>|
            #[trigger] step_completes(steps[k], a, m) && pipeline_reaches_from(steps, k + 1, m, b)
    }
}

/// The run, started on `a`, can hold content `b` at some iteration boundary.
pub open spec fn pipeline_reaches(steps: Seq<Seq<RuleModel>>, a: Seq<u8>, b: Seq<u8>) -> bool {
    pipeline_reaches_from(steps, 0, a, b)
}

/// What an abort with a detected cycle establishes: within a single step
/// (entered with content `s0` after the earlier steps completed), two
/// distinct iterations held contents of the same length and the same CRC32
/// checksum — the second of them being the returned partial content.
pub open spec fn cycle_evidence(steps: Seq<Seq<RuleModel>>, orig: Seq<u8>, partial: Seq<u8>) -> bool {
    exists|k: int, s0: Seq<u8>, c1: Seq<u8>, n1: nat, n2: nat|
        0 <= k < steps.len() && #[trigger] completes_to_step(steps, k, orig, s0)
            && #[trigger] reaches_in(steps[k], s0, c1, n1)
            && #[trigger] reaches_in(steps[k], s0, partial, n2) && n1 < n2 && c1.len()
            == partial.len() && crc32_of(c1) == crc32_of(partial)
}

/// The growth guard's bound: content is within it unless it is longer than
/// four times the original input and longer than 1000 bytes.
pub open spec fn within_growth_bound(len: nat, original_len: nat) -> bool {
    !(len > 4 * original_len && len > 1000)
}

/// The content after exactly `n` substitutions of the step. One substitution
/// applies the highest-priority matching rule and leaves blocked content
/// unchanged, so the whole chain is a function of the start content.
pub open spec fn step_iterate(rules: Seq<RuleModel>, c: Seq<u8>, n: nat) -> Seq<u8>
    decreases n,
{
    if n == 0 {
        c
    } else {
        step_next(rules, step_iterate(rules, c, (n - 1) as nat))
    }
}

/// Iterating `n` times from the successor equals iterating `n + 1` times.
pub proof fn lemma_step_iterate_shift(rules: Seq<RuleModel>, a: Seq<u8>, n: nat)
    ensures
        step_iterate(rules, step_next(rules, a), n) == step_iterate(rules, a, n + 1),
    decreases n,
{
    if n == 0 {
        assert(step_iterate(rules, a, 1) == step_next(rules, step_iterate(rules, a, 0)));
    } else {
        lemma_step_iterate_shift(rules, a, (n - 1) as nat);
        assert(step_iterate(rules, step_next(rules, a), n) == step_next(
            rules,
            step_iterate(rules, step_next(rules, a), (n - 1) as nat),
        ));
        assert(step_iterate(rules, a, n + 1) == step_next(rules, step_iterate(rules, a, n)));
    }
}

/// A reachability chain is the deterministic iteration chain: whatever is
/// reached in `n` substitutions is the `n`-th iterate.
pub proof fn lemma_reaches_in_iterate(rules: Seq<RuleModel>, a: Seq<u8>, b: Seq<u8>, n: nat)
    requires
        reaches_in(rules, a, b, n),
    ensures
        b == step_iterate(rules, a, n),
    decreases n,
{
    if n > 0 {
        lemma_reaches_in_iterate(rules, step_next(rules, a), b, (n - 1) as nat);
        lemma_step_iterate_shift(rules, a, (n - 1) as nat);
    }
}

/// The step, started on `a`, runs to the fixpoint `b`, and every content it
/// holds at an iteration boundary on the way — `b` included — is within the
/// growth bound of a run whose input had `original_len` bytes.
pub open spec fn step_completes_within(
    rules: Seq<RuleModel>,
    a: Seq<u8>,
    b: Seq<u8>,
    original_len: nat,
) -> bool {
    exists|n: nat|
        #[trigger] reaches_in(rules, a, b, n) && step_blocked(rules, b) && (forall|m: nat|
            m <= n ==> within_growth_bound(
                (#[trigger] step_iterate(rules, a, m)).len(),
                original_len,
            ))
}

/// The first `k` steps run to their fixpoints in order, with every
/// iteration-boundary content within the growth bound.
pub open spec fn completes_to_step_within(
    steps: Seq<Seq<RuleModel>>,
    k: int,
    a: Seq<u8>,
    b: Seq<u8>,
    original_len: nat,
) -> bool
    decreases k,
{
    if k <= 0 {
        a == b
    } else {
        exists|m: Seq<u8>|
            completes_to_step_within(steps, k - 1, a, m, original_len)
                && #[trigger] step_completes_within(steps[k - 1], m, b, original_len)
    }
}

/// What an abort with motive `HighGrowth` establishes: the returned partial
/// content is the run's first iteration-boundary content past the growth
/// bound. Every checkpoint before it — in the completed steps and in the
/// aborted step — was within the bound, and the abort fires at the first one
/// that is not.
pub open spec fn first_growth_abort(
    steps: Seq<Seq<RuleModel>>,
    orig: Seq<u8>,
    partial: Seq<u8>,
) -> bool {
    exists|k: int, s0: Seq<u8>, n: nat|
        0 <= k < steps.len() && #[trigger] completes_to_step_within(steps, k, orig, s0, orig.len())
            && partial == #[trigger] step_iterate(steps[k], s0, n) && (forall|m: nat|
            m < n ==> within_growth_bound(
                (#[trigger] step_iterate(steps[k], s0, m)).len(),
                orig.len(),
            )) && !within_growth_bound(partial.len(), orig.len())
}

/// The content a bounded completion of a non-empty prefix leaves is itself
/// within the growth bound.
pub proof fn lemma_completes_within_last(
    steps: Seq<Seq<RuleModel>>,
    k: int,
    a: Seq<u8>,
    b: Seq<u8>,
    original_len: nat,
)
    requires
        1 <= k <= steps.len(),
        completes_to_step_within(steps, k, a, b, original_len),
    ensures
        within_growth_bound(b.len(), original_len),
{
    let m1 = choose|m1: Seq<u8>|
        completes_to_step_within(steps, k - 1, a, m1, original_len) && #[trigger] step_completes_within(
            steps[k - 1],
            m1,
            b,
            original_len,
        );
    let n = choose|n: nat|
        #[trigger] reaches_in(steps[k - 1], m1, b, n) && step_blocked(steps[k - 1], b) && (
        forall|m: nat|
            m <= n ==> within_growth_bound(
                (#[trigger] step_iterate(steps[k - 1], m1, m)).len(),
                original_len,
            ));
    lemma_reaches_in_iterate(steps[k - 1], m1, b, n);
    assert(within_growth_bound((step_iterate(steps[k - 1], m1, n)).len(), original_len));
}

/// Scanning from priority `i` is the same as scanning from priority `j` when
/// no rule between them matches.
pub proof fn lemma_step_next_skip(rules: Seq<RuleModel>, c: Seq<u8>, i: int, j: int)
    requires
        0 <= i <= j <= rules.len(),
        forall|m: int| i <= m < j ==> !#[trigger] re_matches(rules[m].pattern, c),
    ensures
        step_next_from(rules, c, i) == step_next_from(rules, c, j),
    decreases j - i,
{
    if i < j {
        lemma_step_next_skip(rules, c, i + 1, j);
    }
}

/// Priority ordering law: one substitution of a step always applies the
/// highest-priority matching rule — a lower-priority rule never fires, and
/// after every substitution the scan restarts from the top, so the content
/// after one iteration is exactly the replacement by the first rule that
/// matches.
pub proof fn lemma_priority_order(rules: Seq<RuleModel>, c: Seq<u8>, j: int)
    requires
        0 <= j < rules.len(),
        re_matches(rules[j].pattern, c),
        forall|i: int| 0 <= i < j ==> !#[trigger] re_matches(rules[i].pattern, c),
    ensures
        step_next(rules, c) == re_replaced(rules[j].pattern, rules[j].replacement, c),
{
    lemma_step_next_skip(rules, c, 0, j);
}

/// One more substitution extends a reachability chain by one.
pub proof fn lemma_reaches_in_step(rules: Seq<RuleModel>, a: Seq<u8>, b: Seq<u8>, n: nat)
    requires
        reaches_in(rules, a, b, n),
        !step_blocked(rules, b),
    ensures
        reaches_in(rules, a, step_next(rules, b), n + 1),
    decreases n,
{
    if n == 0 {
        assert(reaches_in(rules, step_next(rules, b), step_next(rules, b), 0));
    } else {
        lemma_reaches_in_step(rules, step_next(rules, a), b, (n - 1) as nat);
        assert(reaches_in(rules, a, step_next(rules, b), n + 1)) by {
            assert(reaches_in(rules, step_next(rules, a), step_next(rules, b), ((n + 1) - 1) as nat));
        }
    }
}

/// A completed prefix followed by completing the remaining steps completes
/// the whole pipeline.
pub proof fn lemma_prefix_then_completes(
    steps: Seq<Seq<RuleModel>>,
    k: int,
    a: Seq<u8>,
    m: Seq<u8>,
    b: Seq<u8>,
)
    requires
        0 <= k <= steps.len(),
        completes_to_step(steps, k, a, m),
        pipeline_completes_from(steps, k, m, b),
    ensures
        pipeline_completes(steps, a, b),
    decreases k,
{
    if k > 0 {
        let m1 = choose|m1: Seq<u8>|
            completes_to_step(steps, k - 1, a, m1) && #[trigger] step_completes(steps[k - 1], m1, m);
        assert(pipeline_completes_from(steps, k - 1, m1, b));
        lemma_prefix_then_completes(steps, k - 1, a, m1, b);
    }
}

/// A completed prefix followed by any reachable content of the remaining
/// steps is reachable from the original input.
pub proof fn lemma_prefix_then_reaches(
    steps: Seq<Seq<RuleModel>>,
    k: int,
    a: Seq<u8>,
    m: Seq<u8>,
    b: Seq<u8>,
)
    requires
        0 <= k <= steps.len(),
        completes_to_step(steps, k, a, m),
        pipeline_reaches_from(steps, k, m, b),
    ensures
        pipeline_reaches(steps, a, b),
    decreases k,
{
    if k > 0 {
        let m1 = choose|m1: Seq<u8>|
            completes_to_step(steps, k - 1, a, m1) && #[trigger] step_completes(steps[k - 1], m1, m);
        assert(pipeline_reaches_from(steps, k - 1, m1, b));
        lemma_prefix_then_reaches(steps, k - 1, a, m1, b);
    }
}

/// Substitution chains starting from blocked content cannot move: only the
/// content itself is reached.
pub proof fn lemma_blocked_reaches_in(rules: Seq<RuleModel>, c: Seq<u8>, b: Seq<u8>, n: nat)
    requires
        step_blocked(rules, c),
        reaches_in(rules, c, b, n),
    ensures
        b == c,
{
}

/// The prefix of a pipeline leaves content unchanged when every step is
/// blocked on it.
proof fn lemma_blocked_completes_to_step(steps: Seq<Seq<RuleModel>>, k: int, c: Seq<u8>, b: Seq<u8>)
    requires
        0 <= k <= steps.len(),
        forall|i: int| 0 <= i < steps.len() ==> step_blocked(#[trigger] steps[i], c),
        completes_to_step(steps, k, c, b),
    ensures
        b == c,
    decreases k,
{
    if k > 0 {
        let m1 = choose|m1: Seq<u8>|
            completes_to_step(steps, k - 1, c, m1) && #[trigger] step_completes(steps[k - 1], m1, b);
        lemma_blocked_completes_to_step(steps, k - 1, c, m1);
        let n = choose|n: nat| #[trigger] reaches_in(steps[k - 1], m1, b, n);
        lemma_blocked_reaches_in(steps[k - 1], c, b, n);
    }
}

/// The remaining steps of a pipeline leave content unchanged when every step
/// is blocked on it.
proof fn lemma_blocked_completes_from(steps: Seq<Seq<RuleModel>>, k: int, c: Seq<u8>, b: Seq<u8>)
    requires
        forall|i: int| 0 <= i < steps.len() ==> step_blocked(#[trigger] steps[i], c),
        pipeline_completes_from(steps, k, c, b),
    ensures
        b == c,
    decreases steps.len() - k,
{
    if 0 <= k < steps.len() {
        let m = choose|m: Seq<u8>|
            #[trigger] step_completes(steps[k], c, m) && pipeline_completes_from(steps, k + 1, m, b);
        let n = choose|n: nat| #[trigger] reaches_in(steps[k], c, m, n);
        lemma_blocked_reaches_in(steps[k], c, m, n);
        lemma_blocked_completes_from(steps, k + 1, c, b);
    }
}

/// Nothing but the content itself is reachable from content on which every
/// step is blocked.
proof fn lemma_blocked_reaches_from(steps: Seq<Seq<RuleModel>>, k: int, c: Seq<u8>, b: Seq<u8>)
    requires
        forall|i: int| 0 <= i < steps.len() ==> step_blocked(#[trigger] steps[i], c),
        pipeline_reaches_from(steps, k, c, b),
    ensures
        b == c,
    decreases steps.len() - k,
{
    if 0 <= k < steps.len() {
        if step_reaches(steps[k], c, b) {
            let n = choose|n: nat| #[trigger] reaches_in(steps[k], c, b, n);
            lemma_blocked_reaches_in(steps[k], c, b, n);
        } else {
            let m = choose|m: Seq<u8>|
                #[trigger] step_completes(steps[k], c, m) && pipeline_reaches_from(
                    steps,
                    k + 1,
                    m,
                    b,
                );
            let n = choose|n: nat| #[trigger] reaches_in(steps[k], c, m, n);
            lemma_blocked_reaches_in(steps[k], c, m, n);
            lemma_blocked_reaches_from(steps, k + 1, c, b);
        }
    }
}

/// Blocked content is a fixpoint of every remaining step.
proof fn lemma_blocked_stays(steps: Seq<Seq<RuleModel>>, k: int, c: Seq<u8>)
    requires
        forall|i: int| 0 <= i < steps.len() ==> step_blocked(#[trigger] steps[i], c),
    ensures
        pipeline_completes_from(steps, k, c, c),
    decreases steps.len() - k,
{
    if 0 <= k < steps.len() {
        assert(reaches_in(steps[k], c, c, 0));
        assert(step_completes(steps[k], c, c));
        lemma_blocked_stays(steps, k + 1, c);
    }
}

/// Idempotent fixpoint law: on content that no rule of any step matches, a
/// run is a no-op. The pipeline completes on it, completes only to the
/// content itself, can reach nothing else mid-run, can never find evidence of
/// a cycle, and can never exceed the growth bound — so every outcome of a
/// re-run returns the content unchanged.
pub proof fn lemma_rerun_is_noop(steps: Seq<Seq<RuleModel>>, c: Seq<u8>)
    requires
        forall|i: int| 0 <= i < steps.len() ==> step_blocked(#[trigger] steps[i], c),
    ensures
        pipeline_completes(steps, c, c),
        forall|b: Seq<u8>| #[trigger] pipeline_completes(steps, c, b) ==> b == c,
        forall|b: Seq<u8>| #[trigger] pipeline_reaches(steps, c, b) ==> b == c,
        forall|b: Seq<u8>| !#[trigger] cycle_evidence(steps, c, b),
        !(c.len() > 4 * c.len() && c.len() > 1000),
{
    lemma_blocked_stays(steps, 0, c);
    assert forall|b: Seq<u8>| #[trigger] pipeline_completes(steps, c, b) implies b == c by {
        lemma_blocked_completes_from(steps, 0, c, b);
    }
    assert forall|b: Seq<u8>| #[trigger] pipeline_reaches(steps, c, b) implies b == c by {
        lemma_blocked_reaches_from(steps, 0, c, b);
    }
    assert forall|b: Seq<u8>| !#[trigger] cycle_evidence(steps, c, b) by {
        if cycle_evidence(steps, c, b) {
            let (k, s0, c1, n1, n2) = choose|k: int, s0: Seq<u8>, c1: Seq<u8>, n1: nat, n2: nat|
                0 <= k < steps.len() && #[trigger] completes_to_step(steps, k, c, s0)
                    && #[trigger] reaches_in(steps[k], s0, c1, n1)
                    && #[trigger] reaches_in(steps[k], s0, b, n2) && n1 < n2 && c1.len() == b.len()
                    && crc32_of(c1) == crc32_of(b);
            lemma_blocked_completes_to_step(steps, k, c, s0);
            assert(n2 > 0);
            assert(!step_blocked(steps[k], s0));
        }
    }
}

} // verus!
