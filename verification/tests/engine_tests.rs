use replacer::{
    compile_pipeline, growth_exceeded, replace_text, CancelFlag, CancelMotive, CycleDetector,
    RegexInfo, Step,
};

fn rule(pattern: &str, replacement: &str) -> RegexInfo {
    RegexInfo {
        title: String::new(),
        pattern: pattern.to_string(),
        replacement: replacement.to_string(),
    }
}

fn step_of(rules: Vec<RegexInfo>) -> Step {
    let mut s = Step::default();
    s.regexes = rules;
    s
}

fn run(steps: &Vec<Step>, input: &[u8]) -> Result<Vec<u8>, (CancelMotive, Vec<u8>)> {
    let cp = compile_pipeline(steps).unwrap();
    replace_text(input.to_vec(), &cp, &CancelFlag::new())
}

#[test]
fn concrete_cat_dog() {
    let steps = vec![step_of(vec![rule("cat", "dog")])];
    let out = run(&steps, b"a cat sat").unwrap();
    assert_eq!(out, b"a dog sat".to_vec());
}

#[test]
fn replacement_template_capture_groups() {
    let steps = vec![step_of(vec![rule("(c)(a)t", "$2$1")])];
    let out = run(&steps, b"cat").unwrap();
    assert_eq!(out, b"ac".to_vec());
}

#[test]
fn growth_guard_trips_past_quadruple_of_long_input() {
    let steps = vec![step_of(vec![rule("x", "xx")])];
    let input = "x".repeat(1200);
    let (motive, partial) = run(&steps, input.as_bytes()).unwrap_err();
    assert_eq!(motive, CancelMotive::HighGrowth);
    // lengths double each pass: 1200, 2400, 4800, 9600; 9600 first exceeds 4800
    assert_eq!(partial.len(), 9600);
    assert!(partial.len() > 4 * 1200 && partial.len() > 1000);
}

#[test]
fn growth_guard_trips_once_content_exceeds_8000() {
    let steps = vec![step_of(vec![rule("a", "aa")])];
    let input = "a".repeat(2000);
    let (motive, partial) = run(&steps, input.as_bytes()).unwrap_err();
    assert_eq!(motive, CancelMotive::HighGrowth);
    // lengths go 2000, 4000, 8000, 16000: the abort fires at the first
    // checkpoint past 8000 and returns exactly that content
    assert_eq!(partial, "a".repeat(16000).into_bytes());
}

#[test]
fn growth_guard_spares_small_input() {
    // 10 bytes grow to 50: above 4x but below the 1000-byte floor, so no abort
    let steps = vec![step_of(vec![rule("x", "yyyyy")])];
    let input = "x".repeat(10);
    let out = run(&steps, input.as_bytes()).unwrap();
    assert_eq!(out, "y".repeat(50).into_bytes());
}

#[test]
fn growth_exceeded_exact_boundaries() {
    assert!(growth_exceeded(1001, 0));
    assert!(!growth_exceeded(1000, 0));
    assert!(growth_exceeded(4001, 1000));
    assert!(!growth_exceeded(4000, 1000));
    // relative growth alone never trips the guard on small inputs
    assert!(!growth_exceeded(20, 3));
    assert!(!growth_exceeded(0, 0));
}

#[test]
fn cycle_detected_on_two_rule_oscillation() {
    let steps = vec![step_of(vec![rule("a", "b"), rule("b", "a")])];
    let (motive, partial) = run(&steps, b"a").unwrap_err();
    assert_eq!(motive, CancelMotive::CycleDetected);
    // contents per iteration: a, b, a, b — the second b repeats a recorded
    // checksum, so detection comes two sightings after the first length repeat
    assert_eq!(partial, b"b".to_vec());
}

#[test]
fn priority_rule_applied_to_exhaustion_first() {
    // the first rule must fire as long as it matches; only then the second
    let steps = vec![step_of(vec![rule("aa", "a"), rule("a", "b")])];
    let out = run(&steps, b"aaaa").unwrap();
    assert_eq!(out, b"b".to_vec());
}

#[test]
fn priority_rule_rechecked_after_lower_rule_fires() {
    // "acb": only the second rule matches and yields "aab"; the first rule
    // must then get first refusal again and reduce it to "a"
    let steps = vec![step_of(vec![rule("ab", ""), rule("cb", "ab")])];
    let out = run(&steps, b"acb").unwrap();
    assert_eq!(out, b"a".to_vec());
}

#[test]
fn empty_pattern_rule_is_inert() {
    let steps = vec![step_of(vec![rule("", "ZZZ"), rule("cat", "dog")])];
    let out = run(&steps, b"a cat").unwrap();
    assert_eq!(out, b"a dog".to_vec());
}

#[test]
fn step_of_only_inert_rules_changes_nothing() {
    let steps = vec![step_of(vec![rule("", "boom")])];
    let out = run(&steps, b"anything at all").unwrap();
    assert_eq!(out, b"anything at all".to_vec());
}

#[test]
fn invalid_pattern_reported_at_compile() {
    let steps = vec![
        step_of(vec![rule("fine", "ok")]),
        step_of(vec![rule("", "inert"), rule("(", "x")]),
    ];
    let e = match compile_pipeline(&steps) {
        Err(e) => e,
        Ok(_) => panic!("the invalid pattern must fail compilation"),
    };
    assert_eq!(e.step_index, 1);
    assert_eq!(e.rule_index, 1);
    assert_eq!(e.pattern, "(".to_string());
}

#[test]
fn disabled_step_is_skipped_even_with_bad_pattern() {
    let mut bad = step_of(vec![rule("(", "x"), rule("a", "b")]);
    bad.props.enabled = false;
    let steps = vec![bad, step_of(vec![rule("cat", "dog")])];
    let out = run(&steps, b"a cat").unwrap();
    assert_eq!(out, b"a dog".to_vec());
}

#[test]
fn steps_run_in_pipeline_order() {
    let steps = vec![
        step_of(vec![rule("cat", "dog")]),
        step_of(vec![rule("dog", "bird")]),
    ];
    let out = run(&steps, b"a cat").unwrap();
    assert_eq!(out, b"a bird".to_vec());
}

#[test]
fn preset_cancellation_returns_input_unchanged() {
    // rules that would otherwise oscillate forever; the flag is observed at
    // the first iteration boundary, before any substitution
    let steps = vec![step_of(vec![rule("a", "b"), rule("b", "a")])];
    let cp = compile_pipeline(&steps).unwrap();
    let flag = CancelFlag::new();
    flag.store(true);
    let (motive, partial) = replace_text(b"a".to_vec(), &cp, &flag).unwrap_err();
    assert_eq!(motive, CancelMotive::ManuallyCancelled);
    assert_eq!(partial, b"a".to_vec());
}

#[test]
fn rerun_on_own_output_is_noop() {
    let steps = vec![step_of(vec![rule("cat", "dog")]), step_of(vec![rule("sat", "lay")])];
    let first = run(&steps, b"a cat sat").unwrap();
    assert_eq!(first, b"a dog lay".to_vec());
    let second = run(&steps, &first).unwrap();
    assert_eq!(second, first);
}

#[test]
fn empty_pipeline_returns_input() {
    let steps: Vec<Step> = Vec::new();
    let out = run(&steps, b"untouched").unwrap();
    assert_eq!(out, b"untouched".to_vec());
}

#[test]
fn detector_flags_third_sighting_of_identical_content() {
    let mut d = CycleDetector::new();
    let c = b"ab".to_vec();
    assert!(!d.check(&c));
    assert!(!d.check(&c));
    assert!(d.check(&c));
}

#[test]
fn detector_distinguishes_same_length_contents() {
    let mut d = CycleDetector::new();
    let ab = b"ab".to_vec();
    let ba = b"ba".to_vec();
    assert!(!d.check(&ab));
    assert!(!d.check(&ba));
    assert!(!d.check(&ab));
    assert!(d.check(&ba));
}

#[test]
fn empty_input_stays_empty() {
    let steps = vec![step_of(vec![rule("cat", "dog")])];
    let out = run(&steps, b"").unwrap();
    assert_eq!(out, Vec::<u8>::new());
}

#[test]
fn rule_matching_is_byte_exact() {
    // the pattern must not match other text of the same length
    let steps = vec![step_of(vec![rule("cat", "dog")])];
    let out = run(&steps, b"cut cot cat").unwrap();
    assert_eq!(out, b"cut cot dog".to_vec());
}
