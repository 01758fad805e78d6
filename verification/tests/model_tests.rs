use replacer::{
    replace_text, CancelMotive, Model, MoveDirection, OutputStatus, RegexInfo, StartError, Step,
    StepProps, TextProject, TextProjectProps,
};

fn rule(pattern: &str, replacement: &str) -> RegexInfo {
    RegexInfo {
        title: String::new(),
        pattern: pattern.to_string(),
        replacement: replacement.to_string(),
    }
}

fn model_with(rules: Vec<RegexInfo>, input: &str) -> Model {
    let mut m = Model::new();
    m.steps[0].regexes = rules;
    let accepted = m.input_updated(0, input.to_string());
    assert!(accepted);
    m
}

#[test]
fn run_replacement_done_status() {
    let mut m = model_with(vec![rule("cat", "dog")], "a cat sat");
    assert_eq!(m.text_projects[0].output_status, OutputStatus::Outdated);
    m.run_replacement(0).unwrap();
    assert_eq!(m.text_projects[0].output, "a dog sat".to_string());
    assert_eq!(m.text_projects[0].output_status, OutputStatus::Done);
    assert!(!m.replacement_in_progress);
}

#[test]
fn run_replacement_high_growth_status() {
    let input = "x".repeat(1200);
    let mut m = model_with(vec![rule("x", "xx")], &input);
    m.run_replacement(0).unwrap();
    assert_eq!(
        m.text_projects[0].output_status,
        OutputStatus::Cancelled(CancelMotive::HighGrowth)
    );
    // the partial output is the first checkpoint content past the 4800 bound
    assert_eq!(m.text_projects[0].output, "x".repeat(9600));
    assert!(!m.replacement_in_progress);
}

#[test]
fn pipeline_of_disabled_steps_completes_as_done() {
    let mut m = model_with(vec![rule("a", "b"), rule("b", "a")], "aaa");
    m.steps[0].props.enabled = false;
    m.run_replacement(0).unwrap();
    assert_eq!(m.text_projects[0].output_status, OutputStatus::Done);
    assert_eq!(m.text_projects[0].output, "aaa".to_string());
}

#[test]
fn rules_can_be_added_deleted_and_moved() {
    let mut m = model_with(vec![rule("cat", "dog")], "a cat");
    // a fresh rule is inert
    m.add_regex(0);
    assert_eq!(m.steps[0].regexes.len(), 2);
    assert_eq!(m.steps[0].regexes[1].pattern, "".to_string());
    // an unconfirmed delete changes nothing
    m.delete_regex(0, 1, false);
    assert_eq!(m.steps[0].regexes.len(), 2);
    m.delete_regex(0, 1, true);
    assert_eq!(m.steps[0].regexes.len(), 1);
    // moving reorders priorities: with [aa->a, a->b] the input "aaaa" becomes
    // "b"; after swapping to [a->b, aa->a] it becomes "bbbb"
    m.steps[0].regexes = vec![rule("aa", "a"), rule("a", "b")];
    m.input_updated(0, "aaaa".to_string());
    m.run_replacement(0).unwrap();
    assert_eq!(m.text_projects[0].output, "b".to_string());
    assert!(m.move_regex(0, 1, MoveDirection::Up));
    assert_eq!(m.steps[0].regexes[0].pattern, "a".to_string());
    m.input_updated(0, "aaaa".to_string());
    m.run_replacement(0).unwrap();
    assert_eq!(m.text_projects[0].output, "bbbb".to_string());
    // edges stay put
    assert!(!m.move_regex(0, 0, MoveDirection::Up));
    assert!(!m.move_regex(0, 1, MoveDirection::Down));
    assert!(m.move_regex(0, 0, MoveDirection::Down));
    assert_eq!(m.steps[0].regexes[0].pattern, "aa".to_string());
}

#[test]
fn unicode_content_survives_the_round_trip() {
    let mut m = model_with(vec![rule("cat", "dog")], "caf\u{e9} cat na\u{ef}f");
    m.run_replacement(0).unwrap();
    assert_eq!(m.text_projects[0].output, "caf\u{e9} dog na\u{ef}f".to_string());
}

#[test]
fn second_start_rejected_while_in_progress() {
    let mut m = model_with(vec![rule("cat", "dog")], "a cat");
    let (_cp, _input) = m.start_run(0).unwrap();
    assert!(m.replacement_in_progress);
    assert_eq!(m.text_projects[0].output_status, OutputStatus::InProgress);
    assert!(matches!(m.start_run(0), Err(StartError::AlreadyInProgress)));
    // input is immutable mid-run
    assert!(!m.input_updated(0, "changed".to_string()));
    assert_eq!(m.text_projects[0].input, "a cat".to_string());
    // terminate the run
    assert!(m.finish_run(0, b"a dog".to_vec()));
    assert_eq!(m.text_projects[0].output_status, OutputStatus::Done);
    assert_eq!(m.text_projects[0].output, "a dog".to_string());
    // a second finish is an invalid request: rejected, no state change
    assert!(!m.finish_run(0, b"zzz".to_vec()));
    assert_eq!(m.text_projects[0].output, "a dog".to_string());
}

#[test]
fn cancel_request_only_while_in_progress() {
    let mut m = model_with(vec![rule("a", "b"), rule("b", "a")], "a");
    assert!(!m.request_cancel());
    let (cp, input) = m.start_run(0).unwrap();
    assert!(m.request_cancel());
    // the engine observes the flag at its next iteration boundary
    let (motive, partial) = replace_text(input, &cp, &m.replacement_cancel_signal).unwrap_err();
    assert_eq!(motive, CancelMotive::ManuallyCancelled);
    assert!(m.run_cancelled(0, motive, partial));
    assert_eq!(
        m.text_projects[0].output_status,
        OutputStatus::Cancelled(CancelMotive::ManuallyCancelled)
    );
    assert_eq!(m.text_projects[0].output, "a".to_string());
    // the flag was reset at run end and does not leak into the next run
    m.steps[0].regexes = vec![rule("a", "b")];
    m.run_replacement(0).unwrap();
    assert_eq!(m.text_projects[0].output_status, OutputStatus::Done);
    assert_eq!(m.text_projects[0].output, "b".to_string());
}

#[test]
fn compile_error_aborts_run_start_without_state_change() {
    let mut m = model_with(vec![rule("(", "x")], "content");
    let before_status = m.text_projects[0].output_status;
    match m.run_replacement(0) {
        Err(StartError::Pattern(e)) => {
            assert_eq!(e.pattern, "(".to_string());
            assert_eq!(e.step_index, 0);
            assert_eq!(e.rule_index, 0);
        }
        other => panic!("expected a pattern error, got {:?}", other),
    }
    assert!(!m.replacement_in_progress);
    assert_eq!(m.text_projects[0].output_status, before_status);
    assert_eq!(m.text_projects[0].output, "".to_string());
    // after the pattern is fixed, the same project runs fine
    m.steps[0].regexes = vec![rule("content", "done")];
    m.run_replacement(0).unwrap();
    assert_eq!(m.text_projects[0].output, "done".to_string());
}

#[test]
fn output_pane_is_read_only() {
    let mut m = model_with(vec![rule("cat", "dog")], "a cat");
    m.run_replacement(0).unwrap();
    assert!(!m.output_updated(0, "tampered".to_string()));
    assert_eq!(m.text_projects[0].output, "a dog".to_string());
}

#[test]
fn editing_input_outdates_the_output() {
    let mut m = model_with(vec![rule("cat", "dog")], "a cat");
    m.run_replacement(0).unwrap();
    assert_eq!(m.text_projects[0].output_status, OutputStatus::Done);
    assert!(m.input_updated(0, "new text".to_string()));
    assert_eq!(m.text_projects[0].output_status, OutputStatus::Outdated);
    // the stale output is kept for display until the next run
    assert_eq!(m.text_projects[0].output, "a dog".to_string());
}

#[test]
fn add_project_and_step() {
    let mut m = Model::new();
    assert_eq!(m.text_projects.len(), 1);
    assert_eq!(m.steps.len(), 1);
    m.add_text_project();
    m.add_step();
    assert_eq!(m.text_projects.len(), 2);
    assert_eq!(m.steps.len(), 2);
    assert_eq!(m.text_projects[1].output_status, OutputStatus::Done);
    assert!(m.steps[1].props.enabled);
    assert!(m.steps[1].regexes.is_empty());
}

#[test]
fn fresh_values_have_documented_defaults() {
    assert_eq!(OutputStatus::default(), OutputStatus::Done);
    let props = TextProjectProps::default();
    assert_eq!(props.title, "".to_string());
    assert!(props.commentary.is_none());
    let project = TextProject::default();
    assert_eq!(project.output_status, OutputStatus::Done);
    assert_eq!(project.input, "".to_string());
    assert_eq!(project.output, "".to_string());
    let sp = StepProps::default();
    assert!(sp.enabled);
    assert!(!sp.selected);
    assert!(sp.restart_on_match);
    let step = Step::default();
    assert!(step.regexes.is_empty());
    let r = RegexInfo::default();
    assert_eq!(r.pattern, "".to_string());
}

#[test]
fn pattern_edits_are_validated_eagerly() {
    let mut m = model_with(vec![rule("cat", "dog")], "a cat");
    // an invalid pattern is reported at edit time, before any run
    assert!(!m.update_regex_search(0, 0, "(".to_string()));
    assert_eq!(m.steps[0].regexes[0].pattern, "(".to_string());
    // an empty pattern is inert, not an error
    assert!(m.update_regex_search(0, 0, "".to_string()));
    // a valid pattern is accepted and used by the next run
    assert!(m.update_regex_search(0, 0, "cat".to_string()));
    m.run_replacement(0).unwrap();
    assert_eq!(m.text_projects[0].output, "a dog".to_string());
}

#[test]
fn pattern_compiles_matches_compilation() {
    assert!(replacer::pattern_compiles("a(b|c)*"));
    assert!(!replacer::pattern_compiles("("));
}
