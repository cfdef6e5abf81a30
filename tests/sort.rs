use quick_stack::{
    after_failed_move, plan_moves, CompiledPattern, MoveAction, MoveFailure, Rule, Rulefile,
    SortError,
};

fn names(v: &[&str]) -> Vec<Option<String>> {
    v.iter().map(|s| Some(s.to_string())).collect()
}

#[test]
fn sort_selects_matching_names() {
    let r = Rule::new("report".to_string(), "in".to_string(), "out".to_string()).unwrap();
    let plan = plan_moves(&r, &names(&["report.txt", "notes.md", "report.csv"])).unwrap();
    assert_eq!(plan.moves, vec!["report.txt".to_string(), "report.csv".to_string()]);
    assert_eq!(plan.undecodable, 0);
}

#[test]
fn sort_creates_missing_output_then_retries_once() {
    assert_eq!(after_failed_move(MoveFailure::OutputMissing, false), MoveAction::CreateOutputAndRetry);
    assert_eq!(after_failed_move(MoveFailure::OutputMissing, true), MoveAction::ReportFailure);
}

#[test]
fn sort_output_file_in_the_way_is_a_conflict() {
    assert_eq!(after_failed_move(MoveFailure::OutputNotDirectory, false), MoveAction::ReportConflict);
}

#[test]
fn other_move_failures_are_reported() {
    assert_eq!(after_failed_move(MoveFailure::Other, false), MoveAction::ReportFailure);
    assert_eq!(after_failed_move(MoveFailure::OutputNotDirectory, true), MoveAction::ReportFailure);
}

#[test]
fn matching_is_unanchored_but_honours_anchors() {
    let r = Rule::new("^rep".to_string(), "in".to_string(), "out".to_string()).unwrap();
    let plan = plan_moves(&r, &names(&["report", "xreport", "rep"])).unwrap();
    assert_eq!(plan.moves, vec!["report".to_string(), "rep".to_string()]);
    let r = Rule::new("port".to_string(), "in".to_string(), "out".to_string()).unwrap();
    let plan = plan_moves(&r, &names(&["report", "xreport", "rep"])).unwrap();
    assert_eq!(plan.moves, vec!["report".to_string(), "xreport".to_string()]);
}

#[test]
fn undecodable_names_are_counted_and_skipped() {
    let r = Rule::new(".*".to_string(), "in".to_string(), "out".to_string()).unwrap();
    let entries = vec![Some("a".to_string()), None, Some("b".to_string()), None];
    let plan = plan_moves(&r, &entries).unwrap();
    assert_eq!(plan.moves, vec!["a".to_string(), "b".to_string()]);
    assert_eq!(plan.undecodable, 2);
}

#[test]
fn corrupt_stored_pattern_stops_the_pass() {
    let f = Rulefile::parse("(unclosed\nin\nout").unwrap();
    let r = plan_moves(f.get(0), &names(&["x"]));
    assert_eq!(r.err(), Some(SortError::Pattern("(unclosed".to_string())));
}

#[test]
fn empty_directory_plans_nothing() {
    let r = Rule::new("x".to_string(), "in".to_string(), "out".to_string()).unwrap();
    let plan = plan_moves(&r, &Vec::new()).unwrap();
    assert!(plan.moves.is_empty());
}

#[test]
fn compiled_pattern_keeps_its_source() {
    let p = CompiledPattern::compile("a.c").unwrap();
    assert_eq!(p.source(), "a.c");
    assert!(CompiledPattern::compile("*").is_none());
}
