use quick_stack::{Rule, RuleField, Rulefile, RulefileError};

fn rule(m: &str, i: &str, o: &str) -> Rule {
    Rule::new(m.to_string(), i.to_string(), o.to_string()).expect("valid pattern")
}

fn fields(f: &Rulefile) -> Vec<(String, String, String)> {
    (0..f.len())
        .map(|i| {
            let r = f.get(i);
            (r.matching().to_string(), r.input().to_string(), r.output().to_string())
        })
        .collect()
}

fn owned(v: &[(&str, &str, &str)]) -> Vec<(String, String, String)> {
    v.iter()
        .map(|(a, b, c)| (a.to_string(), b.to_string(), c.to_string()))
        .collect()
}

#[test]
fn round_trip_keeps_rules_and_order() {
    let mut f = Rulefile::new();
    f.push(rule("foo.*\\.txt", "/home/a/in", "/home/a/out"));
    f.push(rule("", "/x", "/y"));
    f.push(rule("report", "in dir", "out\r"));
    let text = f.to_text();
    let back = Rulefile::parse(&text).expect("parses");
    assert_eq!(fields(&back), fields(&f));
}

#[test]
fn serialized_format_is_exact() {
    let mut f = Rulefile::new();
    f.push(rule("a", "b", "c"));
    f.push(rule("d", "e", "f"));
    assert_eq!(f.to_text(), "a\nb\nc\n\nd\ne\nf");
}

#[test]
fn save_twice_gives_identical_text() {
    let mut f = Rulefile::new();
    f.push(rule("x+", "/in", "/out"));
    let first = f.to_text();
    let second = f.to_text();
    assert_eq!(first.as_bytes(), second.as_bytes());
}

#[test]
fn empty_text_parses_to_no_rules() {
    let f = Rulefile::parse("").expect("parses");
    assert!(f.is_empty());
    let g = Rulefile::load(Vec::new()).expect("loads");
    assert_eq!(g.len(), 0);
}

#[test]
fn no_rules_serialize_to_empty_text() {
    assert_eq!(Rulefile::new().to_text(), "");
}

#[test]
fn two_line_chunk_reports_missing_output() {
    let r = Rulefile::parse("a\nb\nc\n\nd\ne");
    assert_eq!(r.unwrap_err(), RulefileError::Parse(RuleField::Output, 1));
    let r = Rulefile::parse("a\nb");
    assert_eq!(r.unwrap_err(), RulefileError::Parse(RuleField::Output, 0));
}

#[test]
fn one_line_chunk_reports_missing_input() {
    let r = Rulefile::parse("a");
    assert_eq!(r.unwrap_err(), RulefileError::Parse(RuleField::Input, 0));
}

#[test]
fn trailing_blank_line_reports_missing_pattern() {
    let r = Rulefile::parse("a\nb\nc\n\n");
    assert_eq!(r.unwrap_err(), RulefileError::Parse(RuleField::Matching, 1));
}

#[test]
fn first_bad_chunk_is_reported() {
    let r = Rulefile::parse("a\n\nb\nc");
    assert_eq!(r.unwrap_err(), RulefileError::Parse(RuleField::Input, 0));
}

#[test]
fn crlf_line_endings_are_dropped() {
    let f = Rulefile::parse("a\r\nb\r\nc").expect("parses");
    assert_eq!(fields(&f), owned(&[("a", "b", "c")]));
}

#[test]
fn extra_lines_in_a_chunk_are_ignored() {
    let f = Rulefile::parse("a\nb\nc\nd\n").expect("parses");
    assert_eq!(fields(&f), owned(&[("a", "b", "c")]));
}

#[test]
fn stored_patterns_are_not_checked_on_load() {
    let f = Rulefile::parse("(\nin\nout").expect("parses");
    assert_eq!(fields(&f), owned(&[("(", "in", "out")]));
}

#[test]
fn invalid_utf8_is_an_encoding_error() {
    let r = Rulefile::load(vec![b'a', 0xff, b'\n']);
    assert_eq!(r.unwrap_err(), RulefileError::UTF8Parse);
}

#[test]
fn load_decodes_multibyte_text() {
    let f = Rulefile::load("é+\n/ä\n/ö".as_bytes().to_vec()).expect("loads");
    assert_eq!(fields(&f), owned(&[("é+", "/ä", "/ö")]));
}

#[test]
fn add_then_load_yields_the_rule() {
    let mut f = Rulefile::load(Vec::new()).expect("loads");
    let n = f.add("foo.*\\.txt".to_string(), "dirA".to_string(), "dirB".to_string());
    assert_eq!(n, Some(1));
    let bytes = f.to_text().into_bytes();
    let back = Rulefile::load(bytes).expect("loads");
    assert_eq!(fields(&back), owned(&[("foo.*\\.txt", "dirA", "dirB")]));
}

#[test]
fn add_returns_the_new_position() {
    let mut f = Rulefile::new();
    f.push(rule("a", "b", "c"));
    assert_eq!(f.add("x".to_string(), "y".to_string(), "z".to_string()), Some(2));
    assert_eq!(f.len(), 2);
}

#[test]
fn rm_second_of_three() {
    let mut f = Rulefile::new();
    f.push(rule("one", "i1", "o1"));
    f.push(rule("two", "i2", "o2"));
    f.push(rule("three", "i3", "o3"));
    let removed = f.remove(&vec![2]);
    assert_eq!(removed, vec![2]);
    assert_eq!(fields(&f), owned(&[("one", "i1", "o1"), ("three", "i3", "o3")]));
}

#[test]
fn rm_ignores_positions_out_of_range_and_repeats() {
    let mut f = Rulefile::new();
    f.push(rule("one", "i1", "o1"));
    f.push(rule("two", "i2", "o2"));
    let removed = f.remove(&vec![0, 5, 1, 1]);
    assert_eq!(removed, vec![1]);
    assert_eq!(fields(&f), owned(&[("two", "i2", "o2")]));
}

#[test]
fn clear_then_load_yields_no_rules() {
    let mut f = Rulefile::new();
    f.push(rule("one", "i1", "o1"));
    f.push(rule("two", "i2", "o2"));
    f.clear();
    let back = Rulefile::load(f.to_text().into_bytes()).expect("loads");
    assert_eq!(back.len(), 0);
}

#[test]
fn invalid_pattern_is_rejected() {
    assert!(Rule::new("(".to_string(), "a".to_string(), "b".to_string()).is_none());
    let mut f = Rulefile::new();
    f.push(rule("ok", "a", "b"));
    assert_eq!(f.add("[".to_string(), "c".to_string(), "d".to_string()), None);
    assert_eq!(f.to_text(), "ok\na\nb");
}

#[test]
fn valid_pattern_is_accepted() {
    assert!(quick_stack::regex_builds("a|b"));
    assert!(!quick_stack::regex_builds("a)"));
    let r = rule("foo.*\\.txt", "dirA", "dirB");
    assert_eq!(r.matching(), "foo.*\\.txt");
    assert_eq!(r.input(), "dirA");
    assert_eq!(r.output(), "dirB");
}

#[test]
fn rule_text_is_three_lines() {
    let r = rule("a.b", "/in", "/out");
    assert_eq!(r.to_text(), "a.b\n/in\n/out");
}

#[test]
fn default_store_is_empty() {
    let f = Rulefile::default();
    assert_eq!(f.len(), 0);
    assert_eq!(f.to_text(), "");
}
