use ferrox::stop::{earliest_stop_match, StopMatcher, StopStep};

fn strings(v: &[&str]) -> Vec<String> {
    v.iter().map(|s| s.to_string()).collect()
}

fn emitted(step: StopStep) -> String {
    match step {
        StopStep::Emit(t) => t,
        StopStep::Matched(t) => panic!("matched after {t}"),
    }
}

#[test]
fn earliest_stop_match_finds_the_leftmost_match_across_multiple_stops() {
    assert_eq!(
        earliest_stop_match("hello world", &["world".to_string(), "hello".to_string()]),
        Some(0)
    );
    assert_eq!(
        earliest_stop_match("hello world", &["nope".to_string()]),
        None
    );
}

#[test]
fn an_empty_stop_string_never_matches() {
    assert_eq!(earliest_stop_match("abc", &strings(&[""])), None);
}

#[test]
fn a_stop_split_over_pieces_is_found_and_never_shown() {
    let mut m = StopMatcher::new(strings(&["END"]), vec![]);
    assert_eq!(emitted(m.push("abE")), "a");
    assert_eq!(emitted(m.push("N")), "b");
    match m.push("Dtail") {
        StopStep::Matched(t) => assert_eq!(t, ""),
        StopStep::Emit(t) => panic!("emitted {t}"),
    }
    assert_eq!(m.flush(), "");
}

#[test]
fn held_back_text_comes_out_at_the_end() {
    let mut m = StopMatcher::new(strings(&["<end_of_turn>"]), vec![]);
    let mut all = String::new();
    all.push_str(&emitted(m.push("so far <end")));
    all.push_str(&m.flush());
    assert_eq!(all, "so far <end");
}

#[test]
fn a_cut_never_splits_a_character() {
    let mut m = StopMatcher::new(strings(&["xyz"]), vec![]);
    let out = emitted(m.push("a\u{e9}b"));
    assert_eq!(out, "a");
    assert_eq!(m.flush(), "\u{e9}b");
}

#[test]
fn stop_tokens_are_told_by_their_id() {
    let m = StopMatcher::new(vec![], vec![3, 7]);
    assert!(m.is_stop_token(7));
    assert!(!m.is_stop_token(8));
}
