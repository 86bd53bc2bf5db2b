use ferrox::glob::glob_matches;
use ferrox::hub::{
    authorization, content_range_total, endpoint, file_url, listing_url, open_file, pick_file, range_header,
    resolve_glob, sibling_names, token,
};

#[test]
fn a_content_range_yields_the_whole_file_size_not_the_slice() {
    assert_eq!(content_range_total(Some("bytes 100-999/1000")), Some(1000));
}

#[test]
fn an_unknown_content_range_total_is_not_invented() {
    assert_eq!(content_range_total(Some("bytes 0-99/*")), None);
    assert_eq!(content_range_total(None), None);
    assert_eq!(content_range_total(Some("garbage")), None);
}

#[test]
fn the_endpoint_has_no_trailing_slash_to_double_up() {
    // Default, and any override, must join cleanly with "/api/...".
    assert!(!endpoint(None).ends_with('/'));
    assert!(!endpoint(Some("https://mirror.example//")).ends_with('/'));
    assert_eq!(endpoint(Some("https://mirror.example//")), "https://mirror.example");
    assert_eq!(endpoint(None), "https://huggingface.co");
}

#[test]
fn the_first_token_set_decides_even_when_it_is_blank() {
    let some = |s: &str| Some(s.to_string());
    assert_eq!(token(some("a"), some("b")), some("a"));
    assert_eq!(token(None, some("b")), some("b"));
    assert_eq!(token(some("  "), some("b")), None);
    assert_eq!(token(None, None), None);
    assert_eq!(authorization("a"), "Bearer a");
}

#[test]
fn urls_and_ranges_are_spelled_out() {
    assert_eq!(listing_url("https://h", "org/repo"), "https://h/api/models/org/repo");
    assert_eq!(file_url("https://h", "org/repo", "m.gguf"), "https://h/org/repo/resolve/main/m.gguf");
    assert_eq!(range_header(0), None);
    assert_eq!(range_header(1024), Some("bytes=1024-".to_string()));
}

#[test]
fn only_a_partial_answer_to_a_range_is_a_resume() {
    let b = open_file(206, 100, Some("bytes 100-999/1000"), Some("900"));
    assert!(b.resumed);
    assert_eq!(b.total_bytes, Some(1000));
    let b = open_file(200, 100, Some("bytes 100-999/1000"), Some(" 1000 "));
    assert!(!b.resumed);
    assert_eq!(b.total_bytes, Some(1000));
    let b = open_file(206, 0, Some("bytes 0-9/10"), None);
    assert!(!b.resumed);
    assert_eq!(b.total_bytes, None);
}

#[test]
fn globs_match_any_run_between_their_stars() {
    assert!(glob_matches("*Q4_K*.gguf", "model-Q4_K_M.gguf"));
    assert!(glob_matches("*", ""));
    assert!(glob_matches("a*b*c", "axxbyyc"));
    assert!(!glob_matches("*Q4_K*.gguf", "model-Q5_K_M.gguf"));
    assert!(!glob_matches("model", "model.gguf"));
    assert!(glob_matches("model.gguf", "model.gguf"));
}

#[test]
fn the_first_sorted_match_in_the_root_is_picked() {
    let names: Vec<String> =
        ["z/a.gguf", "b.gguf", "a.gguf", "README.md"].iter().map(|s| s.to_string()).collect();
    assert_eq!(pick_file(&names, "r", "*.gguf"), Ok("a.gguf".to_string()));
    assert_eq!(pick_file(&names, "r", "*.bin"), Err("no file in r matches '*.bin'".to_string()));
    let mut turned = names.clone();
    turned.reverse();
    assert_eq!(pick_file(&turned, "r", "*.gguf"), Ok("a.gguf".to_string()));
}

#[test]
fn a_listing_is_read_for_its_file_names() {
    let body = r#"{"siblings":[{"rfilename":"b.gguf"},{"size":3},{"rfilename":7},{"rfilename":"a.gguf"}]}"#;
    let value: serde_json::Value = serde_json::from_str(body).unwrap();
    assert_eq!(sibling_names(&value), vec!["b.gguf".to_string(), "a.gguf".to_string()]);
    assert_eq!(resolve_glob(body, "r", "*.gguf"), Ok("a.gguf".to_string()));
    assert_eq!(resolve_glob("{}", "r", "*"), Err("no file in r matches '*'".to_string()));
    let e = resolve_glob("not json", "r", "*").unwrap_err();
    assert!(e.starts_with("the Hub's file list for r was not JSON: "));
    assert!(e.contains("line 1"));
}
