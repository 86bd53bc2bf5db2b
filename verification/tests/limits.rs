use ferrox::api::{bad_request, invalid_request, unsupported_feature, BAD_REQUEST, NOT_IMPLEMENTED};
use ferrox::limits::AuthConfig;

#[test]
fn only_the_exact_bearer_token_is_let_in() {
    let auth = AuthConfig { api_key: "k3y".to_string() };
    assert!(auth.accepts(Some("Bearer k3y")));
    assert!(!auth.accepts(Some("Bearer k3y ")));
    assert!(!auth.accepts(Some("bearer k3y")));
    assert!(!auth.accepts(Some("k3y")));
    assert!(!auth.accepts(Some("")));
    assert!(!auth.accepts(None));
}

#[test]
fn refusals_say_what_they_are_about() {
    let e = unsupported_feature("no tools here");
    assert_eq!((e.status, e.message.as_str(), e.param), (NOT_IMPLEMENTED, "no tools here", None));
    assert_eq!((e.error_type, e.answer_type), (None, None));
    let e = invalid_request("must be at least 1", "n");
    assert_eq!((e.status, e.message.as_str(), e.param), (BAD_REQUEST, "must be at least 1", Some("n")));
    assert_eq!((e.error_type, e.answer_type), (None, None));
    let e = bad_request("empty".to_string());
    assert_eq!((e.status, e.message.as_str(), e.param), (BAD_REQUEST, "empty", None));
    assert_eq!((e.error_type, e.answer_type), (None, None));
}
