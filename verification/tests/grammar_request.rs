use ferrox::grammar_request::{compile_refusal, for_kind, for_request, ROOT};
use serde_json::Value;

fn json(text: &str) -> Value {
    serde_json::from_str(text).expect("a document")
}

#[test]
fn a_grammar_text_is_handed_on_to_be_read_from_root() {
    let g = for_request(Some(r#"root ::= "a"+"#), None)
        .expect("a valid grammar is not an error")
        .expect("a grammar was asked for");
    assert_eq!(g, r#"root ::= "a"+"#);
    assert_eq!(ROOT, "root");
}

#[test]
fn no_grammar_field_means_no_grammar() {
    assert!(for_request(None, None).unwrap().is_none());
    // Whitespace is not a grammar. Left as `None` rather than sent to the
    // parser, which would 400 on an empty string a client library sent by
    // defaulting the field.
    assert!(for_request(Some("   "), None).unwrap().is_none());
    assert_eq!(for_request(Some("  root ::= x\n"), None).unwrap(), Some("root ::= x"));
}

#[test]
fn a_parser_diagnostic_becomes_a_400_naming_the_field() {
    let e = compile_refusal("unterminated string at line 1");
    assert_eq!(e.status, 400);
    assert_eq!(e.param, Some("grammar"));
    assert_eq!((e.error_type, e.answer_type), (Some("invalid_request_error"), None));
    assert_eq!(e.message, "grammar: unterminated string at line 1");
}

#[test]
fn json_schema_is_refused_by_name_rather_than_ignored() {
    let fmt = json(r#"{"type": "json_schema", "json_schema": {"schema": {}}}"#);
    let e = for_request(None, Some(&fmt)).expect_err("not implemented yet");
    assert_eq!(e.status, 501);
    assert!(e.message.contains("JSON schema"), "{}", e.message);
    assert_eq!(e.param, Some("response_format"));
    assert_eq!((e.error_type, e.answer_type), (Some("invalid_request_error"), None));

    let e = for_request(Some(r#"root ::= "a""#), Some(&fmt))
        .expect_err("two constraints, one of which cannot be honoured");
    assert_eq!(e.status, 501);
}

#[test]
fn json_object_is_not_the_schema_arm() {
    let fmt = json(r#"{"type": "json_object"}"#);
    assert!(for_request(None, Some(&fmt)).unwrap().is_none());
}

#[test]
fn a_format_without_a_readable_type_constrains_nothing() {
    for text in [r#"{"type": 3}"#, r#"{"kind": "json_schema"}"#, r#"["json_schema"]"#, r#""json_schema""#] {
        assert_eq!(for_request(Some("root ::= x"), Some(&json(text))).unwrap(), Some("root ::= x"), "{text}");
    }
    assert!(for_kind(None, Some("json_schema")).is_err());
    assert_eq!(for_kind(Some(" g "), Some("text")).unwrap(), Some("g"));
}
