use ferrox::anthropic::{
    blocks_to_text, check_request, content_to_text, generation_params, stop_reason, stop_strings, system_to_text,
    to_chat_messages, AnthropicMessage, ContentBlockIn, ContentIn, MessagesRequest, SystemIn,
};
use ferrox::chat_template::ChatTemplate;
use ferrox::generate::FinishReason;

fn block(kind: &str, text: Option<&str>) -> ContentBlockIn {
    ContentBlockIn { kind: kind.to_string(), text: text.map(str::to_string) }
}

fn request(messages: Vec<AnthropicMessage>) -> MessagesRequest {
    MessagesRequest {
        model: "m".to_string(),
        messages,
        max_tokens: 8,
        system: None,
        temperature_bits: None,
        top_p_bits: None,
        top_k: None,
        stop_sequences: None,
        stream: None,
    }
}

fn turn(role: &str, text: &str) -> AnthropicMessage {
    AnthropicMessage { role: role.to_string(), content: ContentIn::Text(text.to_string()) }
}

#[test]
fn content_string_and_blocks() {
    let t = content_to_text(&ContentIn::Text("hi".into())).unwrap();
    assert_eq!(t, "hi");
    let blocks = content_to_text(&ContentIn::Blocks(vec![ContentBlockIn {
        kind: "text".into(),
        text: Some("a".into()),
    }]))
    .unwrap();
    assert_eq!(blocks, "a");
}

#[test]
fn blocks_join_and_a_block_without_text_adds_nothing() {
    let t = blocks_to_text(&[block("text", Some("a")), block("text", None), block("text", Some("b"))]).unwrap();
    assert_eq!(t, "ab");
}

#[test]
fn a_block_that_is_not_text_is_refused() {
    let e = blocks_to_text(&[block("text", Some("a")), block("image", None)]).unwrap_err();
    assert_eq!(e.status, 501);
    assert_eq!(e.message, "Anthropic Messages: only text content blocks are supported");
    assert!(system_to_text(&SystemIn::Blocks(vec![block("tool_use", None)])).is_err());
    assert_eq!(system_to_text(&SystemIn::Text("s".to_string())).unwrap(), "s");
}

#[test]
fn a_system_prompt_leads_the_conversation() {
    let mut req = request(vec![turn("user", "hi"), turn("assistant", "hello")]);
    req.system = Some(SystemIn::Text("be brief".to_string()));
    let out = to_chat_messages(&req).unwrap();
    assert_eq!(out.len(), 3);
    assert_eq!(out[0].role, "system");
    assert_eq!(out[0].rendered_content(), "be brief");
    assert_eq!(out[1].role, "user");
    assert_eq!(out[2].rendered_content(), "hello");
}

#[test]
fn an_unknown_role_is_refused_by_name() {
    let e = to_chat_messages(&request(vec![turn("user", "hi"), turn("tool", "x")])).unwrap_err();
    assert_eq!(e.status, 400);
    assert_eq!(e.message, "unsupported message role 'tool' (user/assistant only)");
    assert_eq!((e.error_type, e.answer_type), (Some("invalid_request_error"), Some("error")));
    assert_eq!(e.param, None);
}

#[test]
fn streams_and_empty_budgets_are_refused() {
    let mut req = request(vec![]);
    assert!(check_request(&req).is_ok());
    req.max_tokens = 0;
    assert_eq!(check_request(&req).unwrap_err().message, "max_tokens must be > 0");
    let e = check_request(&req).unwrap_err();
    assert_eq!((e.error_type, e.answer_type), (Some("invalid_request_error"), Some("error")));
    req.stream = Some(true);
    let e = check_request(&req).unwrap_err();
    assert_eq!((e.status, e.error_type, e.answer_type), (501, None, None));
    req.stream = Some(false);
    assert_eq!(check_request(&req).unwrap_err().status, 400);
}

#[test]
fn stop_reasons_have_their_anthropic_names() {
    assert_eq!(stop_reason(FinishReason::Stop), "end_turn");
    assert_eq!(stop_reason(FinishReason::Length), "max_tokens");
}

#[test]
fn a_gemma_turn_always_ends_at_its_marker() {
    assert_eq!(stop_strings(None, ChatTemplate::Gemma), vec!["<end_of_turn>".to_string()]);
    let named = Some(vec!["<end_of_turn>".to_string()]);
    assert_eq!(stop_strings(named, ChatTemplate::Gemma).len(), 1);
    assert!(stop_strings(None, ChatTemplate::ChatMl).is_empty());
}

#[test]
fn a_request_without_settings_is_greedy() {
    let p = generation_params(request(vec![]), ChatTemplate::Plain);
    assert_eq!(p.max_tokens, 8);
    assert_eq!(f32::from_bits(p.sampling.temperature_bits), 0.0);
    assert_eq!(f32::from_bits(p.sampling.top_p_bits), 1.0);
    assert_eq!(p.sampling.top_k, 0);
    assert_eq!(f32::from_bits(p.sampling.repetition_penalty_bits), 1.0);
    assert_eq!(p.seed, 0);
    let mut req = request(vec![]);
    req.temperature_bits = Some(0.5f32.to_bits());
    req.top_k = Some(40);
    let p = generation_params(req, ChatTemplate::Plain);
    assert_eq!(f32::from_bits(p.sampling.temperature_bits), 0.5);
    assert_eq!(p.sampling.top_k, 40);
}
