use ferrox::chat::{ChatMessage, MessageContent};
use ferrox::chat_template::ChatTemplate;

fn msg(role: &str, content: &str) -> ChatMessage {
    ChatMessage {
        role: role.to_string(),
        content: Some(MessageContent::Text(content.to_string())),
        tool_calls: None,
        tool_call_id: None,
    }
}

#[test]
fn detects_chatml_from_a_real_template_string() {
    let template =
        "{% for m in messages %}<|im_start|>{{m.role}}\n{{m.content}}<|im_end|>\n{% endfor %}";
    assert_eq!(ChatTemplate::detect(Some(template)), ChatTemplate::ChatMl);
}

#[test]
fn detects_generic_role_markers_from_a_real_tinyllama_style_template() {
    let template =
        "{% for m in messages %}<|{{m.role}}|>\n{{m.content}}\n{% endfor %}<|assistant|>\n";
    assert_eq!(
        ChatTemplate::detect(Some(template)),
        ChatTemplate::GenericRoleMarkers
    );
}

#[test]
fn detects_llama3_from_the_real_template_string() {
    // Fetched directly from a real Meta-Llama-3.1-8B-Instruct GGUF's
    // tokenizer.chat_template metadata (lmstudio-community's Q4_K_M
    // conversion) -- the exact real template, not a hand-shortened
    // paraphrase.
    let template = r#"{{- bos_token }}
{%- if messages[0]['role'] == 'system' %}
    {%- set system_message = messages[0]['content']|trim %}
{%- endif %}
{{- "<|start_header_id|>system<|end_header_id|>\n\n" }}
{%- for message in messages %}
    {{- '<|start_header_id|>' + message['role'] + '<|end_header_id|>\n\n'+ message['content'] | trim + '<|eot_id|>' }}
{%- endfor %}
{%- if add_generation_prompt %}
    {{- '<|start_header_id|>assistant<|end_header_id|>\n\n' }}
{%- endif %}"#;
    assert_eq!(ChatTemplate::detect(Some(template)), ChatTemplate::Llama3);
}

#[test]
fn llama3_renders_real_markers_and_a_trailing_generation_prompt() {
    let messages = vec![msg("system", "be helpful"), msg("user", "hi")];
    let rendered = ChatTemplate::Llama3.render(&messages);
    assert_eq!(
        rendered,
        "<|start_header_id|>system<|end_header_id|>\n\nbe helpful<|eot_id|><|start_header_id|>user<|end_header_id|>\n\nhi<|eot_id|><|start_header_id|>assistant<|end_header_id|>\n\n"
    );
}

#[test]
fn detects_gemma_from_start_of_turn_marker() {
    let template = "{{ bos_token }}{% for message in messages %}<start_of_turn>{{ message['role'] }}\n{{ message['content'] }}<end_of_turn>\n{% endfor %}";
    assert_eq!(ChatTemplate::detect(Some(template)), ChatTemplate::Gemma);
}

#[test]
fn gemma_renders_user_model_turns_and_generation_prompt() {
    let messages = vec![msg("user", "Capital of France?")];
    let rendered = ChatTemplate::Gemma.render(&messages);
    assert_eq!(
        rendered,
        "<start_of_turn>user\nCapital of France?<end_of_turn>\n<start_of_turn>model\n"
    );
}

#[test]
fn gemma_folds_system_into_first_user_turn() {
    let messages = vec![msg("system", "be brief"), msg("user", "hi")];
    let rendered = ChatTemplate::Gemma.render(&messages);
    assert_eq!(
        rendered,
        "<start_of_turn>user\nbe brief\n\nhi<end_of_turn>\n<start_of_turn>model\n"
    );
}

#[test]
fn falls_back_to_plain_when_no_template_or_unrecognized() {
    assert_eq!(ChatTemplate::detect(None), ChatTemplate::Plain);
    assert_eq!(
        ChatTemplate::detect(Some("some unrecognized custom format")),
        ChatTemplate::Plain
    );
}

#[test]
fn gguf_without_template_defaults_to_chatml_for_real_architectures() {
    assert_eq!(
        ChatTemplate::detect_for_gguf(None, Some("olmoe"), false),
        ChatTemplate::ChatMl
    );
    assert_eq!(
        ChatTemplate::detect_for_gguf(Some(""), Some("olmoe"), false),
        ChatTemplate::ChatMl
    );
    assert_eq!(
        ChatTemplate::detect_for_gguf(None, Some("olmoe"), true),
        ChatTemplate::Plain
    );
    assert_eq!(
        ChatTemplate::detect_for_gguf(
            Some("some unrecognized custom format"),
            Some("olmoe"),
            false
        ),
        ChatTemplate::Plain
    );
}

#[test]
fn chatml_renders_real_markers_and_a_trailing_generation_prompt() {
    let messages = vec![msg("system", "be helpful"), msg("user", "hi")];
    let rendered = ChatTemplate::ChatMl.render(&messages);
    assert_eq!(
        rendered,
        "<|im_start|>system\nbe helpful<|im_end|>\n<|im_start|>user\nhi<|im_end|>\n<|im_start|>assistant\n"
    );
}

#[test]
fn generic_role_markers_renders_real_markers_and_a_trailing_generation_prompt() {
    let messages = vec![msg("user", "hello there")];
    let rendered = ChatTemplate::GenericRoleMarkers.render(&messages);
    assert_eq!(rendered, "<|user|>\nhello there</s>\n<|assistant|>\n");
}

#[test]
fn plain_renders_role_labeled_lines_with_no_special_tokens() {
    let messages = vec![msg("user", "hello"), msg("assistant", "hi back")];
    let rendered = ChatTemplate::Plain.render(&messages);
    assert_eq!(rendered, "user: hello\nassistant: hi back");
}

#[test]
fn a_tool_call_is_replayed_as_marker_text() {
    let mut m = msg("assistant", "one moment ");
    m.tool_calls = Some(vec!["{\"name\":\"add\"}".to_string()]);
    assert_eq!(m.rendered_content(), "one moment <tool_call>{\"name\":\"add\"}</tool_call>");
}

#[test]
fn gemma_keeps_a_system_text_that_already_ends_a_line() {
    let messages = vec![msg("system", "be brief\n"), msg("assistant", "ok"), msg("user", "hi")];
    assert_eq!(
        ChatTemplate::Gemma.render(&messages),
        "<start_of_turn>model\nok<end_of_turn>\n<start_of_turn>user\nbe brief\nhi<end_of_turn>\n<start_of_turn>model\n"
    );
}

#[test]
fn gemma_treats_a_later_system_message_as_a_user_turn() {
    let messages = vec![msg("user", "hi"), msg("system", "be brief")];
    assert_eq!(
        ChatTemplate::Gemma.render(&messages),
        "<start_of_turn>user\nhi<end_of_turn>\n<start_of_turn>user\nbe brief<end_of_turn>\n<start_of_turn>model\n"
    );
}

#[test]
fn every_convention_but_plain_ends_with_its_generation_prompt() {
    let none: Vec<ChatMessage> = Vec::new();
    assert_eq!(ChatTemplate::ChatMl.render(&none), "<|im_start|>assistant\n");
    assert_eq!(ChatTemplate::GenericRoleMarkers.render(&none), "<|assistant|>\n");
    assert_eq!(ChatTemplate::Gemma.render(&none), "<start_of_turn>model\n");
    assert_eq!(ChatTemplate::Plain.render(&none), "");
}

#[test]
fn the_first_marker_decides_between_conventions() {
    assert_eq!(ChatTemplate::detect(Some("<|user|> <|im_start|>")), ChatTemplate::ChatMl);
    assert_eq!(ChatTemplate::detect(Some("<start_of_turn> <|start_header_id|>")), ChatTemplate::Llama3);
    assert_eq!(ChatTemplate::detect_for_gguf(None, None, false), ChatTemplate::Plain);
}
