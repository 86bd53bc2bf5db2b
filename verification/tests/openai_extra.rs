use ferrox::generate::FinishReason;
use ferrox::openai_extra::{
    check_poolable, check_tokens, default_max_tokens, embedding_inputs, embedding_pooling, finish_reason, format_kind,
    no_embeddings, prompt_param, recorded, CompletionsRequest, EmbeddingInput, Pooling, PromptParam, StopParam,
};
use ferrox::stats::TimedUsage;
use serde_json::Value;

fn json(text: &str) -> Value {
    serde_json::from_str(text).expect("a document")
}

fn request(prompt: PromptParam) -> CompletionsRequest {
    CompletionsRequest {
        prompt,
        max_tokens: default_max_tokens(),
        temperature_bits: None,
        top_p_bits: None,
        seed: None,
        stop: None,
        has_logprobs: false,
        echo: None,
        suffix: None,
        has_logit_bias: false,
        response_format: None,
    }
}

fn hi() -> CompletionsRequest {
    request(PromptParam::Text("hi".to_string()))
}

#[test]
fn a_completion_stop_string_reaches_the_generation_params() {
    let mut one = hi();
    one.stop = Some(StopParam::One("END".to_string()));
    assert_eq!(one.stop_sequences(), vec!["END".to_string()]);

    let mut many = hi();
    many.stop = Some(StopParam::Many(vec!["A".to_string(), "B".to_string()]));
    assert_eq!(many.stop_sequences(), vec!["A".to_string(), "B".to_string()]);
    assert_eq!(many.generation_params().stop, vec!["A".to_string(), "B".to_string()]);

    let none = hi();
    assert!(none.stop_sequences().is_empty());
}

#[test]
fn every_unimplemented_completion_field_is_refused_by_name() {
    for field in ["logprobs", "echo", "suffix", "logit_bias"] {
        let mut body = hi();
        match field {
            "logprobs" => body.has_logprobs = true,
            "echo" => body.echo = Some(true),
            "suffix" => body.suffix = Some("tail".to_string()),
            _ => body.has_logit_bias = true,
        }
        let e = body.validate().expect_err(&format!("`{field}` must be refused"));
        assert_eq!(e.status, 501);
        assert!(e.message.contains(field), "the refusal must name `{field}`");
    }
    let mut quiet = hi();
    quiet.echo = Some(false);
    assert!(quiet.validate().is_ok());
}

#[test]
fn only_the_text_response_format_is_accepted() {
    let mut text = hi();
    text.response_format = Some(format_kind(&json(r#"{"type": "text"}"#)));
    assert!(text.validate().is_ok());

    let mut other = hi();
    other.response_format = Some(format_kind(&json(r#"{"type": "json_object"}"#)));
    assert!(other.validate().is_err());
    other.response_format = Some(format_kind(&json(r#"{"type": 7}"#)));
    assert_eq!(other.response_format, Some(None));
    assert_eq!(other.validate().unwrap_err().status, 501);
}

#[test]
fn a_token_id_prompt_is_refused_by_name_rather_than_mis_parsed() {
    let ids = request(prompt_param(&json("[1, 2, 3]")));
    let e = ids.prompt_text().expect_err("refused");
    assert_eq!(e.status, 501);
    assert!(e.message.contains("token-id"));

    let text = request(prompt_param(&json("\"hi\"")));
    assert_eq!(text.prompt_text().expect("a string prompt"), "hi");
    let e = request(prompt_param(&json("{\"a\": 1}"))).prompt_text().unwrap_err();
    assert_eq!((e.status, e.param), (400, Some("prompt")));
}

#[test]
fn a_completion_defaults_to_a_short_greedy_answer() {
    assert_eq!(default_max_tokens(), 16);
    let p = hi().generation_params();
    assert_eq!(p.max_tokens, 16);
    assert_eq!(f32::from_bits(p.sampling.temperature_bits), 0.0);
    assert_eq!(f32::from_bits(p.sampling.top_p_bits), 1.0);
    assert_eq!(p.seed, 0);
    let mut warm = hi();
    warm.temperature_bits = Some(0.7f32.to_bits());
    warm.seed = Some(9);
    let p = warm.generation_params();
    assert_eq!(f32::from_bits(p.sampling.temperature_bits), 0.7);
    assert_eq!(p.seed, 9);
}

#[test]
fn finish_reasons_have_their_openai_names() {
    assert_eq!(finish_reason(FinishReason::Stop), "stop");
    assert_eq!(finish_reason(FinishReason::Length), "length");
    assert_eq!(finish_reason(FinishReason::Cancelled), "cancelled");
}

#[test]
fn a_failed_call_is_recorded_with_its_status_and_no_usage() {
    let usage = TimedUsage {
        prompt_tokens: 3,
        completion_tokens: 0,
        time_to_first_token_ms_bits: None,
        generation_duration_ms_bits: None,
    };
    assert_eq!(recorded(None, Some(usage)), (200, Some(usage)));
    assert_eq!(recorded(Some(400), Some(usage)), (400, None));
}

#[test]
fn an_unknown_encoding_or_pooling_is_quoted_back() {
    assert_eq!(embedding_pooling(None, None).unwrap(), Pooling::Mean);
    assert_eq!(embedding_pooling(Some("float"), Some("last")).unwrap(), Pooling::Last);
    let e = embedding_pooling(Some("base\"64"), None).unwrap_err();
    assert_eq!(e.message, "encoding_format \"base\\\"64\" is not supported (only \"float\")");
    let e = embedding_pooling(None, Some("max")).unwrap_err();
    assert_eq!(e.message, "embedding_type must be \"mean\" or \"last\", got \"max\"");
    assert_eq!(e.status, 400);
}

#[test]
fn an_empty_input_list_is_refused() {
    assert_eq!(embedding_inputs(EmbeddingInput::One("a".to_string())).unwrap(), vec!["a".to_string()]);
    assert_eq!(embedding_inputs(EmbeddingInput::Many(vec!["a".to_string()])).unwrap().len(), 1);
    let e = embedding_inputs(EmbeddingInput::Many(vec![])).unwrap_err();
    assert_eq!(e.message, "input must be a non-empty string or array of strings");
    assert!(check_poolable(1).is_ok());
    assert_eq!(
        check_poolable(0).unwrap_err().message,
        "input encoded to zero tokens; cannot embed empty sequence"
    );
}

#[test]
fn a_text_the_model_cannot_run_is_not_embedded() {
    assert!(check_tokens(&[1, 2, 255], Some(256)).is_ok());
    assert!(check_tokens(&[9999], None).is_ok());
    let e = check_tokens(&[1, 300, 400], Some(256)).unwrap_err();
    assert_eq!(e.message, "token id 300 is outside this model's vocabulary of 256");
    assert_eq!(e.status, 400);
    let e = no_embeddings();
    assert_eq!((e.status, e.message.as_str()), (501, "embeddings engine not yet available for this model"));
}
