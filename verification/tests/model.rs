use ferrox::chat_template::ChatTemplate;
use ferrox::model::{
    all_confirmed, describe_gguf, describe_kimi, describe_synthetic, engine_for, env_truthy, is_glm52_arch,
    kimi_chat_template, model_source, preset_of, resolve_expert_cache_bytes, synthetic_shape, tokenizer_from_gguf,
    EngineKind, GgufMetadata, ModelSource, Preset, SelectedEngineKind, ServerTokenizer,
    DEFAULT_SSD_STREAMING_CACHE_BYTES,
};

fn metadata<'a>() -> GgufMetadata<'a> {
    GgufMetadata {
        architecture: None,
        name: None,
        tokenizer_model: None,
        chat_template: None,
        eos_token_id: None,
        bos_token_id: None,
    }
}

#[test]
fn switches_know_three_words() {
    for on in ["1", "true", "on"] {
        assert!(env_truthy(Some(on)), "{on}");
    }
    for off in ["0", "TRUE", "yes", ""] {
        assert!(!env_truthy(Some(off)), "{off}");
    }
    assert!(!env_truthy(None));
}

#[test]
fn the_cache_budget_is_spelled_out_or_defaulted() {
    assert_eq!(resolve_expert_cache_bytes(None, None), Ok(None));
    assert_eq!(resolve_expert_cache_bytes(Some("1"), None), Ok(Some(DEFAULT_SSD_STREAMING_CACHE_BYTES)));
    assert_eq!(DEFAULT_SSD_STREAMING_CACHE_BYTES, 2 * 1024 * 1024 * 1024);
    assert_eq!(resolve_expert_cache_bytes(Some("1"), Some("77")), Ok(Some(77)));
    assert_eq!(resolve_expert_cache_bytes(None, Some("18446744073709551615")), Ok(Some(u64::MAX)));
}

#[test]
fn an_unreadable_cache_budget_is_quoted_back() {
    assert_eq!(
        resolve_expert_cache_bytes(None, Some("two \"gigs\"")),
        Err("FERROX_EXPERT_CACHE_BYTES must be a non-negative integer, got \"two \\\"gigs\\\"\"".to_string())
    );
    assert!(resolve_expert_cache_bytes(None, Some("18446744073709551616")).is_err());
    assert!(resolve_expert_cache_bytes(None, Some("-1")).is_err());
    assert!(resolve_expert_cache_bytes(None, Some("")).is_err());
}

#[test]
fn tokenizers_are_named_by_their_tag() {
    assert_eq!(tokenizer_from_gguf(Some("gpt2")).kind(), "gguf-bpe");
    assert_eq!(tokenizer_from_gguf(Some("llama")).kind(), "gguf-spm");
    assert_eq!(tokenizer_from_gguf(Some("t5")).kind(), "gguf-unigram");
    assert_eq!(tokenizer_from_gguf(Some("rwkv")), ServerTokenizer::Byte);
    assert_eq!(tokenizer_from_gguf(None).kind(), "byte (no real vocabulary loaded)");
}

#[test]
fn the_family_is_recognized_before_the_registry() {
    assert!(is_glm52_arch("glm-dsa") && is_glm52_arch("glm4") && is_glm52_arch("glm4moe"));
    assert!(!is_glm52_arch("glm"));
    assert_eq!(engine_for(Some("glm4"), Some(SelectedEngineKind::Mla)), EngineKind::Glm52);
    assert_eq!(engine_for(Some("deepseek2"), Some(SelectedEngineKind::Mla)), EngineKind::Mla);
    assert_eq!(engine_for(Some("gemma4"), Some(SelectedEngineKind::Gemma4)), EngineKind::Gemma4);
    assert_eq!(engine_for(Some("llama"), Some(SelectedEngineKind::Generic)), EngineKind::Gguf);
    assert_eq!(engine_for(Some("llama"), None), EngineKind::Gguf);
    assert_eq!(engine_for(None, Some(SelectedEngineKind::Mla)), EngineKind::Gguf);
}

#[test]
fn a_special_engine_has_a_name() {
    let m = describe_gguf(&metadata(), EngineKind::Mla);
    assert_eq!(m.name.as_deref(), Some("mla"));
    let named = GgufMetadata { name: Some("Big"), architecture: Some("deepseek2"), ..metadata() };
    assert_eq!(describe_gguf(&named, EngineKind::Mla).name.as_deref(), Some("Big"));
    let arch_only = GgufMetadata { architecture: Some("glm4"), ..metadata() };
    assert_eq!(describe_gguf(&arch_only, EngineKind::Glm52).name.as_deref(), Some("glm4"));
    assert_eq!(describe_gguf(&named, EngineKind::Gguf).name, None);
}

#[test]
fn a_checkpoint_speaks_its_own_convention() {
    let bpe = GgufMetadata {
        architecture: Some("qwen3"),
        tokenizer_model: Some("gpt2"),
        eos_token_id: Some(151645),
        bos_token_id: Some(0),
        ..metadata()
    };
    let m = describe_gguf(&bpe, EngineKind::Gguf);
    assert_eq!(m.chat_template, ChatTemplate::ChatMl);
    assert_eq!((m.eos_id, m.bos_id), (Some(151645), Some(0)));
    assert!(!m.is_synthetic);
    assert_eq!(describe_gguf(&metadata(), EngineKind::Gguf).chat_template, ChatTemplate::Plain);
    let gemma = GgufMetadata { chat_template: Some("<start_of_turn>user"), ..metadata() };
    assert_eq!(describe_gguf(&gemma, EngineKind::Gguf).chat_template, ChatTemplate::Gemma);
}

#[test]
fn a_directory_keeps_its_template_in_a_json_file() {
    assert_eq!(
        kimi_chat_template(Some("{\"chat_template\": \"{{ '<|im_start|>' }}\"}")),
        ChatTemplate::detect(Some("{{ '<|im_start|>' }}"))
    );
    assert_eq!(kimi_chat_template(Some("{\"chat_template\": 3}")), ChatTemplate::detect(None));
    assert_eq!(kimi_chat_template(Some("{\"other\": \"<|im_start|>\"}")), ChatTemplate::detect(None));
    assert_eq!(kimi_chat_template(Some("[\"chat_template\"]")), ChatTemplate::detect(None));
    assert_eq!(kimi_chat_template(Some("{broken")), ChatTemplate::detect(None));
    assert_eq!(kimi_chat_template(None), ChatTemplate::detect(None));
    assert_ne!(ChatTemplate::detect(Some("{{ '<|im_start|>' }}")), ChatTemplate::detect(None));
    let (eos, _) = describe_kimi(Some(163585), None);
    assert_eq!(eos, Some(163585));
}

#[test]
fn the_source_is_told_by_the_path() {
    assert_eq!(model_source(true, true), ModelSource::KimiDirectory);
    assert_eq!(model_source(true, false), ModelSource::GgufFile);
    assert_eq!(model_source(false, false), ModelSource::Synthetic);
}

#[test]
fn presets_have_names() {
    assert_eq!(preset_of(None), Ok(Preset::Glm52));
    assert_eq!(preset_of(Some("glm-5.2")), Ok(Preset::Glm52));
    assert_eq!(preset_of(Some("deepseek-v4-pro")), Ok(Preset::DeepseekV4Pro));
    assert_eq!(preset_of(Some("kimi-k3")), Ok(Preset::KimiK3));
    assert_eq!(preset_of(Some("gpt")), Err("unknown preset 'gpt'".to_string()));
}

#[test]
fn synthetic_weights_are_small() {
    assert_eq!(synthetic_shape(256).n_experts, 16);
    assert_eq!(synthetic_shape(4).n_experts, 4);
    assert_eq!(synthetic_shape(4).vocab_size, 256);
    let m = describe_synthetic();
    assert!(m.is_synthetic);
    assert_eq!(m.chat_template, ChatTemplate::Plain);
}

#[test]
fn one_entry_says_that_nothing_was_inferred() {
    let strings = |v: &[&str]| -> Vec<String> { v.iter().map(|s| s.to_string()).collect() };
    assert!(all_confirmed(&strings(&["none -- every field was read"])));
    assert!(!all_confirmed(&strings(&["none -- x", "rope_theta"])));
    assert!(!all_confirmed(&strings(&["rope_theta"])));
    assert!(!all_confirmed(&strings(&["none"])));
    assert!(!all_confirmed(&[]));
}
