use ferrox::batch::config::{BatcherConfig, RawSettings};
use ferrox::budget::{
    apply_derived, context_cap, context_length_key, derive_limits, gguf_context_length, price_gguf, Adopted, Ceiling,
    ContextCeiling, DerivedLimits,
};
use ferrox::generate::DecodeError;

/// Two layers, one kv head of dimension four, f32 keys and values.
const PER_TOKEN: u64 = 64;

/// The tokens that fit what the weights leave of a device.
fn fit(device: u64, weights: u64, gguf_ctx: usize) -> usize {
    let room = device.saturating_sub(weights) / PER_TOKEN;
    (room as usize).min(context_cap(gguf_ctx))
}

fn derived(max_context: usize, kv_blocks: usize) -> DerivedLimits {
    DerivedLimits { max_context, kv_blocks }
}

#[test]
fn a_request_past_the_ceiling_is_refused_in_bytes_and_is_not_retryable() {
    let mut ceiling = ContextCeiling::new(Some(100));
    assert!(ceiling.refusal(100, 100 * 64, 100 * 64).is_none(), "exactly at the limit fits");
    let err = ceiling.refusal(101, 101 * 64, 100 * 64).expect("101 > 100 must be refused");
    match &err {
        DecodeError::KvBudgetExceeded { binding, estimated_bytes, limit_bytes, positions, positions_limit, .. } => {
            assert_eq!(*binding, Ceiling::ContextLength.code());
            assert_eq!(*estimated_bytes, 101 * 64);
            assert_eq!(*limit_bytes, 100 * 64);
            assert_eq!(*positions, 101);
            assert_eq!(*positions_limit, 100);
        }
        other => panic!("expected KvBudgetExceeded, got {other:?}"),
    }
    assert_eq!(
        err.retry_after_secs(),
        None,
        "an idle server refuses this identically, so 'retry shortly' would be a lie"
    );
    assert_eq!(ceiling.refused(), 1, "the refusal must be counted");
}

#[test]
fn no_ceiling_refuses_nothing() {
    let mut ceiling = ContextCeiling::new(None);
    assert!(ceiling.refusal(usize::MAX / 2, 0, 0).is_none());
    assert_eq!(ceiling.refused(), 0);
    assert_eq!(ceiling.limit(), None);
}

#[test]
fn the_derived_context_is_the_room_left_after_weights_divided_by_the_per_token_cost() {
    let derived = derive_limits(fit(8192, 4096, 100_000), 16).expect("4096 bytes of KV room fits some context");
    assert_eq!(derived.max_context, 64);
    assert_eq!(derived.kv_blocks, 4, "64 positions / 16 per block");
}

#[test]
fn a_roomy_machine_is_still_capped_at_the_models_trained_context() {
    let derived =
        derive_limits(fit(1 << 40, 0, 4096), 256).expect("a terabyte of room fits the model's whole context");
    assert_eq!(derived.max_context, 4096);
    assert_eq!(derived.kv_blocks, 16);
}

#[test]
fn a_partial_block_is_floored_away_rather_than_promised() {
    // 6400 bytes of KV room -> 100 tokens, block size 64 -> one whole
    // block and 36 positions left over.
    let derived = derive_limits(fit(6400, 0, 100_000), 64).expect("100 tokens fit");
    assert_eq!(derived.max_context, 100);
    assert_eq!(derived.kv_blocks, 1);
}

#[test]
fn a_model_that_leaves_no_room_derives_no_ceiling_at_all() {
    assert!(derive_limits(fit(4096, 4096, 100_000), 16).is_none());
    assert!(derive_limits(fit(4096, 8192, 100_000), 16).is_none());
}

#[test]
fn a_configured_ceiling_is_never_overridden_by_a_derived_one() {
    let mut config = BatcherConfig { max_context: Some(999), kv_blocks: Some(7), ..Default::default() };
    let adopted = apply_derived(&mut config, &derived(4096, 16));
    assert_eq!(config.max_context, Some(999));
    assert_eq!(config.kv_blocks, Some(7));
    assert_eq!(adopted, Adopted::default(), "nothing was adopted");
}

#[test]
fn an_absent_ceiling_is_filled_and_the_two_slots_are_independent() {
    let mut both = BatcherConfig { max_context: None, kv_blocks: None, ..Default::default() };
    let adopted = apply_derived(&mut both, &derived(4096, 16));
    assert_eq!(both.max_context, Some(4096));
    assert_eq!(both.kv_blocks, Some(16));
    assert_eq!(adopted, Adopted { max_context: true, kv_blocks: true });

    let mut half = BatcherConfig { max_context: Some(512), kv_blocks: None, ..Default::default() };
    let adopted = apply_derived(&mut half, &derived(4096, 16));
    assert_eq!(half.max_context, Some(512), "the set one survives");
    assert_eq!(half.kv_blocks, Some(16), "the unset one is still derived");
    assert_eq!(adopted, Adopted { max_context: false, kv_blocks: true });
}

#[test]
fn a_fit_smaller_than_one_block_leaves_the_ledger_absent() {
    let mut config = BatcherConfig { max_context: None, kv_blocks: None, ..Default::default() };
    apply_derived(&mut config, &derived(100, 0));
    assert_eq!(config.max_context, Some(100));
    assert_eq!(config.kv_blocks, None);
}

#[test]
fn a_fully_sliding_model_is_limited_only_by_its_context_length() {
    let derived = derive_limits(context_cap(8192), 256).expect("a bounded KV always fits");
    assert_eq!(derived.max_context, 8192);
}

#[test]
fn a_prompt_at_the_ceiling_leaves_no_room_for_output() {
    let mut ceiling = ContextCeiling::new(Some(100));
    assert!(ceiling.prompt_refusal(99, 0, 0).is_none());
    match ceiling.prompt_refusal(100, 6400, 6400) {
        Some(DecodeError::KvBudgetExceeded { detail, binding, .. }) => {
            assert_eq!(detail, "prompt is too long: 100 tokens > 100 maximum");
            assert_eq!(binding, "context_length_exceeded");
        }
        other => panic!("expected a refusal, got {other:?}"),
    }
    assert_eq!(ceiling.refused(), 1);
    assert_eq!(ceiling.clamp(90, 50), 10);
    assert_eq!(ceiling.clamp(90, 5), 5);
    assert_eq!(ceiling.clamp(200, 5), 0);
}

#[test]
fn a_refused_request_is_told_its_own_numbers() {
    let mut ceiling = ContextCeiling::new(Some(100));
    match ceiling.refusal(101, 1, 2) {
        Some(DecodeError::KvBudgetExceeded { detail, .. }) => assert_eq!(
            detail,
            "request asks for 101 token positions (prompt + max_tokens) but this deployment admits 100 per request; shorten the prompt or lower max_tokens"
        ),
        other => panic!("expected a refusal, got {other:?}"),
    }
}

#[test]
fn a_model_is_priced_for_its_own_context_and_at_least_one_request() {
    assert_eq!(context_length_key(Some("llama")), "llama.context_length");
    assert_eq!(context_length_key(None), "unknown.context_length");
    assert_eq!(gguf_context_length(None), 4096);
    assert_eq!(gguf_context_length(Some(8192)), 8192);
    let p = price_gguf(true, Some(4096), 0, 0).unwrap();
    assert_eq!((p.context_tokens, p.concurrent_requests, p.prefill_chunk), (4096, 1, 1));
    assert!(price_gguf(false, Some(4096), 1, 1).is_none());
    assert!(price_gguf(true, None, 1, 1).is_none());
}

fn unset<'a>() -> RawSettings<'a> {
    RawSettings {
        max_seqs: None,
        prefill_chunk: None,
        max_queue: None,
        kv_block_size: None,
        kv_blocks: None,
        max_context: None,
    }
}

#[test]
fn settings_fall_back_to_their_defaults_one_by_one() {
    assert_eq!(BatcherConfig::from_env(&unset()), BatcherConfig::default());
    let mut raw = unset();
    raw.prefill_chunk = Some("64");
    raw.kv_blocks = Some("+7");
    assert_eq!(raw.first_unusable(), None);
    let config = BatcherConfig::from_env(&raw);
    assert_eq!(config.prefill_chunk, 64);
    assert_eq!(config.kv_blocks, Some(7));
    assert_eq!(config.max_queue, 512);
    assert_eq!(config.kv_block_size, 256);
    assert_eq!(config.max_seqs, usize::MAX);
}

#[test]
fn the_first_setting_that_is_not_a_positive_integer_is_named() {
    let mut raw = unset();
    raw.kv_blocks = Some("0");
    assert_eq!(raw.first_unusable(), Some("FERROX_CB_KV_BLOCKS"));
    raw.max_seqs = Some("many");
    assert_eq!(raw.first_unusable(), Some("FERROX_CB_MAX_SEQS"));
    let bad = Some("-1");
    for (raw, name) in [
        (RawSettings { prefill_chunk: bad, ..unset() }, "FERROX_CB_PREFILL_CHUNK"),
        (RawSettings { max_queue: bad, ..unset() }, "FERROX_CB_MAX_QUEUE"),
        (RawSettings { kv_block_size: bad, ..unset() }, "FERROX_CB_KV_BLOCK_SIZE"),
        (RawSettings { max_context: bad, ..unset() }, "FERROX_CB_MAX_CONTEXT"),
    ] {
        assert_eq!(raw.first_unusable(), Some(name));
    }
    assert_eq!(unset().first_unusable(), None);
}
