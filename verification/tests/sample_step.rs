use ferrox::generate::{greedy_gpu_fold_allowed, GenerationParams};
use ferrox::sample_step::{sample_mode, SampleMode};
use ferrox::sampling::SamplingParams;

fn params(json_object: bool, temperature: f32) -> GenerationParams {
    GenerationParams {
        max_tokens: 8,
        sampling: SamplingParams { temperature_bits: temperature.to_bits(), ..SamplingParams::default() },
        seed: 7,
        stop: Vec::new(),
        stop_token_ids: Vec::new(),
        json_object,
        grammar: None,
        cancel: None,
        ignore_eos: false,
    }
}

#[test]
fn json_mode_masks_at_temperature_zero() {
    let logits = vec![9.0f32, 1.0, 0.5];
    let mode = sample_mode(&params(true, 0.0), logits.len());
    assert_ne!(mode, SampleMode::Plain, "a json mode request was sampled unmasked");
    assert_eq!(mode, SampleMode::JsonMasked);
}

#[test]
fn json_mode_masks_when_sampling_too() {
    let logits = vec![9.0f32, 1.0, 0.5];
    for seed in 0..16u64 {
        let mut p = params(true, 1.0);
        p.seed = seed;
        assert_ne!(sample_mode(&p, logits.len()), SampleMode::Plain, "seed {seed} sampled unmasked");
    }
}

#[test]
fn a_plain_request_is_not_masked() {
    let logits = vec![9.0f32, 1.0, 0.5];
    assert_eq!(sample_mode(&params(false, 0.0), logits.len()), SampleMode::Plain);
}

#[test]
fn a_json_mode_request_may_never_fold_lm_head_into_a_gpu_argmax() {
    assert!(greedy_gpu_fold_allowed(&params(false, 0.0)));
    assert!(!greedy_gpu_fold_allowed(&params(true, 0.0)));
    // Not greedy: never folded either way, whatever the constraints.
    assert!(!greedy_gpu_fold_allowed(&params(false, 0.8)));
    assert!(!greedy_gpu_fold_allowed(&params(true, 0.8)));
}

#[test]
fn a_negative_temperature_is_greedy_and_a_nan_is_not() {
    assert!(greedy_gpu_fold_allowed(&params(false, -0.0)));
    assert!(greedy_gpu_fold_allowed(&params(false, -1.5)));
    assert!(greedy_gpu_fold_allowed(&params(false, f32::NEG_INFINITY)));
    assert!(!greedy_gpu_fold_allowed(&params(false, f32::NAN)));
    assert!(!greedy_gpu_fold_allowed(&params(false, -f32::NAN)));
}
