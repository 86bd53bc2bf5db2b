use ferrox::sampling::{SamplerOrder, SamplingKnobs, SamplingParams, DEFAULT_PENALTY_LAST_N};

#[test]
fn an_empty_request_resolves_to_the_do_nothing_baseline() {
    let resolved = SamplingKnobs::default().resolve();
    let baseline = SamplingParams::default();
    assert_eq!(resolved.temperature_bits, baseline.temperature_bits);
    assert_eq!(resolved.top_p_bits, baseline.top_p_bits);
    assert_eq!(resolved.min_p_bits, baseline.min_p_bits);
    assert_eq!(resolved.top_k, baseline.top_k);
    assert_eq!(resolved.repetition_penalty_bits, baseline.repetition_penalty_bits);
    assert_eq!(resolved.penalty_last_n, baseline.penalty_last_n);
}

#[test]
fn the_penalty_window_is_honoured_including_the_value_that_disables_it() {
    assert_eq!(SamplingKnobs::default().resolve().penalty_last_n, DEFAULT_PENALTY_LAST_N);
    let asked = SamplingKnobs { penalty_last_n: Some(0), ..SamplingKnobs::default() };
    assert_eq!(asked.resolve().penalty_last_n, 0);
    let wide = SamplingKnobs { penalty_last_n: Some(4096), ..SamplingKnobs::default() };
    assert_eq!(wide.resolve().penalty_last_n, 4096);
}

#[test]
fn an_unset_sampler_order_is_the_chain_this_server_already_ran() {
    assert!(SamplingKnobs::default().resolve().sampler_order.same(&SamplerOrder::Default));
    let asked = SamplingKnobs {
        sampler_order: Some(SamplerOrder::Chain("penalties;temperature;top_k".to_string())),
        ..SamplingKnobs::default()
    };
    assert_eq!(asked.resolve().sampler_order.text().as_deref(), Some("penalties;temperature;top_k"));
}

#[test]
fn min_p_defaults_to_off_rather_than_to_llama_cpps_cli_number() {
    assert_eq!(f32::from_bits(SamplingKnobs::default().resolve().min_p_bits), 0.0);
    assert_eq!(
        f32::from_bits(
            SamplingKnobs { min_p_bits: Some(0.05f32.to_bits()), ..SamplingKnobs::default() }.resolve().min_p_bits
        ),
        0.05
    );
}

#[test]
fn the_baseline_bits_are_the_floats_they_stand_for() {
    let p = SamplingParams::default();
    assert_eq!(f32::from_bits(p.temperature_bits), 0.0);
    assert_eq!(f32::from_bits(p.top_p_bits), 1.0);
    assert_eq!(f32::from_bits(p.repetition_penalty_bits), 1.0);
    assert_eq!(DEFAULT_PENALTY_LAST_N, 64);
}
