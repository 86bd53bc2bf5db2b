use ferrox::generate::{
    after_attempt, chunked_prefill_tokens, cpu_kv_offload_enabled, find_out_of_vocab, greedy_gpu_fold_allowed,
    plan_prefill, prepare_prompt, prompt_chunks, stores_prefix, AcquireStep, DecodeError, FinishReason,
    GenerationParams, PrefillPlan, PrefixMatch, Usage,
};
use ferrox::generation::Generation;
use ferrox::sampling::SamplingParams;

const LAYERS: usize = 2;

/// A model whose distribution depends on every token it has seen and on
/// where each of them stood.
struct Model {
    vocab_size: usize,
}

impl Model {
    fn logits(&self, seen: &[usize]) -> Vec<u32> {
        let mut h = 17usize;
        for (pos, &t) in seen.iter().enumerate() {
            h = (h * 31 + (t + 1) * (pos + 7)) % 10007;
        }
        (0..self.vocab_size)
            .map(|i| {
                let printable = (97..123).contains(&i) as u32;
                printable * 20000 + ((h + i * 7919) % 10007) as u32
            })
            .collect()
    }

    fn forward_token(&self, token: usize, pos: usize, cache: &mut Vec<usize>) -> Vec<u32> {
        assert_eq!(cache.len(), pos, "a token must run at its own position");
        cache.push(token);
        self.logits(cache)
    }

    fn forward_batch(&self, tokens: &[usize], start: usize, cache: &mut Vec<usize>) -> Vec<Vec<u32>> {
        tokens.iter().enumerate().map(|(i, &t)| self.forward_token(t, start + i, cache)).collect()
    }
}

fn argmax(logits: &[u32]) -> usize {
    let mut best = 0;
    for i in 0..logits.len() {
        if logits[i] >= logits[best] {
            best = i;
        }
    }
    best
}

struct Pool {
    block_size: usize,
    free: usize,
}

impl Pool {
    fn take(&mut self, positions: usize) -> Option<usize> {
        let each = positions.max(1).div_ceil(self.block_size);
        if each * LAYERS > self.free {
            return None;
        }
        self.free -= each * LAYERS;
        Some(each * LAYERS)
    }
}

/// A pool with a wait policy, and a clock that only sleeping moves.
struct Pooled {
    pool: Pool,
    wait_ms: u64,
    now_ms: u64,
    /// Blocks another request gives back, and when.
    returns: Option<(u64, usize)>,
    attempts: usize,
}

impl Pooled {
    fn new(block_size: usize, blocks: usize, wait_ms: u64) -> Pooled {
        Pooled { pool: Pool { block_size, free: blocks }, wait_ms, now_ms: 0, returns: None, attempts: 0 }
    }

    fn acquire(&mut self, positions: usize) -> Option<usize> {
        let deadline = self.now_ms + self.wait_ms;
        loop {
            if let Some((at, blocks)) = self.returns {
                if self.now_ms >= at {
                    self.pool.free += blocks;
                    self.returns = None;
                }
            }
            let got = self.pool.take(positions);
            self.attempts += 1;
            match after_attempt(got.is_some(), self.now_ms, deadline) {
                AcquireStep::Return => return got,
                AcquireStep::Sleep { ms } => self.now_ms += ms,
            }
        }
    }
}

#[derive(Default)]
struct PrefixCache {
    entries: Vec<(Vec<usize>, Vec<u32>)>,
    hits: usize,
    misses: usize,
    reused: usize,
}

impl PrefixCache {
    fn find(&mut self, tokens: &[usize]) -> (PrefixMatch, Vec<usize>, Vec<u32>) {
        let mut best = (PrefixMatch { matched_len: 0, has_logits: false }, Vec::new(), Vec::new());
        for (stored, logits) in &self.entries {
            let n = stored.iter().zip(tokens).take_while(|(a, b)| a == b).count();
            if n > best.0.matched_len {
                best = (PrefixMatch { matched_len: n, has_logits: n == stored.len() }, stored[..n].to_vec(), logits.clone());
            }
        }
        if best.0.matched_len > 0 {
            self.hits += 1;
            self.reused += best.0.matched_len;
        } else {
            self.misses += 1;
        }
        best
    }
}

struct Answer {
    finish: FinishReason,
    usage: Usage,
    text: String,
}

fn generate(
    model: &Model,
    eos: Option<usize>,
    bos: Option<usize>,
    prompt: &[u8],
    params: &GenerationParams,
    mut pooled: Option<&mut Pooled>,
    mut prefixes: Option<&mut PrefixCache>,
) -> Result<Answer, DecodeError> {
    let encoded: Vec<usize> = prompt.iter().map(|&b| b as usize).collect();
    let request = Generation::start(encoded, bos, model.vocab_size, params.max_tokens, pooled.is_some())?;
    let mut held = 0;
    let found = match &mut prefixes {
        Some(pc) if request.restores() => Some(pc.find(request.tokens())),
        _ => None,
    };
    if let Some(p) = &mut pooled {
        held = p.acquire(request.positions()).ok_or(DecodeError::KvPoolExhausted)?;
    }
    let (hit, mut cache, mut logits) = match found {
        Some((m, kept, logits)) => (Some(m), kept, logits),
        None => (None, Vec::new(), Vec::new()),
    };
    let prompting = request.prompting(hit, Some(2));
    if let PrefillPlan::BackOff { to } = prompting.plan {
        cache.truncate(to);
    }
    for pass in &prompting.passes {
        logits = model.forward_batch(&pass.tokens, pass.from, &mut cache).pop().unwrap();
    }
    let mut text = String::new();
    let mut decoding = request.decoding(eos, params.stop.clone(), params.stop_token_ids.clone());
    while decoding.sampling.wants_token() {
        let next = argmax(&logits);
        let Some(pos) = decoding.sampling.on_token(next) else { break };
        logits = model.forward_token(next, pos, &mut cache);
        let piece = String::from_utf8_lossy(&[next as u8]).into_owned();
        if let Some(chunk) = decoding.sampling.on_piece(&piece) {
            text.push_str(&chunk);
        }
    }
    let done = decoding.finish(prefixes.is_some(), logits.len());
    text.push_str(&done.tail);
    if let (Some(sequence), Some(pc)) = (done.stored, prefixes) {
        assert_eq!(sequence, cache, "what is stored is what was run");
        pc.entries.push((sequence, logits));
    }
    if let Some(p) = pooled {
        p.pool.free += held;
    }
    Ok(Answer { finish: done.finish, usage: done.usage, text })
}

fn small_model() -> Model {
    Model { vocab_size: 256 }
}

fn params_with_stop(max_tokens: usize, stop: Vec<String>) -> GenerationParams {
    GenerationParams {
        max_tokens,
        sampling: SamplingParams::default(),
        seed: 1,
        stop,
        stop_token_ids: Vec::new(),
        json_object: false,
        grammar: None,
        cancel: None,
        ignore_eos: false,
    }
}

fn greedy_params(max_tokens: usize) -> GenerationParams {
    params_with_stop(max_tokens, Vec::new())
}

#[test]
fn prompt_processing_matches_forward_batch_ground_truth_with_no_duplicate_position() {
    let model = small_model();
    let tokens = vec![1usize, 2, 3, 4];
    let mut fresh = Vec::new();
    let truth = model.forward_batch(&tokens, 0, &mut fresh).pop().unwrap();

    assert_eq!(plan_prefill(&tokens, false, None), PrefillPlan::Fresh);
    for chunk in [None, Some(1), Some(3), Some(9)] {
        let mut cache = Vec::new();
        let mut logits = Vec::new();
        for (a, b) in prompt_chunks(tokens.len(), chunk) {
            logits = model.forward_batch(&tokens[a..b], a, &mut cache).pop().unwrap();
        }
        assert_eq!(cache.len(), fresh.len(), "must not push any position beyond the real prompt length");
        assert_eq!(logits, truth);
    }
}

#[test]
fn generate_greedy_output_matches_independent_step_by_step_computation() {
    let model = small_model();
    let prompt_ids = vec![1usize, 2, 3];
    let max_tokens = 8;
    let mut cache = Vec::new();
    let mut logits = model.forward_batch(&prompt_ids, 0, &mut cache).pop().unwrap();
    let mut pos = prompt_ids.len();
    let mut expected = String::new();
    for _ in 0..max_tokens {
        let next = argmax(&logits);
        expected.push(next as u8 as char);
        logits = model.forward_token(next, pos, &mut cache);
        pos += 1;
    }
    let got = generate(&model, None, None, &[1, 2, 3], &greedy_params(max_tokens), None, None).unwrap();
    assert_eq!(got.text, expected);
    assert_eq!(got.usage.completion_tokens, max_tokens);
}

#[test]
fn rejects_out_of_vocab_prompt_tokens() {
    // Raw bytes as tokens: a vocabulary of 32 has no ASCII letters.
    let model = Model { vocab_size: 32 };
    let result = generate(&model, None, None, b"hello", &greedy_params(4), None, None);
    assert!(matches!(result, Err(DecodeError::TokenOutOfVocab { .. })));
}

#[test]
fn greedy_generation_hits_length_without_eos() {
    let got = generate(&small_model(), None, None, &[1, 2, 3], &greedy_params(5), None, None).unwrap();
    assert_eq!(got.finish, FinishReason::Length);
}

#[test]
fn eos_token_stops_generation_before_max_tokens() {
    let model = small_model();
    let eos = argmax(&model.logits(&[1, 2]));
    let got = generate(&model, Some(eos), None, &[1, 2], &greedy_params(50), None, None).unwrap();
    assert_eq!(
        got.finish,
        FinishReason::Stop,
        "generation must stop as soon as the greedy-chosen token matches eos_id, not run to max_tokens"
    );
}

#[test]
fn a_stop_sequence_that_never_matches_does_not_drop_any_generated_content() {
    let model = small_model();
    let baseline = generate(&model, None, None, &[1], &greedy_params(20), None, None).unwrap();
    let params = params_with_stop(20, vec!["ZZ_NEVER_MATCHES_ZZ".to_string()]);
    let with_stop = generate(&model, None, None, &[1], &params, None, None).unwrap();
    assert_eq!(baseline.finish, FinishReason::Length);
    assert_eq!(with_stop.finish, FinishReason::Length);
    assert_eq!(with_stop.text, baseline.text);
}

#[test]
fn a_stop_sequence_that_does_match_truncates_output_before_it() {
    let model = small_model();
    let baseline = generate(&model, None, None, &[1], &greedy_params(20), None, None).unwrap().text;
    let (cut, _) = baseline.char_indices().nth(1).unwrap();
    let stop = baseline[cut..].to_string();
    assert!(!stop.is_empty());
    let got = generate(&model, None, None, &[1], &params_with_stop(20, vec![stop]), None, None).unwrap();
    assert_eq!(got.finish, FinishReason::Stop);
    assert_eq!(got.text, baseline[..cut]);
}

#[test]
fn prefix_cache_reuses_a_shared_prefix_and_produces_the_same_output_as_a_fresh_run() {
    let model = small_model();
    let mut pc = PrefixCache::default();
    generate(&model, None, None, &[1, 2, 3], &greedy_params(5), None, Some(&mut pc)).unwrap();
    assert_eq!(pc.misses, 1);

    let cached = generate(&model, None, None, &[1, 2, 3, 9, 9], &greedy_params(5), None, Some(&mut pc)).unwrap();
    assert_eq!(pc.hits, 1, "prompt2 must hit the stored prompt1 entry");
    assert_eq!(pc.reused, 3);
    let fresh = generate(&model, None, None, &[1, 2, 3, 9, 9], &greedy_params(5), None, None).unwrap();
    assert_eq!(cached.text, fresh.text);
    assert_eq!((cached.finish, cached.usage), (fresh.finish, fresh.usage));
}

#[test]
fn prefix_cache_exact_repeat_skips_prompt_processing_via_pending_logits() {
    let model = small_model();
    let mut pc = PrefixCache::default();
    generate(&model, None, None, &[1, 2, 3], &greedy_params(5), None, Some(&mut pc)).unwrap();
    let cached = generate(&model, None, None, &[1, 2, 3], &greedy_params(5), None, Some(&mut pc)).unwrap();
    let fresh = generate(&model, None, None, &[1, 2, 3], &greedy_params(5), None, None).unwrap();
    assert_eq!(cached.text, fresh.text);

    let whole = PrefixMatch { matched_len: 3, has_logits: true };
    assert_eq!(plan_prefill(&[1, 2, 3], false, Some(whole)), PrefillPlan::Pending);
    let part = PrefixMatch { matched_len: 3, has_logits: false };
    assert_eq!(plan_prefill(&[1, 2, 3], false, Some(part)), PrefillPlan::BackOff { to: 2 });
}

#[test]
fn prefix_cache_is_not_consulted_when_a_kv_pool_is_configured() {
    let model = small_model();
    let mut pc = PrefixCache::default();
    let mut pool = Pooled::new(64, 2, 0);
    for _ in 0..2 {
        generate(&model, None, None, &[1, 2, 3], &greedy_params(5), Some(&mut pool), Some(&mut pc)).unwrap();
    }
    assert_eq!(pc.hits + pc.misses, 0, "prefix cache must never be consulted while a KV pool is configured");
    assert!(pc.entries.is_empty());
    let hit = PrefixMatch { matched_len: 2, has_logits: true };
    assert_eq!(plan_prefill(&[1, 2, 3], true, Some(hit)), PrefillPlan::Fresh);
}

#[test]
fn generate_succeeds_with_a_pool_that_has_enough_blocks() {
    let mut pool = Pooled::new(64, 2, 0);
    let got = generate(&small_model(), None, None, &[1, 2], &greedy_params(5), Some(&mut pool), None).unwrap();
    assert_eq!(got.finish, FinishReason::Length);
    assert_eq!(pool.pool.free, 2, "every acquired block must be released once the request finishes");
}

#[test]
fn generate_reserves_enough_blocks_up_front_for_a_sequence_spanning_multiple_blocks() {
    let mut pool = Pooled::new(2, 12, 0);
    let got = generate(&small_model(), None, None, &[1, 2], &greedy_params(10), Some(&mut pool), None).unwrap();
    assert_eq!(got.finish, FinishReason::Length);
    assert_eq!(pool.pool.free, 12);
}

#[test]
fn generate_fails_at_admission_not_mid_decode_when_the_pool_cannot_cover_the_worst_case() {
    let mut pool = Pooled::new(2, 11, 0);
    let result = generate(&small_model(), None, None, &[1, 2], &greedy_params(10), Some(&mut pool), None);
    assert!(matches!(result, Err(DecodeError::KvPoolExhausted)));
    assert_eq!(pool.pool.free, 11, "a rejected request must leave the pool exactly as it found it");
}

#[test]
fn generate_rejects_the_request_without_leaking_blocks_when_the_pool_is_too_small() {
    let mut pool = Pooled::new(64, 1, 0);
    let result = generate(&small_model(), None, None, &[1, 2], &greedy_params(5), Some(&mut pool), None);
    assert!(matches!(result, Err(DecodeError::KvPoolExhausted)));
    assert_eq!(pool.pool.free, 1, "a rejected request must leave the pool exactly as it found it");
}

#[test]
fn generate_releases_blocks_so_back_to_back_requests_do_not_starve_the_pool() {
    let mut pool = Pooled::new(64, 2, 0);
    for _ in 0..3 {
        let got = generate(&small_model(), None, None, &[1, 2], &greedy_params(5), Some(&mut pool), None).unwrap();
        assert_eq!(got.finish, FinishReason::Length);
    }
    assert_eq!(pool.pool.free, 2);
}

#[test]
fn generate_with_zero_queue_wait_rejects_immediately() {
    let mut pool = Pooled::new(64, 1, 0);
    let result = generate(&small_model(), None, None, &[1, 2], &greedy_params(5), Some(&mut pool), None);
    assert!(matches!(result, Err(DecodeError::KvPoolExhausted)));
    assert_eq!(pool.attempts, 1, "queue_wait=0 must reject on the first attempt, not retry");
    assert_eq!(pool.now_ms, 0);
}

#[test]
fn generate_with_a_queue_wait_succeeds_once_another_holder_releases_its_blocks() {
    let mut pool = Pooled::new(64, 0, 500);
    pool.now_ms = 15;
    pool.returns = Some((80, 2));
    let got = generate(&small_model(), None, None, &[1, 2], &greedy_params(5), Some(&mut pool), None).unwrap();
    assert_eq!(
        got.finish,
        FinishReason::Length,
        "a sufficiently long queue_wait must let the request succeed once the holder releases"
    );
    assert_eq!(pool.pool.free, 2);
    assert_eq!(pool.now_ms, 85);
}

#[test]
fn a_prompt_is_run_in_passes_that_follow_each_other() {
    let request = Generation::start(vec![5, 6, 7, 8], Some(1), 10, 3, false).unwrap();
    assert_eq!(request.tokens(), [1, 5, 6, 7, 8]);
    assert_eq!(request.positions(), 8);
    let shape = |found: Option<PrefixMatch>, chunk: Option<usize>| -> Vec<(usize, Vec<usize>)> {
        request.prompting(found, chunk).passes.into_iter().map(|p| (p.from, p.tokens)).collect()
    };
    assert_eq!(shape(None, None), vec![(0, vec![1, 5, 6, 7, 8])]);
    assert_eq!(shape(None, Some(2)), vec![(0, vec![1, 5]), (2, vec![6, 7]), (4, vec![8])]);
    let part = PrefixMatch { matched_len: 3, has_logits: false };
    assert_eq!(shape(Some(part), Some(2)), vec![(3, vec![7]), (4, vec![8])]);
    let all = PrefixMatch { matched_len: 5, has_logits: false };
    assert_eq!(shape(Some(all), None), vec![(4, vec![8])]);
    let known = PrefixMatch { matched_len: 5, has_logits: true };
    assert!(shape(Some(known), None).is_empty());
}

#[test]
fn the_last_sleep_ends_at_the_deadline() {
    assert_eq!(after_attempt(false, 93, 100), AcquireStep::Sleep { ms: 7 });
    assert_eq!(after_attempt(false, 100, 100), AcquireStep::Return);
    assert_eq!(after_attempt(true, 0, 100), AcquireStep::Return);
}

#[test]
fn a_beginning_token_is_put_in_front_once() {
    assert_eq!(prepare_prompt(vec![5, 6], Some(1), 10).unwrap(), vec![1, 5, 6]);
    assert_eq!(prepare_prompt(vec![1, 6], Some(1), 10).unwrap(), vec![1, 6]);
    assert_eq!(prepare_prompt(vec![5], None, 10).unwrap(), vec![5]);
    assert_eq!(prepare_prompt(vec![], Some(1), 10).unwrap(), vec![1]);
}

#[test]
fn the_first_unknown_token_is_named() {
    assert_eq!(find_out_of_vocab(&[3, 40, 50], 32), Some(40));
    assert_eq!(find_out_of_vocab(&[3, 4], 32), None);
    let e = prepare_prompt(vec![3, 40, 50], None, 32).unwrap_err();
    assert_eq!(
        e.message().unwrap(),
        "prompt encoded to token id 40, which is outside this model's vocabulary of 32 (its tokenizer does not match this checkpoint)"
    );
    assert_eq!(e.retry_after_secs(), None);
    assert_eq!(DecodeError::KvPoolExhausted.retry_after_secs(), Some(1));
}

#[test]
fn an_empty_prompt_runs_a_stand_in_token() {
    assert_eq!(plan_prefill(&[], false, None), PrefillPlan::StandIn);
    let model = small_model();
    let got = generate(&model, None, None, &[], &greedy_params(1), None, None).unwrap();
    assert_eq!(got.text, (argmax(&model.logits(&[0])) as u8 as char).to_string());
    assert_eq!(got.usage.prompt_tokens, 0);
}

#[test]
fn prefill_chunks_come_from_the_environment_text() {
    assert_eq!(chunked_prefill_tokens(None), None);
    assert_eq!(chunked_prefill_tokens(Some("64")), Some(64));
    assert_eq!(chunked_prefill_tokens(Some("+8")), Some(8));
    assert_eq!(chunked_prefill_tokens(Some("0")), None);
    assert_eq!(chunked_prefill_tokens(Some("lots")), None);
    assert!(cpu_kv_offload_enabled(Some("1")));
    assert!(!cpu_kv_offload_enabled(Some("true")));
    assert!(!cpu_kv_offload_enabled(None));
}

#[test]
fn a_prompt_is_split_into_whole_chunks_and_a_tail() {
    assert_eq!(prompt_chunks(7, Some(3)), vec![(0, 3), (3, 6), (6, 7)]);
    assert_eq!(prompt_chunks(6, Some(3)), vec![(0, 3), (3, 6)]);
    assert_eq!(prompt_chunks(7, None), vec![(0, 7)]);
    assert!(prompt_chunks(0, Some(3)).is_empty());
}

#[test]
fn only_a_greedy_request_without_a_mask_is_folded() {
    let mut p = greedy_params(1);
    p.sampling.temperature_bits = 0f32.to_bits();
    assert!(greedy_gpu_fold_allowed(&p));
    p.sampling.temperature_bits = (-1f32).to_bits();
    assert!(greedy_gpu_fold_allowed(&p));
    p.sampling.temperature_bits = f32::NAN.to_bits();
    assert!(!greedy_gpu_fold_allowed(&p));
    p.sampling.temperature_bits = 0.7f32.to_bits();
    assert!(!greedy_gpu_fold_allowed(&p));
    p.sampling.temperature_bits = 0f32.to_bits();
    p.json_object = true;
    assert!(!greedy_gpu_fold_allowed(&p));
}

#[test]
fn a_partial_distribution_is_not_stored() {
    assert!(stores_prefix(false, true, 256, 256));
    assert!(!stores_prefix(false, true, 1, 256));
    assert!(!stores_prefix(true, true, 256, 256));
    assert!(!stores_prefix(false, false, 256, 256));
}

#[test]
fn finish_reasons_have_wire_names() {
    assert_eq!(FinishReason::Stop.as_str(), "stop");
    assert_eq!(FinishReason::Length.as_str(), "length");
}

#[test]
fn usage_adds_up() {
    let u = Usage::new(3, 4);
    assert_eq!((u.prompt_tokens, u.completion_tokens, u.total_tokens), (3, 4, 7));
}

#[test]
fn a_restored_prefix_changes_no_answer_that_ends_early() {
    let model = small_model();
    let fresh = |stop: Vec<String>, eos: Option<usize>| {
        generate(&model, eos, None, &[1, 2, 3, 4], &params_with_stop(12, stop), None, None).unwrap()
    };
    let whole = fresh(vec![], None).text;
    let stop: String = whole.chars().skip(4).take(2).collect();
    for (stop, eos) in [(vec![stop.clone()], None), (vec![], whole.chars().nth(3).map(|c| c as usize)), (vec![], None)] {
        let expected = fresh(stop.clone(), eos);
        for stored in [&[1u8, 2][..], &[1, 2, 3], &[1, 2, 3, 4]] {
            let mut pc = PrefixCache::default();
            generate(&model, None, None, stored, &greedy_params(0), None, Some(&mut pc)).unwrap();
            let got =
                generate(&model, eos, None, &[1, 2, 3, 4], &params_with_stop(12, stop.clone()), None, Some(&mut pc))
                    .unwrap();
            assert_eq!(pc.reused, stored.len());
            assert_eq!((got.text, got.finish, got.usage), (expected.text.clone(), expected.finish, expected.usage));
        }
    }
}
