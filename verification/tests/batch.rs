use ferrox::batch::aborts::apply_aborts;
use ferrox::batch::admission::{admit_jobs, submit};
use ferrox::batch::config::BatcherConfig;
use ferrox::batch::ledger::{BlockBudget, Prices};
use ferrox::batch::prefill::{accept, Completion, Job, Prefill, PrefillState, Reply};
use ferrox::batch::queue::{AbortInbox, IdSet, QueueGate};
use ferrox::batch::rows::{Rows, Slot};
use ferrox::batch::worker::{BatcherStats, Worker};
use ferrox::generate::{DecodeError, FinishReason, GenerationParams};
use ferrox::sample_step::SampleMode;
use ferrox::sampling::SamplingParams;
use ferrox::stop::StopMatcher;
use std::collections::{HashMap, VecDeque};

const VOCAB: usize = 26;

/// KV bytes per token position of the model under test.
const PER_TOKEN: u64 = 64;

fn kv_bytes(positions: usize) -> u64 {
    (positions as u64).saturating_mul(PER_TOKEN)
}

fn greedy_params(max_tokens: usize, seed: u64) -> GenerationParams {
    GenerationParams {
        max_tokens,
        sampling: SamplingParams::default(),
        seed,
        stop: vec![],
        stop_token_ids: Vec::new(),
        json_object: false,
        grammar: None,
        cancel: None,
        ignore_eos: false,
    }
}

/// A model whose next token depends on every token before it and on where
/// each of them stood.
fn model_next(seen: &[usize], seed: u64) -> usize {
    let mut h = seed as usize + 3;
    for (pos, &t) in seen.iter().enumerate() {
        h = (h * 31 + (t + 1) * (pos + 7)) % 1009;
    }
    h % VOCAB
}

fn letters(ids: &[usize]) -> String {
    ids.iter().map(|&id| char::from(b'A' + (id % 26) as u8)).collect()
}

fn sequential_ids(prompt: &[usize], params: &GenerationParams) -> Vec<usize> {
    let mut seen = if prompt.is_empty() { vec![0] } else { prompt.to_vec() };
    let mut generated = Vec::new();
    for _ in 0..params.max_tokens {
        let next = model_next(&seen, params.seed);
        generated.push(next);
        seen.push(next);
    }
    generated
}

/// The scheduler with a model behind it, one tick at a time.
struct Server {
    worker: Worker,
    queue: QueueGate,
    budget: BlockBudget,
    aborts: AbortInbox,
    seen: HashMap<u64, Vec<usize>>,
    owner: HashMap<u64, u64>,
    replies: Vec<Reply>,
    next_reply: u64,
    peak: usize,
    decode: fn(&[usize]) -> String,
}

impl Server {
    fn new(config: BatcherConfig) -> Server {
        Server {
            worker: Worker::new(VOCAB, config, false),
            queue: QueueGate::new(config.max_queue),
            budget: BlockBudget::new(config.kv_block_size, config.kv_blocks, config.max_context),
            aborts: AbortInbox::new(),
            seen: HashMap::new(),
            owner: HashMap::new(),
            replies: Vec::new(),
            next_reply: 0,
            peak: 0,
            decode: letters,
        }
    }

    /// Submits a request; its answer comes under the id this returns.
    fn submit(&mut self, prompt: Vec<usize>, params: GenerationParams, eos: Option<usize>) -> Result<u64, DecodeError> {
        let reply = self.next_reply;
        self.next_reply += 1;
        let positions = prompt.len().saturating_add(params.max_tokens);
        let limit = self.budget.total() * self.budget.block_size();
        let context = 6;
        let prices = Prices {
            request: kv_bytes(positions),
            context_limit: kv_bytes(context),
            device_limit: kv_bytes(limit),
        };
        let job = submit(prompt, params, eos, reply, prices, &mut self.queue, &mut self.budget, &mut self.aborts)?;
        let abort = job.abort;
        self.worker.enqueue(job);
        assert_eq!(abort + 1, self.aborts_handed_out());
        Ok(reply)
    }

    fn aborts_handed_out(&mut self) -> u64 {
        // Ids count up from zero, one per accepted job.
        let accepted = self.seen.len() as u64;
        self.seen.insert(accepted, Vec::new());
        accepted + 1
    }

    fn tick(&mut self) {
        let opened = self.worker.open_tick(&mut self.queue, &mut self.budget, &mut self.aborts);
        self.replies.extend(opened);
        self.peak = self.peak.max(self.stats().kv_blocks_peak);
        if let Some(run) = self.worker.prefill_step() {
            let seen = self.seen.get_mut(&run.abort).unwrap();
            assert_eq!(seen.len(), run.from, "a token must run at its own position");
            seen.extend(run.tokens);
            if let Some(uid) = run.row {
                self.owner.insert(uid, run.abort);
            }
        }
        let mut active = Vec::new();
        for uid in self.worker.ready() {
            let seed = self.worker.row(uid).unwrap().seed;
            let next = model_next(&self.seen[&self.owner[&uid]], seed);
            if !self.worker.on_sample(uid, next) {
                continue;
            }
            if self.worker.on_piece(uid, &(self.decode)(&[next])) {
                active.push(uid);
            }
        }
        if !active.is_empty() {
            let (tokens, positions) = self.worker.batch(&active);
            for (j, uid) in active.iter().enumerate() {
                let seen = self.seen.get_mut(&self.owner[uid]).unwrap();
                assert_eq!(seen.len(), positions[j]);
                seen.push(tokens[j]);
            }
            self.worker.step(&active);
        }
        let closed = self.worker.close_tick(&mut self.budget);
        self.replies.extend(closed);
    }

    fn run(&mut self) {
        let mut ticks = 0;
        while !self.worker.is_idle() {
            self.tick();
            ticks += 1;
            assert!(ticks < 100_000, "the scheduler is stuck");
        }
    }

    fn stats(&self) -> BatcherStats {
        self.worker.stats(&self.queue, &self.budget, &self.aborts)
    }

    fn answer(&mut self, to: u64) -> Result<Completion, DecodeError> {
        let at = self.replies.iter().position(|r| r.to == to).expect("an answer");
        let reply = self.replies.remove(at);
        assert!(self.replies.iter().all(|r| r.to != to), "answered exactly once");
        reply.result
    }

    fn generate(
        &mut self,
        prompt: Vec<usize>,
        params: GenerationParams,
        eos: Option<usize>,
    ) -> Result<Completion, DecodeError> {
        let to = self.submit(prompt, params, eos)?;
        self.run();
        self.answer(to)
    }
}

fn chunked(prefill_chunk: usize) -> BatcherConfig {
    BatcherConfig { prefill_chunk, ..BatcherConfig::default() }
}

fn budget_config(block_size: usize, blocks: usize) -> BatcherConfig {
    BatcherConfig { prefill_chunk: 1, kv_block_size: block_size, kv_blocks: Some(blocks), ..BatcherConfig::default() }
}

fn no_budget() -> BlockBudget {
    BlockBudget::new(256, None, None)
}

fn prices(positions: usize, context: usize, device: usize) -> Prices {
    Prices { request: kv_bytes(positions), context_limit: kv_bytes(context), device_limit: kv_bytes(device) }
}

fn test_slot(max_tokens: usize, seed: u64, reply: u64) -> Slot {
    Slot {
        pos: 0,
        generated_ids: Vec::new(),
        prompt_ids: Vec::new(),
        paged: false,
        visible: String::new(),
        stops: StopMatcher::new(vec![], vec![]),
        prompt_tokens: 0,
        max_tokens,
        eos_id: None,
        sampling: SamplingParams::default(),
        seed,
        json_object: false,
        grammar: None,
        reply,
        finish: None,
        abort: 0,
        blocks: 1,
    }
}

fn job(abort: u64, prompt: Vec<usize>, blocks: usize) -> Job {
    Job { prompt_tokens: prompt, params: greedy_params(4, 1), eos_id: None, reply: abort, abort, blocks }
}

fn ok(reply: Reply) -> Completion {
    reply.result.expect("ok")
}

#[test]
fn continuous_batch_matches_sequential_generate_token_ids() {
    let prompts: [Vec<usize>; 2] = [vec![1, 2, 3], vec![4, 5]];
    let params = [greedy_params(8, 7), greedy_params(5, 11)];
    for chunk in [1, 2, 64] {
        let mut server = Server::new(chunked(chunk));
        let a = server.submit(prompts[0].clone(), greedy_params(8, 7), None).unwrap();
        let b = server.submit(prompts[1].clone(), greedy_params(5, 11), None).unwrap();
        server.run();
        assert_eq!(server.answer(a).unwrap().ids, sequential_ids(&prompts[0], &params[0]));
        assert_eq!(server.answer(b).unwrap().ids, sequential_ids(&prompts[1], &params[1]));
    }
}

#[test]
fn continuous_batch_honors_stop_sequence_in_decoded_text() {
    let decode = |ids: &[usize]| -> String {
        ids.iter()
            .map(|id| match id % 3 {
                0 => 'X',
                1 => 'Y',
                _ => 'Z',
            })
            .collect()
    };
    let prompt = vec![1usize, 2, 3];
    let mut params = greedy_params(32, 3);
    // First generate without stop to learn the decoded stream.
    let ids = sequential_ids(&prompt, &params);
    let full: String = decode(&ids);
    assert!(full.len() >= 4, "need enough tokens to place a mid-stream stop");
    let stop = full[2..4].to_string();
    params.stop = vec![stop.clone()];

    let mut server = Server::new(chunked(2));
    server.decode = decode;
    let done = server.generate(prompt, params, None).expect("batch generate");
    assert_eq!(done.finish, FinishReason::Stop);
    assert!(
        !done.text.contains(&stop),
        "stop string must be trimmed from visible text: text={:?} stop={stop:?}",
        done.text
    );
    assert_eq!(&full[..full.find(&stop).unwrap()], done.text);
}

#[test]
fn prefill_step_chunk_is_bounded_and_resumable() {
    let prompt: Vec<usize> = (1..=7).collect();
    let mut state = PrefillState::new(prompt, 3);
    assert_eq!(state.tokens_remaining(), 7);
    assert_eq!(state.tokens_processed(), 0);

    assert!(!state.step_chunk());
    assert_eq!(state.tokens_processed(), 3, "a chunk may not overrun");
    assert_eq!(state.tokens_remaining(), 4);

    assert!(!state.step_chunk());
    assert_eq!(state.tokens_processed(), 6);

    assert!(state.step_chunk(), "final short chunk finishes the prompt");
    assert_eq!(state.tokens_processed(), 7);
    assert_eq!(state.tokens_remaining(), 0);
    assert!(state.is_done());
    assert!(state.step_chunk(), "stepping a finished prefill is a no-op");
    assert_eq!(state.tokens_processed(), 7);
}

#[test]
fn empty_prompt_prefills_one_stand_in_token() {
    let mut state = PrefillState::new(vec![], 4);
    assert_eq!(state.tokens_remaining(), 1);
    assert!(state.step_chunk());
    let (pos, tokens, _paged) = state.into_decode_start();
    assert_eq!(pos, 1);
    assert_eq!(tokens, vec![0]);
}

#[test]
fn prefill_chunking_does_not_change_logits() {
    let prompt: Vec<usize> = (0..11).map(|i| (i * 3 + 1) % 16).collect();
    let sequential: Vec<(usize, usize)> = prompt.iter().copied().enumerate().collect();
    for chunk in [1usize, 2, 5, 11, 64] {
        let mut state = PrefillState::new(prompt.clone(), chunk);
        let mut run = Vec::new();
        loop {
            let from = state.tokens_processed();
            let done = state.step_chunk();
            run.extend((from..state.tokens_processed()).map(|pos| (pos, state.token(pos))));
            if done {
                break;
            }
        }
        let (pos, _tokens, _paged) = state.into_decode_start();
        assert_eq!(pos, prompt.len());
        assert_eq!(run, sequential, "chunk size {chunk} changed what is run where");
    }
}

#[test]
fn long_prefill_does_not_freeze_an_in_flight_decode() {
    let mut server = Server::new(chunked(1));
    // A long-running decode, still generating while the second job's prompt
    // is chunked through.
    let decoding = server.submit(vec![1, 2], greedy_params(90, 5), None).unwrap();
    while server.stats().decode_steps < 2 {
        server.tick();
    }

    let long_prompt: Vec<usize> = (0..40).map(|i| (i % 16) + 1).collect();
    let total = long_prompt.len() as u64;
    let prefill_at_submit = server.stats().prefill_tokens;
    let prefilling = server.submit(long_prompt, greedy_params(1, 9), None).unwrap();
    for done in 1..=total {
        let before = server.stats();
        server.tick();
        let after = server.stats();
        assert_eq!(after.prefill_tokens - prefill_at_submit, done, "one bounded chunk per tick");
        assert_eq!(after.decode_steps, before.decode_steps + 1, "prefill froze decode");
    }

    server.run();
    assert_eq!(server.answer(prefilling).unwrap().ids.len(), 1);
    assert_eq!(server.answer(decoding).unwrap().ids.len(), 90);
}

#[test]
fn max_seqs_cap_counts_prefilling_prompts_and_still_serves_both() {
    let mut server = Server::new(BatcherConfig { max_seqs: 1, ..chunked(1) });
    let expected: Vec<Vec<usize>> = [(vec![1usize, 2, 3], 6u64), (vec![4usize, 5], 6)]
        .iter()
        .map(|(p, seed)| sequential_ids(p, &greedy_params(6, *seed)))
        .collect();
    let a = server.submit(vec![1, 2, 3], greedy_params(6, 6), None).unwrap();
    let b = server.submit(vec![4, 5], greedy_params(6, 6), None).unwrap();
    server.tick();
    assert_eq!(server.stats().queue_depth, 1, "a prefilling prompt holds the only seat");
    server.run();
    assert_eq!(server.answer(a).unwrap().ids, expected[0]);
    assert_eq!(server.answer(b).unwrap().ids, expected[1]);
}

#[test]
fn removing_a_row_never_reassigns_another_rows_state() {
    let mut rows = Rows::new();
    let a = rows.insert(test_slot(3, 11, 0));
    let b = rows.insert(test_slot(5, 22, 1));
    let c = rows.insert(test_slot(7, 33, 2));
    assert_eq!(rows.order(), vec![a, b, c]);

    let removed = rows.remove(b).expect("b was present");
    assert_eq!(removed.max_tokens, 5);

    assert!(
        rows.get(b).is_none(),
        "a stale uid must resolve to nothing, never to another request's row"
    );
    assert_eq!(rows.get(a).expect("a still in flight").max_tokens, 3);
    assert_eq!(
        rows.get(c).expect("c still in flight").max_tokens,
        7,
        "c must still be c after b left"
    );
    assert_eq!(rows.order(), vec![a, c], "admission order is preserved");
    assert_eq!(rows.len(), 2);

    // The positional equivalent, spelled out.
    let mut positional = vec![3usize, 5, 7];
    let c_index = 2;
    positional.swap_remove(1);
    assert_eq!(positional[1], 7, "C moved into B's index");
    assert!(positional.get(c_index).is_none(), "C's index now names nothing");
}

#[test]
fn uids_are_unique_and_insertion_does_not_disturb_existing_rows() {
    let mut rows = Rows::new();
    let a = rows.insert(test_slot(3, 11, 0));
    let b = rows.insert(test_slot(5, 22, 1));
    rows.remove(a);
    let c = rows.insert(test_slot(7, 33, 2));
    assert_ne!(c, a, "a uid is never reused after its row leaves");
    assert_ne!(c, b);
    assert_eq!(rows.get(b).expect("b untouched").max_tokens, 5);
    assert_eq!(rows.get(c).expect("c inserted").max_tokens, 7);
}

#[test]
fn flush_replies_on_each_rows_own_channel() {
    let mut rows = Rows::new();
    let mut b = test_slot(5, 22, 1);
    b.finish = Some(FinishReason::Stop);
    b.visible.push_str("bee");
    b.generated_ids.push(7);
    let a = rows.insert(test_slot(3, 11, 0));
    let b = rows.insert(b);
    let c = rows.insert(test_slot(7, 33, 2));

    assert_eq!(rows.ready(), vec![a, c], "a finished row takes no step");
    let mut replies = rows.flush_finished(&mut no_budget());
    assert!(rows.get(b).is_none());
    assert_eq!(rows.order(), vec![a, c]);

    assert_eq!(replies.len(), 1, "an unfinished row's caller must not be replied to");
    let reply = replies.remove(0);
    assert_eq!(reply.to, 1, "b's caller got a reply");
    let done = ok(reply);
    assert_eq!(done.finish, FinishReason::Stop);
    assert_eq!(done.ids, vec![7]);
    assert_eq!(done.text, "bee");
    assert_eq!(done.usage.completion_tokens, 1);
}

#[test]
fn a_row_leaving_mid_batch_does_not_shift_its_neighbours_output() {
    let prompts = [vec![1usize, 2, 3], vec![4usize, 5], vec![6usize]];
    let budgets = [25usize, 25, 20];
    let refs: Vec<Vec<usize>> =
        prompts.iter().zip(budgets.iter()).map(|(p, &n)| sequential_ids(p, &greedy_params(n, 4))).collect();

    // The middle row stops on a two-character run from its own stream, so it
    // leaves the batch while its neighbours decode on.
    let middle_text = letters(&refs[1]);
    assert!(middle_text.len() >= 4);
    let stop = middle_text[2..4].to_string();

    let mut server = Server::new(chunked(1));
    let mut handles = Vec::new();
    for i in 0..prompts.len() {
        let mut params = greedy_params(budgets[i], 4);
        if i == 1 {
            params.stop = vec![stop.clone()];
        }
        handles.push(server.submit(prompts[i].clone(), params, None).unwrap());
    }
    server.run();
    let got: Vec<Vec<usize>> = handles.into_iter().map(|to| server.answer(to).expect("generate").ids).collect();

    assert_eq!(got[0], refs[0], "row 0 received another row's output");
    assert_eq!(got[2], refs[2], "row 2 received another row's output");
    assert!(
        got[1].len() < refs[1].len() && refs[1].starts_with(&got[1]),
        "the stopped row must be a strict prefix of its own stream"
    );
}

#[test]
fn a_full_queue_refuses_new_jobs_with_queue_full() {
    let mut server = Server::new(BatcherConfig { max_queue: 0, ..BatcherConfig::default() });
    let err = server.generate(vec![1, 2, 3], greedy_params(4, 1), None).expect_err("a full queue must refuse");
    assert!(
        matches!(err, DecodeError::QueueFull { queued: 0, cap: 0 }),
        "expected QueueFull, got {err:?}"
    );
    assert_eq!(err.retry_after_secs(), Some(1), "a queue drains; say so");
    let stats = server.stats();
    assert_eq!(stats.queue_rejected, 1);
    assert_eq!(stats.queue_depth, 0, "a refused job holds nothing");
}

#[test]
fn queue_depth_returns_to_zero_after_a_served_request() {
    let mut server = Server::new(BatcherConfig { max_queue: 1, prefill_chunk: 1, ..BatcherConfig::default() });
    for _ in 0..3 {
        server
            .generate(vec![1, 2, 3], greedy_params(2, 1), None)
            .expect("a cap of 1 still serves requests one after another");
    }
    assert_eq!(server.stats().queue_depth, 0);
    assert_eq!(server.stats().queue_rejected, 0);
}

#[test]
fn blocks_are_counted_in_positions_and_always_round_up() {
    let budget = BlockBudget::new(4, Some(10), None);
    // A single-token request still holds a block.
    assert_eq!(budget.blocks_for(0), 1);
    assert_eq!(budget.blocks_for(1), 1);
    assert_eq!(budget.blocks_for(4), 1);
    // Rounding up, not down: 5 positions do not fit in one block.
    assert_eq!(budget.blocks_for(5), 2);
    assert_eq!(budget.blocks_for(8), 2);
    assert_eq!(budget.blocks_for(9), 3);
}

#[test]
fn an_unconfigured_budget_admits_everything() {
    let mut budget = BlockBudget::new(4, None, None);
    assert!(budget.immovable_refusal(usize::MAX, prices(0, 0, 0)).is_none());
    assert!(budget.try_reserve(1_000_000));
    budget.release(1_000_000);
}

#[test]
fn a_request_larger_than_the_whole_budget_is_refused_rather_than_queued() {
    // 2 blocks of 4 positions = 8 positions in the entire server.
    let mut server = Server::new(budget_config(4, 2));
    let err = server
        .generate(vec![1, 2, 3, 4, 5, 6], greedy_params(8, 1), None)
        .expect_err("14 positions cannot fit an 8-position server");
    match &err {
        DecodeError::KvBudgetExceeded {
            binding,
            estimated_bytes,
            limit_bytes,
            positions,
            positions_limit,
            detail,
        } => {
            assert_eq!(*binding, "device_memory_budget_exceeded");
            assert_eq!(*positions, 14);
            assert_eq!(*positions_limit, 8, "2 blocks x 4 positions");
            assert_eq!(*estimated_bytes, kv_bytes(14));
            assert_eq!(*limit_bytes, kv_bytes(8));
            assert!(estimated_bytes > limit_bytes);
            assert!(detail.contains("14"), "{detail}");
            assert_eq!(
                detail,
                "request needs 4 KV blocks (14 token positions at 4 per block) but this server's whole KV budget is 2 blocks; an idle server would refuse it identically"
            );
        }
        other => panic!("expected KvBudgetExceeded, got {other:?}"),
    }
    // Retrying it is pointless, and the error says so.
    assert_eq!(err.retry_after_secs(), None);

    let stats = server.stats();
    assert_eq!(stats.kv_rejected_too_large, 1);
    assert_eq!(
        stats.kv_rejected_context_length, 0,
        "no per-request context ceiling is configured here"
    );
    assert_eq!(stats.queue_rejected, 0, "too-big and under-pressure are different counters");
    assert_eq!(stats.queue_depth, 0, "an impossible request must not occupy a queue slot");
    assert_eq!(stats.kv_blocks_free, 2, "nothing was reserved");

    // A request that does fit still works on the same server.
    server.generate(vec![1, 2], greedy_params(2, 1), None).expect("4 positions fit");
}

#[test]
fn a_request_longer_than_the_context_ceiling_names_that_ceiling() {
    let mut server = Server::new(BatcherConfig {
        prefill_chunk: 1,
        max_context: Some(6),
        // A generous block budget, so the *only* thing that can bind is the
        // per-request context ceiling.
        kv_block_size: 4,
        kv_blocks: Some(1024),
        ..BatcherConfig::default()
    });

    let err = server
        .generate(vec![1, 2, 3, 4], greedy_params(4, 1), None)
        .expect_err("8 positions against a 6-position ceiling");
    match &err {
        DecodeError::KvBudgetExceeded {
            binding,
            estimated_bytes,
            limit_bytes,
            positions,
            positions_limit,
            detail,
        } => {
            assert_eq!(*binding, "context_length_exceeded");
            assert_eq!(*positions, 8);
            assert_eq!(*positions_limit, 6);
            assert_eq!(*estimated_bytes, kv_bytes(8));
            assert_eq!(*limit_bytes, kv_bytes(6));
            assert!(detail.contains("max_tokens"), "{detail}");
        }
        other => panic!("expected KvBudgetExceeded, got {other:?}"),
    }
    assert_eq!(err.retry_after_secs(), None);

    let stats = server.stats();
    assert_eq!(stats.kv_rejected_context_length, 1);
    assert_eq!(
        stats.kv_rejected_too_large, 0,
        "the machine's budget was never the binding ceiling"
    );
    assert_eq!(stats.queue_rejected, 0);

    // Exactly at the ceiling is admitted: the check is `>`, not `>=`, or
    // the advertised limit would be off by one.
    server.generate(vec![1, 2, 3, 4], greedy_params(2, 1), None).expect("6 positions is 6 positions");
}

#[test]
fn the_context_ceiling_is_reported_before_the_device_ceiling() {
    let mut server = Server::new(BatcherConfig {
        prefill_chunk: 1,
        max_context: Some(6),
        kv_block_size: 4,
        kv_blocks: Some(2),
        ..BatcherConfig::default()
    });
    let err = server
        .generate(vec![1, 2, 3, 4, 5, 6], greedy_params(8, 1), None)
        .expect_err("14 positions breaks both ceilings");
    assert!(
        matches!(
            &err,
            DecodeError::KvBudgetExceeded { binding, .. }
                if *binding == "context_length_exceeded"
        ),
        "got {err:?}"
    );
    let stats = server.stats();
    assert_eq!(stats.kv_rejected_context_length, 1);
    assert_eq!(stats.kv_rejected_too_large, 0);
}

#[test]
fn without_ceilings_nothing_is_refused_as_too_large() {
    let mut budget = BlockBudget::new(4, None, None);
    assert!(budget.immovable_refusal(1_000_000, prices(1_000_000, 0, 0)).is_none());
    assert_eq!(budget.rejected_too_large(), 0);
    assert_eq!(budget.rejected_context_length(), 0);
}

#[test]
fn concurrent_requests_never_hold_more_blocks_than_the_budget() {
    let mut server = Server::new(budget_config(4, 4));
    // Six requests of two blocks each against a four-block server.
    for i in 0..6 {
        server.submit(vec![1, 2, 3], greedy_params(5, i), None).unwrap();
    }
    server.run();
    assert_eq!(server.peak, 4, "two at a time, and never three");
    assert_eq!(server.replies.len(), 6);
    let stats = server.stats();
    assert!(
        stats.kv_blocks_peak <= stats.kv_blocks_total,
        "admission handed out {} blocks from a budget of {}",
        stats.kv_blocks_peak,
        stats.kv_blocks_total
    );
    assert_eq!(stats.kv_rejected_too_large, 0, "all six fit individually");
    assert_eq!(stats.kv_blocks_free, 4);
}

#[test]
fn every_admitted_request_gives_its_blocks_back() {
    let mut server = Server::new(budget_config(4, 4));
    for i in 0..8 {
        server.generate(vec![1, 2, 3], greedy_params(4, i), None).expect("generate");
        assert_eq!(server.stats().kv_blocks_free, 4);
    }
    let stats = server.stats();
    assert_eq!(stats.kv_blocks_free, stats.kv_blocks_total, "an idle server must own its whole budget again");
    assert!(stats.kv_blocks_peak > 0, "something was actually reserved");
}

#[test]
fn a_job_rejected_at_validation_gives_its_blocks_back() {
    let mut server = Server::new(budget_config(4, 4));
    let err = server.generate(vec![VOCAB + 1], greedy_params(2, 1), None).expect_err("no such token");
    match err {
        DecodeError::TokenOutOfVocab { token, vocab_size } => assert_eq!((token, vocab_size), (VOCAB + 1, VOCAB)),
        other => panic!("expected TokenOutOfVocab, got {other:?}"),
    }
    assert_eq!(server.stats().kv_blocks_free, 4);
    // And the server still works afterwards.
    server
        .generate(vec![1, 2], greedy_params(2, 1), None)
        .expect("a bad request must not poison the budget");
}

#[test]
fn a_head_job_that_does_not_fit_holds_the_line() {
    let config = budget_config(4, 4);
    let mut budget = BlockBudget::new(config.kv_block_size, config.kv_blocks, config.max_context);
    let mut queue = QueueGate::new(config.max_queue);
    // Two blocks already out to an in-flight request.
    assert!(budget.try_reserve(2));

    let mut waiting: VecDeque<Job> = VecDeque::new();
    waiting.push_back(Job { params: greedy_params(2, 1), ..job(0, vec![1, 2, 3], 3) });
    waiting.push_back(Job { params: greedy_params(2, 2), ..job(1, vec![1], 1) });
    // Both of them hold a queue slot.
    queue.try_reserve().expect("cap 512");
    queue.try_reserve().expect("cap 512");

    let mut prefills: VecDeque<Prefill> = VecDeque::new();
    admit_jobs(VOCAB, &mut waiting, &mut prefills, 0, &config, false, &mut queue, &mut budget);

    assert!(
        prefills.is_empty(),
        "the 1-block job must not jump the 3-block job that cannot fit"
    );
    assert_eq!(waiting.len(), 2);
    assert_eq!(queue.depth(), 2, "neither job has stopped waiting");

    // Once the in-flight request finishes, the line moves -- both, in order.
    budget.release(2);
    admit_jobs(VOCAB, &mut waiting, &mut prefills, 0, &config, false, &mut queue, &mut budget);
    assert_eq!(prefills.len(), 2);
    assert!(waiting.is_empty());
    assert_eq!(queue.depth(), 0);
    assert_eq!(budget.free(), 0, "3 + 1 blocks are now out");
}

#[test]
fn the_sequence_cap_and_the_block_cap_compose() {
    let config = BatcherConfig { max_seqs: 1, ..budget_config(4, 8) };
    let mut budget = BlockBudget::new(config.kv_block_size, config.kv_blocks, config.max_context);
    let mut queue = QueueGate::new(config.max_queue);
    let mut waiting: VecDeque<Job> = VecDeque::new();
    for i in 0..3 {
        waiting.push_back(Job { params: greedy_params(2, i), ..job(i, vec![1, 2], 1) });
        queue.try_reserve().expect("cap 512");
    }
    let mut prefills: VecDeque<Prefill> = VecDeque::new();
    admit_jobs(VOCAB, &mut waiting, &mut prefills, 0, &config, false, &mut queue, &mut budget);
    assert_eq!(prefills.len(), 1, "max_seqs still binds");
    assert_eq!(budget.free(), 7, "only the admitted job reserved");
    assert_eq!(waiting.len(), 2);
}

#[test]
fn a_decoding_request_stops_when_it_is_cancelled() {
    let mut server = Server::new(chunked(1));
    let to = server.submit(vec![1, 2, 3], greedy_params(4000, 9), None).unwrap();
    // Wait until it is genuinely decoding, so the cancel exercises the decode
    // path rather than the prefill.
    while server.stats().decode_steps < 3 {
        server.tick();
    }
    server.aborts.enqueue(0);
    server.run();
    let done = server.answer(to).expect("generate");
    assert_eq!(done.finish, FinishReason::Cancelled);
    assert!(done.ids.len() < 4000, "cancelling did not shorten the decode: {} tokens", done.ids.len());
    assert!(!done.ids.is_empty(), "the tokens produced before the cancel must survive it");
    assert_eq!(done.usage.completion_tokens, done.ids.len());
    assert_eq!(server.stats().aborted, 1);
}

#[test]
fn a_cancelled_row_leaves_through_the_one_exit_every_row_uses() {
    let mut rows = Rows::new();
    let mut budget = BlockBudget::new(4, Some(4), None);
    assert!(budget.try_reserve(2));

    let mut a = test_slot(9, 11, 0);
    a.abort = 7;
    a.blocks = 2;
    a.generated_ids.push(3);
    a.visible.push_str("hi");
    let b = test_slot(9, 22, 1);
    let a_uid = rows.insert(a);
    let b_uid = rows.insert(b);

    let mut ids = IdSet::new();
    ids.insert(7);
    let consumed = rows.mark_cancelled(&ids);
    assert_eq!(consumed, vec![7]);
    assert!(
        rows.get(a_uid).is_some(),
        "the row must still be in the table until the flush: its KV buffers are what the batch is built from"
    );
    assert_eq!(budget.free(), 2, "marking must not release blocks -- the flush does");

    let mut replies = rows.flush_finished(&mut budget);
    assert!(rows.get(a_uid).is_none());
    assert!(rows.get(b_uid).is_some(), "only the cancelled row left");
    assert_eq!(budget.free(), 4, "blocks came back exactly once");

    assert_eq!(replies.len(), 1, "a cancelled row must be replied to exactly once");
    let reply = replies.remove(0);
    assert_eq!(reply.to, 0, "the other row is untouched");
    let done = ok(reply);
    assert_eq!(done.finish, FinishReason::Cancelled);
    assert_eq!(done.ids, vec![3], "partial output survives the cancel");
    assert_eq!(done.text, "hi");
    assert!(rows.flush_finished(&mut budget).is_empty());
}

#[test]
fn a_cancel_that_arrives_before_its_job_is_not_lost() {
    let config = budget_config(4, 4);
    let mut inbox = AbortInbox::new();
    let mut queue = QueueGate::new(config.max_queue);
    let mut budget = BlockBudget::new(config.kv_block_size, config.kv_blocks, config.max_context);
    let mut carried = IdSet::new();
    let mut waiting = VecDeque::new();
    let mut prefills = VecDeque::new();
    let mut rows = Rows::new();

    // The cancel lands first, naming nothing.
    inbox.enqueue(42);
    let none = apply_aborts(
        &mut inbox,
        &mut carried,
        &mut waiting,
        &mut prefills,
        &mut rows,
        &mut queue,
        &mut budget,
    );
    assert!(none.is_empty());
    assert_eq!(inbox.aborted(), 0, "nothing to stop yet");

    // Now the job it names shows up.
    waiting.push_back(job(42, vec![1, 2], 1));
    queue.try_reserve().expect("cap");
    let mut replies = apply_aborts(
        &mut inbox,
        &mut carried,
        &mut waiting,
        &mut prefills,
        &mut rows,
        &mut queue,
        &mut budget,
    );

    assert!(waiting.is_empty(), "the late job must still be cancelled");
    assert_eq!(inbox.aborted(), 1);
    assert_eq!(queue.depth(), 0, "its queue slot came back");
    let done = ok(replies.remove(0));
    assert_eq!(done.finish, FinishReason::Cancelled);
    assert!(done.ids.is_empty(), "it never ran a token");
    assert_eq!(done.usage.prompt_tokens, 2);
}

#[test]
fn a_cancelled_prefill_is_abandoned_and_gives_its_blocks_back() {
    let config = budget_config(4, 4);
    let mut inbox = AbortInbox::new();
    let mut queue = QueueGate::new(config.max_queue);
    let mut budget = BlockBudget::new(config.kv_block_size, config.kv_blocks, config.max_context);
    let mut carried = IdSet::new();
    let mut waiting = VecDeque::new();
    let mut prefills = VecDeque::new();
    let mut rows = Rows::new();

    waiting.push_back(job(5, vec![1, 2, 3, 4], 1));
    queue.try_reserve().expect("cap");
    admit_jobs(VOCAB, &mut waiting, &mut prefills, 0, &config, false, &mut queue, &mut budget);
    assert_eq!(prefills.len(), 1);
    assert_eq!(budget.free(), 3, "the prefill holds its reservation");

    inbox.enqueue(5);
    let mut replies = apply_aborts(
        &mut inbox,
        &mut carried,
        &mut waiting,
        &mut prefills,
        &mut rows,
        &mut queue,
        &mut budget,
    );
    assert!(prefills.is_empty(), "the remaining chunks never run");
    assert_eq!(budget.free(), 4, "an abandoned prefill releases its blocks");
    assert_eq!(inbox.aborted(), 1);
    assert_eq!(ok(replies.remove(0)).finish, FinishReason::Cancelled);
}

#[test]
fn cancelling_one_request_leaves_its_neighbours_running() {
    let mut server = Server::new(chunked(1));
    let expected = sequential_ids(&[4, 5], &greedy_params(6, 3));
    let doomed = server.submit(vec![1, 2, 3], greedy_params(4000, 9), None).unwrap();
    let survivor = server.submit(vec![4, 5], greedy_params(6, 3), None).unwrap();
    while server.stats().decode_steps < 3 {
        server.tick();
    }
    server.aborts.enqueue(0);
    server.run();
    assert_eq!(server.answer(doomed).expect("generate").finish, FinishReason::Cancelled);
    let done = server.answer(survivor).expect("generate");
    assert_eq!(done.finish, FinishReason::Length);
    assert_eq!(done.ids, expected, "an uncancelled request must produce exactly what it would have alone");
}

#[test]
fn a_token_level_stop_ends_a_batched_row() {
    let mut server = Server::new(chunked(1));
    let baseline = sequential_ids(&[1, 2, 3], &greedy_params(8, 4));
    assert!(baseline.len() > 1, "need something to stop before the end");
    let stop_token = baseline[1];
    assert_ne!(baseline[0], stop_token);

    let done = server
        .generate(
            vec![1, 2, 3],
            GenerationParams { stop_token_ids: vec![stop_token], ..greedy_params(8, 4) },
            None,
        )
        .expect("generate");

    assert_eq!(done.finish, FinishReason::Stop);
    assert_eq!(done.ids, baseline[..1].to_vec(), "the stop token itself is not part of the answer");
    assert_eq!(done.usage.completion_tokens, 1);
}

#[test]
fn an_end_of_sequence_token_ends_a_batched_row() {
    let mut server = Server::new(chunked(1));
    let baseline = sequential_ids(&[1, 2, 3], &greedy_params(8, 4));
    let done = server.generate(vec![1, 2, 3], greedy_params(8, 4), Some(baseline[0])).expect("generate");
    assert_eq!(done.finish, FinishReason::Stop);
    assert!(done.ids.is_empty());
}

#[test]
fn a_multi_token_stop_string_truncates_a_batched_row() {
    let mut server = Server::new(chunked(1));
    let baseline = sequential_ids(&[1, 2, 3], &greedy_params(8, 4));
    let full = letters(&baseline);
    if full.chars().count() < 4 {
        return;
    }
    // Two characters out of the middle, so the match spans a token boundary
    // and the first character is a partial for a while.
    let cut: Vec<char> = full.chars().collect();
    let stop_str: String = cut[1..3].iter().collect();
    let expected: String = cut[..1].iter().collect();

    let done = server
        .generate(vec![1, 2, 3], GenerationParams { stop: vec![stop_str.clone()], ..greedy_params(8, 4) }, None)
        .expect("generate");

    assert_eq!(done.finish, FinishReason::Stop);
    assert_eq!(done.text, expected, "a stop spanning two tokens must cut where it starts");
    assert!(!done.text.contains(&stop_str));
}

#[test]
fn a_batched_row_that_never_matches_loses_no_output() {
    let mut server = Server::new(chunked(1));
    let baseline = sequential_ids(&[1, 2, 3], &greedy_params(8, 4));
    let expected = letters(&baseline);

    let done = server
        .generate(
            vec![1, 2, 3],
            GenerationParams { stop: vec!["ZZ_NEVER_MATCHES_ZZ".to_string()], ..greedy_params(8, 4) },
            None,
        )
        .expect("generate");
    assert_eq!(done.finish, FinishReason::Length);
    assert_eq!(done.ids, baseline);
    assert_eq!(done.text, expected, "buffering is about when text is released, never whether");
}

#[test]
fn an_uncancelled_request_is_unaffected_by_the_abort_path() {
    let mut server = Server::new(chunked(1));
    let mut params = greedy_params(6, 3);
    params.cancel = Some(1);
    let done = server.generate(vec![4, 5], params, None).expect("generate");
    assert_eq!(done.finish, FinishReason::Length);
    assert_eq!(done.ids, sequential_ids(&[4, 5], &greedy_params(6, 3)));
    assert_eq!(server.stats().aborted, 0);
}

#[test]
fn a_finished_batched_row_publishes_its_prefix() {
    let prompt = vec![1usize, 2, 3, 4, 5, 6, 7, 8];
    let mut prefill = accept(VOCAB, job(0, prompt.clone(), 1), 1, true).expect("admitted");
    while !prefill.state.step_chunk() {}
    let mut slot = prefill.into_slot();
    assert_eq!(slot.pos, 8);
    assert!(slot.on_sample(9));
    slot.advance();
    slot.finish = Some(FinishReason::Length);

    let mut rows = Rows::new();
    rows.insert(slot);
    let replies = rows.flush_finished(&mut no_budget());
    let published = replies[0].publish.as_ref().expect("a finished paged row must leave its prefix");
    assert_eq!(&published[..prompt.len()], &prompt[..], "a finished paged row must leave its whole prefix");
    assert_eq!(published[prompt.len()..], [9]);
}

#[test]
fn a_row_with_its_own_caches_publishes_nothing() {
    let mut rows = Rows::new();
    let mut slot = test_slot(1, 1, 0);
    slot.finish = Some(FinishReason::Stop);
    rows.insert(slot);
    assert!(rows.flush_finished(&mut no_budget())[0].publish.is_none());
}

#[test]
fn an_empty_prompt_is_counted_as_empty() {
    let mut server = Server::new(chunked(4));
    let done = server.generate(vec![], greedy_params(3, 1), None).unwrap();
    assert_eq!(done.usage.prompt_tokens, 0);
    assert_eq!(done.usage.total_tokens, 3);
    assert_eq!(done.ids, sequential_ids(&[], &greedy_params(3, 1)));
}

#[test]
fn a_row_for_no_tokens_is_never_ready() {
    let mut budget = no_budget();
    let mut rows = Rows::new();
    let uid = rows.insert(test_slot(0, 1, 0));
    assert!(rows.ready().is_empty());
    rows.get_mut(uid).unwrap().finish = Some(FinishReason::Length);
    assert_eq!(rows.blocks_held(), 1);
    assert_eq!(rows.flush_finished(&mut budget).len(), 1);
    assert!(rows.is_empty());
}

#[test]
fn the_default_snapshot_is_all_zero() {
    let server = Server::new(BatcherConfig::default());
    let stats = server.stats();
    assert_eq!(stats, BatcherStats { kv_block_size: 256, ..BatcherStats::default() });
}

#[test]
fn a_queue_slot_goes_to_the_first_callers_and_to_nobody_after() {
    for (cap, calls) in [(3usize, 5usize), (3, 3), (3, 2), (0, 2)] {
        let mut gate = QueueGate::new(cap);
        let results: Vec<Result<(), usize>> = (0..calls).map(|_| gate.try_reserve()).collect();
        assert_eq!(results.iter().filter(|r| r.is_ok()).count(), calls.min(cap));
        assert!(results.iter().take(calls.min(cap)).all(|r| r.is_ok()));
        assert!(results.iter().skip(cap).all(|r| *r == Err(cap)), "a refusal names the cap");
        assert_eq!(gate.depth(), calls.min(cap));
        assert_eq!(gate.rejected(), calls.saturating_sub(cap) as u64);
    }
}

#[test]
fn an_answer_does_not_depend_on_who_shares_the_batch() {
    let ask = || GenerationParams { stop: vec!["QQ".to_string()], ..greedy_params(9, 5) };
    let mut quiet = Server::new(chunked(2));
    let alone = quiet.generate(vec![3, 1, 4], ask(), Some(15)).unwrap();

    let mut busy = Server::new(chunked(2));
    let before = busy.submit(vec![2, 7, 1, 8], greedy_params(12, 1), None).unwrap();
    let to = busy.submit(vec![3, 1, 4], ask(), Some(15)).unwrap();
    let cancelled = busy.submit(vec![5], greedy_params(30, 2), None).unwrap();
    for _ in 0..4 {
        busy.tick();
    }
    let late = busy.submit(vec![6, 6], greedy_params(3, 9), None).unwrap();
    busy.aborts.enqueue(2);
    busy.run();
    let among = busy.answer(to).unwrap();
    assert_eq!((among.ids, among.text), (alone.ids, alone.text));
    assert_eq!((among.finish, among.usage), (alone.finish, alone.usage));
    assert_eq!(busy.answer(before).unwrap().ids, sequential_ids(&[2, 7, 1, 8], &greedy_params(12, 1)));
    assert_eq!(busy.answer(cancelled).unwrap().finish, FinishReason::Cancelled);
    let short = busy.answer(late).unwrap();
    assert_eq!((short.ids.len(), short.finish), (3, FinishReason::Length));
    assert!(busy.replies.is_empty(), "nobody is answered twice");
}

#[test]
fn a_row_is_masked_when_its_request_is() {
    let mut slot = test_slot(4, 1, 0);
    assert_eq!(slot.sample_mode(1), SampleMode::Plain);
    slot.json_object = true;
    assert_eq!(slot.sample_mode(16), SampleMode::JsonMasked);
}

#[test]
fn a_new_worker_has_row_ids_left() {
    assert!(Server::new(BatcherConfig::default()).worker.has_row_ids());
    assert!(Rows::new().has_ids());
}
