//! Who joins the batch: strict first come, first served, under a cap on
//! sequences and a cap on blocks.
use std::collections::VecDeque;
use vstd::prelude::*;
use crate::batch::config::BatcherConfig;
use crate::batch::ledger::{blocks_needed, is_budget_refusal, device_detail, BlockBudget, Prices};
use crate::batch::prefill::{accept, Job, Prefill, Reply};
use crate::batch::queue::{AbortInbox, QueueGate};
use crate::batch::totals::{lemma_filter_first, lemma_filter_step, lemma_total_concat, lemma_total_push, total};
use crate::budget::context_detail;
use crate::generate::{in_vocab, DecodeError, GenerationParams};

verus! {

/// A job's share of the block budget.
pub open spec fn job_blocks() -> spec_fn(Job) -> int {
    |j: Job| j.blocks as int
}

/// A prefill's share of the block budget.
pub open spec fn prefill_blocks() -> spec_fn(Prefill) -> int {
    |p: Prefill| p.blocks as int
}

/// A job whose prompt this model can run.
pub open spec fn runnable(vocab: usize) -> spec_fn(Job) -> bool {
    |j: Job| in_vocab(j.prompt_tokens@, vocab)
}

/// A job whose prompt this model cannot run.
pub open spec fn unrunnable(vocab: usize) -> spec_fn(Job) -> bool {
    |j: Job| !in_vocab(j.prompt_tokens@, vocab)
}

/// What admission has left to give.
pub struct Room {
    /// Sequences that may still join.
    pub seqs: int,
    /// Blocks that may still be reserved; `None` without a block budget.
    pub blocks: Option<int>,
}

impl Room {
    /// `job` can join now.
    pub open spec fn takes(self, job: Job) -> bool {
        &&& self.seqs > 0
        &&& self.blocks is Some ==> job.blocks <= self.blocks->0
    }

    /// What is left once `job` has left the queue. One that cannot run
    /// gives its reservation straight back.
    pub open spec fn after(self, job: Job, vocab: usize) -> Room {
        if in_vocab(job.prompt_tokens@, vocab) {
            Room {
                seqs: self.seqs - 1,
                blocks: match self.blocks {
                    Some(b) => Some(b - job.blocks),
                    None => None,
                },
            }
        } else {
            self
        }
    }
}

/// How many jobs leave the queue: they go from the head, and the first that
/// does not fit stops the line.
pub open spec fn admitted(waiting: Seq<Job>, room: Room, vocab: usize) -> int
    decreases waiting.len(),
{
    if waiting.len() == 0 || !room.takes(waiting[0]) {
        0
    } else {
        1 + admitted(waiting.skip(1), room.after(waiting[0], vocab), vocab)
    }
}

/// The room that `decoding` rows and `prefilling` prompts leave.
pub open spec fn room_of(max_seqs: usize, decoding: int, prefilling: int, budget: &BlockBudget) -> Room {
    Room {
        seqs: max_seqs - decoding - prefilling,
        blocks: match budget.blocks() {
            Some(_) => Some(budget.unreserved()),
            None => None,
        },
    }
}

pub proof fn lemma_admitted_bounds(waiting: Seq<Job>, room: Room, vocab: usize)
    ensures
        0 <= admitted(waiting, room, vocab) <= waiting.len(),
    decreases waiting.len(),
{
    if waiting.len() > 0 && room.takes(waiting[0]) {
        lemma_admitted_bounds(waiting.skip(1), room.after(waiting[0], vocab), vocab);
    }
}

/// Admits as many waiting jobs as both caps allow, turning each into a
/// prefill. Prompts still prefilling count against the sequence cap: they
/// hold a full set of KV caches. The blocks are reserved for the request's
/// whole lifetime.
pub fn admit_jobs(
    vocab_size: usize,
    waiting: &mut VecDeque<Job>,
    prefills: &mut VecDeque<Prefill>,
    decoding: usize,
    config: &BatcherConfig,
    paged: bool,
    queue: &mut QueueGate,
    budget: &mut BlockBudget,
) -> (replies: Vec<Reply>)
    requires
        config.prefill_chunk > 0,
        old(queue).wf(),
        old(queue).waiting() >= old(waiting)@.len(),
        old(budget).wf(),
    ensures
        ({
            let room = room_of(config.max_seqs, decoding as int, old(prefills)@.len() as int, old(budget));
            let n = admitted(old(waiting)@, room, vocab_size);
            let gone = old(waiting)@.take(n);
            &&& 0 <= n <= old(waiting)@.len()
            &&& final(waiting)@ == old(waiting)@.skip(n)
            &&& final(queue).waiting() == old(queue).waiting() - n
            &&& joined(
                final(prefills)@,
                old(prefills)@,
                gone.filter(runnable(vocab_size)),
                config.prefill_chunk,
                paged,
            )
            &&& refused(replies@, gone.filter(unrunnable(vocab_size)), vocab_size)
            &&& final(budget).blocks() is Some ==> final(budget).reserved() == old(budget).reserved() + total(
                gone.filter(runnable(vocab_size)),
                job_blocks(),
            )
        }),
        final(queue).wf(),
        final(queue).capacity() == old(queue).capacity(),
        final(queue).refusals() == old(queue).refusals(),
        final(budget).wf(),
        final(budget).same_limits(old(budget)),
        final(budget).too_large() == old(budget).too_large(),
        final(budget).too_long() == old(budget).too_long(),
        final(budget).blocks() is None ==> final(budget).unreserved() == old(budget).unreserved(),
{
    let mut replies: Vec<Reply> = Vec::new();
    let ghost all = waiting@;
    let ghost start = room_of(config.max_seqs, decoding as int, prefills@.len() as int, budget);
    let ghost mut n: int = 0;
    proof {
        reveal(Seq::filter);
        assert(all.take(0) =~= Seq::empty());
        assert(all.skip(0) =~= all);
        lemma_admitted_bounds(all, start, vocab_size);
    }
    while waiting.len() > 0
        invariant_except_break
            admitted(all, start, vocab_size) == n + admitted(
                all.skip(n),
                room_of(config.max_seqs, decoding as int, prefills@.len() as int, budget),
                vocab_size,
            ),
        invariant
            config.prefill_chunk > 0,
            0 <= n <= all.len(),
            waiting@ == all.skip(n),
            queue.wf(),
            queue.capacity() == old(queue).capacity(),
            queue.refusals() == old(queue).refusals(),
            queue.waiting() == old(queue).waiting() - n,
            old(queue).waiting() >= all.len(),
            joined(prefills@, old(prefills)@, all.take(n).filter(runnable(vocab_size)), config.prefill_chunk, paged),
            refused(replies@, all.take(n).filter(unrunnable(vocab_size)), vocab_size),
            budget.wf(),
            budget.same_limits(old(budget)),
            budget.too_large() == old(budget).too_large(),
            budget.too_long() == old(budget).too_long(),
            budget.blocks() is None ==> budget.unreserved() == old(budget).unreserved(),
            budget.blocks() is Some ==> budget.reserved() == old(budget).reserved() + total(
                all.take(n).filter(runnable(vocab_size)),
                job_blocks(),
            ),
        ensures
            admitted(all, start, vocab_size) == n,
        decreases all.len() - n,
    {
        let ghost room = room_of(config.max_seqs, decoding as int, prefills@.len() as int, budget);
        let ghost head = all[n];
        proof {
            assert(waiting@[0] == head);
            budget.law_blocks_are_accounted_for();
        }
        if prefills.len() >= config.max_seqs || decoding >= config.max_seqs - prefills.len() {
            break;
        }
        let blocks: usize = waiting[0].blocks;
        if !budget.try_reserve(blocks) {
            break;
        }
        proof {
            lemma_filter_step(all, n, runnable(vocab_size));
            lemma_filter_step(all, n, unrunnable(vocab_size));
            lemma_total_push(all.take(n).filter(runnable(vocab_size)), head, job_blocks());
            assert(all.skip(n).skip(1) =~= all.skip(n + 1));
        }
        match waiting.pop_front() {
            Some(job) => {
                assert(waiting@ =~= all.skip(n + 1));
                queue.release();
                match accept(vocab_size, job, config.prefill_chunk, paged) {
                    Ok(prefill) => {
                        prefills.push_back(prefill);
                        assert(room_of(config.max_seqs, decoding as int, prefills@.len() as int, budget)
                            == room.after(head, vocab_size));
                    },
                    Err(reply) => {
                        replies.push(reply);
                        budget.release(blocks);
                        assert(room_of(config.max_seqs, decoding as int, prefills@.len() as int, budget)
                            == room.after(head, vocab_size));
                    },
                }
                proof {
                    n = n + 1;
                }
            },
            None => {
                assert(false);
            },
        }
    }
    replies
}

/// The prompts that joined: `before`, then one fresh prefill per job.
pub open spec fn joined(
    after: Seq<Prefill>,
    before: Seq<Prefill>,
    jobs: Seq<Job>,
    chunk: usize,
    paged: bool,
) -> bool {
    &&& after.len() == before.len() + jobs.len()
    &&& forall|k: int| 0 <= k < before.len() ==> #[trigger] after[k] == before[k]
    &&& forall|k: int| 0 <= k < jobs.len() ==> fresh(after[before.len() + k], #[trigger] jobs[k], chunk, paged)
}

/// The prefill a job starts as.
pub open spec fn fresh(p: Prefill, job: Job, chunk: usize, paged: bool) -> bool {
    p.starts(job, chunk, paged) && p.wf()
}

/// Each of `jobs` is told which of its tokens the model does not have.
pub open spec fn refused(replies: Seq<Reply>, jobs: Seq<Job>, vocab: usize) -> bool {
    &&& replies.len() == jobs.len()
    &&& forall|k: int|
        0 <= k < replies.len() ==> (#[trigger] replies[k]).is_out_of_vocab(
            jobs[k].reply,
            jobs[k].prompt_tokens@,
            vocab,
        )
}

/// The room left once all of `jobs` have left the queue.
pub open spec fn room_after(room: Room, jobs: Seq<Job>, vocab: usize) -> Room
    decreases jobs.len(),
{
    if jobs.len() == 0 {
        room
    } else {
        room_after(room.after(jobs[0], vocab), jobs.skip(1), vocab)
    }
}

/// Nobody is skipped over: those admitted are the head of the line, and the
/// first that stays is one that did not fit when its turn came.
pub proof fn law_first_come_first_served(waiting: Seq<Job>, room: Room, vocab: usize)
    ensures
        ({
            let n = admitted(waiting, room, vocab);
            &&& 0 <= n <= waiting.len()
            &&& n < waiting.len() ==> !room_after(room, waiting.take(n), vocab).takes(waiting[n])
            &&& forall|k: int|
                0 <= k < n ==> room_after(room, #[trigger] waiting.take(k), vocab).takes(waiting[k])
        }),
    decreases waiting.len(),
{
    let n = admitted(waiting, room, vocab);
    assert(room_after(room, waiting.take(0), vocab) == room);
    if waiting.len() > 0 && room.takes(waiting[0]) {
        let rest = waiting.skip(1);
        let next = room.after(waiting[0], vocab);
        law_first_come_first_served(rest, next, vocab);
        assert forall|k: int| 1 <= k <= waiting.len() implies room_after(room, #[trigger] waiting.take(k), vocab)
            == room_after(next, rest.take(k - 1), vocab) by {
            assert(waiting.take(k).skip(1) =~= rest.take(k - 1));
        }
        assert forall|k: int| 0 <= k < n implies room_after(room, #[trigger] waiting.take(k), vocab).takes(
            waiting[k],
        ) by {
            if k > 0 {
                assert(room_after(next, rest.take(k - 1), vocab).takes(rest[k - 1]));
            }
        }
    }
}

/// Neither cap is ever exceeded: admission spends only room it has, one
/// sequence and its own blocks for each job that runs.
pub proof fn law_caps_hold(waiting: Seq<Job>, room: Room, vocab: usize)
    requires
        room.seqs >= 0,
        room.blocks is Some ==> room.blocks->0 >= 0,
    ensures
        ({
            let gone = waiting.take(admitted(waiting, room, vocab));
            let left = room_after(room, gone, vocab);
            &&& left.seqs >= 0
            &&& left.blocks is Some ==> left.blocks->0 >= 0
        }),
    decreases waiting.len(),
{
    let n = admitted(waiting, room, vocab);
    lemma_admitted_bounds(waiting, room, vocab);
    if waiting.len() > 0 && room.takes(waiting[0]) {
        law_caps_hold(waiting.skip(1), room.after(waiting[0], vocab), vocab);
        lemma_admitted_bounds(waiting.skip(1), room.after(waiting[0], vocab), vocab);
        assert(waiting.take(n).skip(1) =~= waiting.skip(1).take(n - 1));
    }
}

/// What the jobs that left took: one sequence and its own blocks for each
/// that runs.
pub proof fn law_room_is_spent_on_runnable_jobs(room: Room, jobs: Seq<Job>, vocab: usize)
    ensures
        ({
            let ran = jobs.filter(runnable(vocab));
            let left = room_after(room, jobs, vocab);
            &&& left.seqs == room.seqs - ran.len()
            &&& left.blocks is Some <==> room.blocks is Some
            &&& room.blocks is Some ==> left.blocks->0 == room.blocks->0 - total(ran, job_blocks())
        }),
    decreases jobs.len(),
{
    reveal(Seq::filter);
    if jobs.len() > 0 {
        let rest = jobs.skip(1);
        law_room_is_spent_on_runnable_jobs(room.after(jobs[0], vocab), rest, vocab);
        lemma_filter_first(jobs, runnable(vocab));
        let one = if in_vocab(jobs[0].prompt_tokens@, vocab) { seq![jobs[0]] } else { Seq::empty() };
        lemma_total_concat(one, rest.filter(runnable(vocab)), job_blocks());
        if in_vocab(jobs[0].prompt_tokens@, vocab) {
            lemma_total_push(Seq::empty(), jobs[0], job_blocks());
            assert(Seq::<Job>::empty().push(jobs[0]) =~= seq![jobs[0]]);
        }
    }
}

/// An idle server is never stuck: with nothing in flight and every waiting
/// job small enough for the whole budget, either the queue empties or some
/// prompt starts.
pub proof fn law_an_idle_server_serves(waiting: Seq<Job>, room: Room, vocab: usize)
    requires
        room.seqs > 0,
        forall|k: int|
            0 <= k < waiting.len() && room.blocks is Some ==> (#[trigger] waiting[k]).blocks <= room.blocks->0,
    ensures
        ({
            let n = admitted(waiting, room, vocab);
            n == waiting.len() || waiting.take(n).filter(runnable(vocab)).len() > 0
        }),
    decreases waiting.len(),
{
    lemma_admitted_bounds(waiting, room, vocab);
    let n = admitted(waiting, room, vocab);
    if waiting.len() > 0 {
        let rest = waiting.skip(1);
        assert(room.takes(waiting[0]));
        lemma_admitted_bounds(rest, room.after(waiting[0], vocab), vocab);
        lemma_filter_first(waiting.take(n), runnable(vocab));
        assert(waiting.take(n).skip(1) =~= rest.take(n - 1));
        if !in_vocab(waiting[0].prompt_tokens@, vocab) {
            assert forall|k: int| 0 <= k < rest.len() && room.blocks is Some implies (#[trigger] rest[k]).blocks
                <= room.blocks->0 by {
                assert(rest[k] == waiting[k + 1]);
            }
            law_an_idle_server_serves(rest, room, vocab);
        }
    }
}

/// The positions a request asks for: its prompt and its whole output.
pub open spec fn positions_asked(prompt_len: int, max_tokens: usize) -> int {
    if prompt_len + max_tokens <= usize::MAX {
        prompt_len + max_tokens
    } else {
        usize::MAX as int
    }
}

/// A request of this many positions that no wait would ever make fit.
pub open spec fn never_fits(budget: &BlockBudget, positions: int) -> bool {
    ||| budget.context() is Some && positions > budget.context()->0
    ||| budget.blocks() is Some && blocks_needed(positions, budget.size()) > budget.blocks()->0
}

/// Turns a request into a job that holds a queue slot. One that could never
/// fit is refused first, with the ceiling named; then one too many for the
/// queue.
pub fn submit(
    prompt_tokens: Vec<usize>,
    params: GenerationParams,
    eos_id: Option<usize>,
    reply: u64,
    prices: Prices,
    queue: &mut QueueGate,
    budget: &mut BlockBudget,
    aborts: &mut AbortInbox,
) -> (r: Result<Job, DecodeError>)
    requires
        old(queue).wf(),
        old(budget).wf(),
        old(aborts).wf(),
        old(budget).blocks() is Some ==> old(budget).blocks()->0 * old(budget).size() <= usize::MAX,
    ensures
        final(queue).wf(),
        final(queue).capacity() == old(queue).capacity(),
        final(budget).wf(),
        final(budget).same_limits(old(budget)),
        final(budget).unreserved() == old(budget).unreserved(),
        final(aborts).wf(),
        final(aborts).pending() == old(aborts).pending(),
        final(aborts).stopped() == old(aborts).stopped(),
        ({
            let positions = positions_asked(prompt_tokens@.len() as int, params.max_tokens);
            let hopeless = never_fits(old(budget), positions);
            let full = old(queue).waiting() >= old(queue).capacity();
            &&& r is Ok <==> !hopeless && !full
            &&& final(queue).waiting() == old(queue).waiting() + if r is Ok { 1int } else { 0 }
            &&& final(queue).refusals() == if !hopeless && full {
                old(queue).refusals().wrapping_add(1)
            } else {
                old(queue).refusals()
            }
            &&& final(aborts).next() == if r is Ok { old(aborts).next().wrapping_add(1) } else { old(aborts).next() }
            &&& r matches Ok(job) ==> job.prompt_tokens == prompt_tokens && job.params == params && job.eos_id == eos_id
                && job.reply == reply && job.abort == old(aborts).next() && job.blocks == blocks_needed(
                positions,
                old(budget).size(),
            )
            &&& !hopeless && full ==> r == Err::<Job, DecodeError>(
                (DecodeError::QueueFull {
                    queued: old(queue).waiting() as usize,
                    cap: old(queue).capacity() as usize,
                }),
            )
            &&& !hopeless ==> final(budget).too_long() == old(budget).too_long() && final(budget).too_large() == old(
                budget,
            ).too_large()
            &&& hopeless ==> r is Err && if old(budget).context() is Some && positions > old(budget).context()->0 {
                &&& final(budget).too_long() == old(budget).too_long().wrapping_add(1)
                &&& final(budget).too_large() == old(budget).too_large()
                &&& is_budget_refusal(
                    r->Err_0,
                    "context_length_exceeded"@,
                    prices.request,
                    prices.context_limit,
                    positions,
                    old(budget).context()->0 as int,
                    context_detail(positions, old(budget).context()->0 as int),
                )
            } else {
                &&& final(budget).too_large() == old(budget).too_large().wrapping_add(1)
                &&& final(budget).too_long() == old(budget).too_long()
                &&& is_budget_refusal(
                    r->Err_0,
                    "device_memory_budget_exceeded"@,
                    prices.request,
                    prices.device_limit,
                    positions,
                    old(budget).blocks()->0 * old(budget).size(),
                    device_detail(
                        blocks_needed(positions, old(budget).size()),
                        positions,
                        old(budget).size(),
                        old(budget).blocks()->0 as int,
                    ),
                )
            }
        }),
{
    let positions: usize = prompt_tokens.len().saturating_add(params.max_tokens);
    let blocks: usize = budget.blocks_for(positions);
    if let Some(refusal) = budget.immovable_refusal(positions, prices) {
        return Err(refusal);
    }
    match queue.try_reserve() {
        Err(queued) => {
            return Err(DecodeError::QueueFull { queued, cap: queue.cap() });
        },
        Ok(()) => {},
    }
    let abort: u64 = aborts.next_id();
    Ok(Job { prompt_tokens, params, eos_id, reply, abort, blocks })
}

/// A request asks for its prompt and its whole output, as far as a count
/// goes.
pub proof fn law_a_request_asks_for_prompt_and_output(prompt_len: int, max_tokens: usize)
    requires
        0 <= prompt_len <= usize::MAX,
    ensures
        prompt_len + max_tokens <= usize::MAX ==> positions_asked(prompt_len, max_tokens) == prompt_len + max_tokens,
        prompt_len + max_tokens > usize::MAX ==> positions_asked(prompt_len, max_tokens) == usize::MAX,
{
}

/// A request is hopeless exactly when it is longer than one request may be
/// or than the whole server: positions against positions, whatever the block
/// size.
pub proof fn law_only_the_hopeless_are_turned_away(budget: &BlockBudget, positions: int)
    requires
        budget.wf(),
        0 < positions,
    ensures
        never_fits(budget, positions) <==> (budget.context() matches Some(c) && positions > c) || (
            budget.blocks() matches Some(t) && positions > t * budget.size()),
{
    budget.law_blocks_are_accounted_for();
    let s = budget.size();
    crate::batch::ledger::law_blocks_hold_their_positions(positions, s);
    if budget.blocks() is Some {
        let t = budget.blocks()->0 as int;
        let n = blocks_needed(positions, s);
        assert(n > t ==> positions > t * s) by (nonlinear_arith)
            requires
                (n - 1) * s < positions,
                0 < s,
        ;
        assert(n <= t ==> positions <= t * s) by (nonlinear_arith)
            requires
                positions <= n * s,
                0 < s,
        ;
    }
}

/// The blocks reserved for an accepted request cover its prompt and its whole
/// output, so that it never runs out while it decodes.
pub proof fn law_a_reservation_covers_the_request(budget: &BlockBudget, prompt_len: int, max_tokens: usize)
    requires
        budget.wf(),
        0 <= prompt_len,
        prompt_len + max_tokens <= usize::MAX,
        !never_fits(budget, positions_asked(prompt_len, max_tokens)),
    ensures
        blocks_needed(positions_asked(prompt_len, max_tokens), budget.size()) * budget.size() >= prompt_len
            + max_tokens,
        budget.blocks() matches Some(t) ==> prompt_len + max_tokens <= t * budget.size() || prompt_len + max_tokens
            == 0,
        budget.context() matches Some(c) ==> prompt_len + max_tokens <= c,
{
    budget.law_blocks_are_accounted_for();
    let p = positions_asked(prompt_len, max_tokens);
    crate::batch::ledger::law_blocks_hold_their_positions(p, budget.size());
    if p > 0 {
        law_only_the_hopeless_are_turned_away(budget, p);
    }
}

/// The room there is: the sequence cap less the rows that decode and the
/// prompts still prefilling, and the free blocks where there is a budget.
pub proof fn law_room_is_what_others_leave(max_seqs: usize, decoding: int, prefilling: int, budget: &BlockBudget)
    ensures
        room_of(max_seqs, decoding, prefilling, budget).seqs == max_seqs - decoding - prefilling,
        budget.blocks() is None ==> room_of(max_seqs, decoding, prefilling, budget).blocks is None,
        budget.blocks() is Some ==> room_of(max_seqs, decoding, prefilling, budget).blocks == Some(
            budget.unreserved(),
        ),
{
}

/// A job joins exactly when a sequence is left and its blocks are free. One
/// that can run takes that sequence and those blocks; one that cannot takes
/// nothing.
pub proof fn law_a_job_takes_a_sequence_and_its_blocks(room: Room, job: Job, vocab: usize)
    ensures
        room.takes(job) <==> room.seqs >= 1 && (room.blocks is None || job.blocks <= room.blocks->0),
        (forall|k: int| 0 <= k < job.prompt_tokens@.len() ==> #[trigger] job.prompt_tokens@[k] < vocab) ==> {
            &&& runnable(vocab)(job)
            &&& !unrunnable(vocab)(job)
            &&& room.after(job, vocab).seqs == room.seqs - 1
            &&& room.blocks is Some ==> room.after(job, vocab).blocks == Some(room.blocks->0 - job.blocks)
            &&& room.blocks is None ==> room.after(job, vocab).blocks is None
        },
        (exists|k: int| 0 <= k < job.prompt_tokens@.len() && #[trigger] job.prompt_tokens@[k] >= vocab) ==> {
            &&& !runnable(vocab)(job)
            &&& unrunnable(vocab)(job)
            &&& room.after(job, vocab) == room
        },
        job_blocks()(job) == job.blocks,
{
}

/// Those who join stand behind those who were there, each as its own job in
/// the order of the line; those who are refused are each told their own
/// token.
pub proof fn law_joining_keeps_the_order(
    after: Seq<Prefill>,
    before: Seq<Prefill>,
    jobs: Seq<Job>,
    chunk: usize,
    paged: bool,
    replies: Seq<Reply>,
    vocab: usize,
    k: int,
)
    ensures
        joined(after, before, jobs, chunk, paged) ==> after.take(before.len() as int) == before && after.len()
            == before.len() + jobs.len(),
        joined(after, before, jobs, chunk, paged) && 0 <= k < jobs.len() ==> {
            let p = after[before.len() + k];
            &&& p.starts(jobs[k], chunk, paged)
            &&& p.wf()
            &&& p.reply == jobs[k].reply
            &&& p.abort == jobs[k].abort
            &&& p.blocks == jobs[k].blocks
            &&& prefill_blocks()(p) == jobs[k].blocks
        },
        refused(replies, jobs, vocab) && 0 <= k < jobs.len() ==> replies.len() == jobs.len()
            && replies[k].is_out_of_vocab(jobs[k].reply, jobs[k].prompt_tokens@, vocab),
{
    if joined(after, before, jobs, chunk, paged) {
        assert(after.take(before.len() as int) =~= before);
        if 0 <= k < jobs.len() {
            assert(fresh(after[before.len() + k], jobs[k], chunk, paged));
        }
    }
}

/// A request that is taken on joins the queue as it was asked for, under a
/// handle of its own; one that is not leaves the queue and the handles alone.
/// Nothing is reserved before admission.
pub proof fn law_a_request_joins_as_it_was_asked(
    prompt: Vec<usize>,
    params: GenerationParams,
    eos: Option<usize>,
    reply: u64,
    prices: Prices,
    queue: &mut QueueGate,
    budget: &mut BlockBudget,
    aborts: &mut AbortInbox,
    r: Result<Job, DecodeError>,
)
    requires
        call_ensures(submit, (prompt, params, eos, reply, prices, queue, budget, aborts), r),
        old(budget).wf(),
        old(queue).wf(),
    ensures
        ({
            let asks = if prompt@.len() + params.max_tokens <= usize::MAX {
                prompt@.len() + params.max_tokens
            } else {
                usize::MAX as int
            };
            let too_long = old(budget).context() is Some && asks > old(budget).context()->0;
            let too_large = old(budget).blocks() is Some && (asks > old(budget).blocks()->0 * old(budget).size() || old(
                budget,
            ).blocks()->0 == 0);
            let full = old(queue).waiting() == old(queue).capacity();
            &&& r is Ok <==> !too_long && !too_large && !full
            &&& r matches Ok(job) ==> {
                &&& job.prompt_tokens == prompt
                &&& job.params == params
                &&& job.eos_id == eos
                &&& job.reply == reply
                &&& job.abort == old(aborts).next()
                &&& job.blocks * old(budget).size() >= asks
                &&& asks > 0 ==> (job.blocks - 1) * old(budget).size() < asks
                &&& asks == 0 ==> job.blocks == 1
            }
            &&& r is Ok ==> final(queue).waiting() == old(queue).waiting() + 1 && final(aborts).next() != old(
                aborts,
            ).next()
            &&& r is Err ==> final(queue).waiting() == old(queue).waiting() && final(aborts).next() == old(
                aborts,
            ).next()
            &&& final(budget).unreserved() == old(budget).unreserved()
            &&& final(aborts).pending() == old(aborts).pending()
            &&& r matches Err(e) ==> (e is QueueFull <==> !too_long && !too_large)
        }),
{
    let asks = if prompt@.len() + params.max_tokens <= usize::MAX {
        prompt@.len() + params.max_tokens
    } else {
        usize::MAX as int
    };
    let s = old(budget).size();
    assert(s > 0) by {
        old(budget).law_blocks_are_accounted_for();
    }
    assert(old(queue).waiting() <= old(queue).capacity()) by {
        old(queue).law_the_cap_is_kept();
    }
    crate::batch::ledger::law_blocks_hold_their_positions(asks as int, s);
    if old(budget).blocks() is Some {
        let (k, n) = (blocks_needed(asks as int, s), old(budget).blocks()->0 as int);
        if k <= n {
            assert(k * s <= n * s) by (nonlinear_arith)
                requires
                    k <= n,
                    s > 0,
            ;
        } else {
            assert((k - 1) * s >= n * s) by (nonlinear_arith)
                requires
                    k > n,
                    s > 0,
            ;
        }
    }
}

/// An admission takes jobs from the front of the queue and loses none: each
/// is in the line of prompts, was told that it cannot run, or still waits.
pub proof fn law_an_admission_loses_nobody(
    vocab: usize,
    waiting: &mut VecDeque<Job>,
    prefills: &mut VecDeque<Prefill>,
    decoding: usize,
    config: &BatcherConfig,
    paged: bool,
    queue: &mut QueueGate,
    budget: &mut BlockBudget,
    replies: Vec<Reply>,
)
    requires
        call_ensures(admit_jobs, (vocab, waiting, prefills, decoding, config, paged, queue, budget), replies),
    ensures
        final(waiting)@.len() + (final(prefills)@.len() - old(prefills)@.len()) + replies@.len() == old(waiting)@.len(),
        final(waiting)@ == old(waiting)@.skip(old(waiting)@.len() - final(waiting)@.len()),
        final(prefills)@.len() >= old(prefills)@.len(),
        old(queue).waiting() - final(queue).waiting() == old(waiting)@.len() - final(waiting)@.len(),
        final(queue).refusals() == old(queue).refusals(),
{
    let room = room_of(config.max_seqs, decoding as int, old(prefills)@.len() as int, old(budget));
    let n = admitted(old(waiting)@, room, vocab);
    lemma_filters_split(old(waiting)@.take(n), runnable(vocab), unrunnable(vocab));
}

/// Two filters that are each other's opposite share a line between them.
proof fn lemma_filters_split(jobs: Seq<Job>, yes: spec_fn(Job) -> bool, no: spec_fn(Job) -> bool)
    requires
        forall|j: Job| #[trigger] yes(j) == !no(j),
    ensures
        jobs.filter(yes).len() + jobs.filter(no).len() == jobs.len(),
    decreases jobs.len(),
{
    reveal(Seq::filter);
    if jobs.len() > 0 {
        lemma_filters_split(jobs.drop_last(), yes, no);
        assert(yes(jobs.last()) == !no(jobs.last()));
    }
}

} // verus!
