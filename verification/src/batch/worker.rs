//! The scheduler between forward passes: one tick opens, runs one bounded
//! prefill chunk, takes one decode step for every ready row, and closes.
use std::collections::VecDeque;
use vstd::prelude::*;
use crate::batch::aborts::{
    apply_aborts, job_abort, jobs_told, law_sweep_keeps_everyone, prefill_abort, prefills_told, spared, struck,
    unclaimed, without,
};
use crate::batch::admission::{
    admit_jobs, admitted, job_blocks, joined, law_caps_hold, law_room_is_spent_on_runnable_jobs, prefill_blocks,
    refused, runnable, unrunnable, Room,
};
use crate::batch::config::BatcherConfig;
use crate::batch::ledger::BlockBudget;
use crate::batch::prefill::{chunk_end, Job, Prefill, Reply};
use crate::batch::queue::{AbortInbox, IdSet, QueueGate};
use crate::batch::rows::{
    aborts_of, after_cancel, answers, cancels, finished, going, ready_row, row_blocks, rows_wf, run_len, uids, Row,
    Rows, Slot,
};
use crate::batch::totals::{
    lemma_total_concat, lemma_total_first, lemma_total_nonneg, lemma_total_push, lemma_total_same, lemma_total_split,
    total,
};

verus! {

/// A snapshot of the scheduler's counters.
#[derive(Clone, Copy, Debug, PartialEq, Eq, Structural)]
pub struct BatcherStats {
    /// Prefill steps made.
    pub prefill_chunks: u64,
    /// Prompt tokens run through prefill.
    pub prefill_tokens: u64,
    /// Batched decode steps, however many rows each covered.
    pub decode_steps: u64,
    /// Jobs waiting for admission.
    pub queue_depth: usize,
    /// Jobs refused because the queue was full.
    pub queue_rejected: u64,
    /// Blocks in the budget; 0 when none is configured.
    pub kv_blocks_total: usize,
    /// Blocks not reserved.
    pub kv_blocks_free: usize,
    /// Token positions per block.
    pub kv_block_size: usize,
    /// Jobs refused for exceeding the whole budget.
    pub kv_rejected_too_large: u64,
    /// Jobs refused for asking for too much context.
    pub kv_rejected_context_length: u64,
    /// Most blocks ever held at one moment, counted from the work itself.
    pub kv_blocks_peak: usize,
    /// Requests stopped because they were cancelled.
    pub aborted: u64,
}

impl Default for BatcherStats {
    fn default() -> (s: BatcherStats)
        ensures
            s == (BatcherStats {
                prefill_chunks: 0,
                prefill_tokens: 0,
                decode_steps: 0,
                queue_depth: 0,
                queue_rejected: 0,
                kv_blocks_total: 0,
                kv_blocks_free: 0,
                kv_block_size: 0,
                kv_rejected_too_large: 0,
                kv_rejected_context_length: 0,
                kv_blocks_peak: 0,
                aborted: 0,
            }),
    {
        BatcherStats {
            prefill_chunks: 0,
            prefill_tokens: 0,
            decode_steps: 0,
            queue_depth: 0,
            queue_rejected: 0,
            kv_blocks_total: 0,
            kv_blocks_free: 0,
            kv_block_size: 0,
            kv_rejected_too_large: 0,
            kv_rejected_context_length: 0,
            kv_blocks_peak: 0,
            aborted: 0,
        }
    }
}

/// The forward passes of one prefill step: `tokens[k]` runs at position
/// `from + k` on the caches of the request `abort`.
#[derive(Debug)]
pub struct ChunkRun {
    pub abort: u64,
    pub from: usize,
    pub tokens: Vec<usize>,
    /// The row the request decodes as, once its prompt is through.
    pub row: Option<u64>,
}

/// What the worker has counted.
#[derive(Clone, Copy, Debug, PartialEq, Eq, Structural)]
pub struct Counters {
    pub prefill_chunks: u64,
    pub prefill_tokens: u64,
    pub decode_steps: u64,
    pub peak_blocks: usize,
}

/// Everything the scheduler holds from tick to tick.
#[derive(Debug)]
pub struct Worker {
    vocab_size: usize,
    config: BatcherConfig,
    paged: bool,
    rows: Rows,
    prefills: VecDeque<Prefill>,
    waiting: VecDeque<Job>,
    carried: IdSet,
    counters: Counters,
}

/// The larger of two numbers.
pub open spec fn larger(a: int, b: int) -> int {
    if a >= b {
        a
    } else {
        b
    }
}

/// A count, as far as a `usize` goes.
pub open spec fn capped(n: int) -> int {
    if n <= usize::MAX {
        n
    } else {
        usize::MAX as int
    }
}

/// One step of a prefill.
pub open spec fn stepped(before: Prefill, after: Prefill) -> bool {
    &&& after.wf()
    &&& after.state.tokens() == before.state.tokens()
    &&& after.state.chunk() == before.state.chunk()
    &&& after.state.is_paged() == before.state.is_paged()
    &&& after.state.processed() == chunk_end(
        before.state.tokens().len() as int,
        before.state.processed(),
        before.state.chunk(),
    )
    &&& after.prompt_tokens == before.prompt_tokens
    &&& after.params == before.params
    &&& after.eos_id == before.eos_id
    &&& after.reply == before.reply
    &&& after.abort == before.abort
    &&& after.blocks == before.blocks
}

/// Blocks held by the blocks of prompts in line, as far as a count goes.
fn prefill_blocks_held(prefills: &VecDeque<Prefill>) -> (n: usize)
    ensures
        n == capped(total(prefills@, prefill_blocks())),
{
    let mut n: usize = 0;
    for i in 0usize..prefills.len()
        invariant
            n == capped(total(prefills@.take(i as int), prefill_blocks())),
    {
        n = n.saturating_add(prefills[i].blocks);
        proof {
            assert(prefills@.take(i + 1) =~= prefills@.take(i as int).push(prefills@[i as int]));
            lemma_total_push(prefills@.take(i as int), prefills@[i as int], prefill_blocks());
        }
    }
    assert(prefills@.take(prefills@.len() as int) =~= prefills@);
    n
}

impl Worker {
    /// The model's vocabulary.
    pub closed spec fn vocab(&self) -> usize {
        self.vocab_size
    }

    /// The scheduler knobs.
    pub closed spec fn knobs(&self) -> BatcherConfig {
        self.config
    }

    /// Whether requests keep their KV in shared pages.
    pub closed spec fn pages(&self) -> bool {
        self.paged
    }

    /// The decoding rows, in admission order.
    pub closed spec fn rows(&self) -> Seq<Row> {
        self.rows@
    }

    /// The identity the next row gets.
    pub closed spec fn next_uid(&self) -> u64 {
        self.rows.next()
    }

    /// The prompts in line for a chunk.
    pub closed spec fn prefills(&self) -> Seq<Prefill> {
        self.prefills@
    }

    /// The jobs in line for admission.
    pub closed spec fn waiting(&self) -> Seq<Job> {
        self.waiting@
    }

    /// Cancellations that arrived before the job they name.
    pub closed spec fn carried(&self) -> Set<u64> {
        self.carried@
    }

    /// What has been counted.
    pub closed spec fn counted(&self) -> Counters {
        self.counters
    }

    /// Rows and prompts are sound.
    pub closed spec fn wf(&self) -> bool {
        &&& self.config.prefill_chunk > 0
        &&& self.rows.wf()
        &&& self.carried.wf()
        &&& forall|k: int| 0 <= k < self.prefills@.len() ==> (#[trigger] self.prefills@[k]).wf()
    }

    /// Between decode steps every unfinished row has run all its tokens.
    pub open spec fn settled(&self) -> bool {
        forall|i: int|
            0 <= i < self.rows().len() ==> ((#[trigger] self.rows()[i]).slot.finish is None
                ==> self.rows()[i].slot.is_settled())
    }

    /// The blocks that in-flight work holds.
    pub open spec fn held(&self) -> int {
        total(self.prefills(), prefill_blocks()) + total(self.rows(), row_blocks())
    }

    /// The sequences in flight, prompts still prefilling among them.
    pub open spec fn in_flight(&self) -> nat {
        self.rows().len() + self.prefills().len()
    }

    /// Every waiting job has a queue slot, and the ledger has reserved
    /// exactly what in-flight work holds.
    pub open spec fn accounted(&self, queue: &QueueGate, budget: &BlockBudget) -> bool {
        &&& queue.wf()
        &&& budget.wf()
        &&& queue.waiting() >= self.waiting().len()
        &&& budget.blocks() is Some ==> budget.reserved() == self.held()
    }

    /// Only what is named here may differ: the two lines, the rows, the
    /// early cancellations and the counters.
    pub open spec fn same_model(&self, other: &Worker) -> bool {
        self.vocab() == other.vocab() && self.knobs() == other.knobs() && self.pages() == other.pages()
    }

    /// An idle worker.
    pub fn new(vocab_size: usize, config: BatcherConfig, paged: bool) -> (w: Worker)
        requires
            config.prefill_chunk > 0,
        ensures
            w.wf(),
            w.settled(),
            w.vocab() == vocab_size,
            w.knobs() == config,
            w.pages() == paged,
            w.rows().len() == 0,
            w.next_uid() == 0,
            w.prefills().len() == 0,
            w.waiting().len() == 0,
            w.carried() == Set::<u64>::empty(),
            w.held() == 0,
            w.counted() == (Counters { prefill_chunks: 0, prefill_tokens: 0, decode_steps: 0, peak_blocks: 0 }),
    {
        Worker {
            vocab_size,
            config,
            paged,
            rows: Rows::new(),
            prefills: VecDeque::new(),
            waiting: VecDeque::new(),
            carried: IdSet::new(),
            counters: Counters { prefill_chunks: 0, prefill_tokens: 0, decode_steps: 0, peak_blocks: 0 },
        }
    }

    /// Whether there is nothing to do until another job arrives.
    pub fn is_idle(&self) -> (r: bool)
        ensures
            r == (self.rows().len() == 0 && self.prefills().len() == 0 && self.waiting().len() == 0),
    {
        self.rows.is_empty() && self.prefills.len() == 0 && self.waiting.len() == 0
    }

    /// `job` joins the end of the line, and nothing else changes.
    pub open spec fn enqueues(&self, job: Job, after: &Worker) -> bool {
        &&& after.same_model(self)
        &&& after.waiting() == self.waiting().push(job)
        &&& after.rows() == self.rows()
        &&& after.next_uid() == self.next_uid()
        &&& after.prefills() == self.prefills()
        &&& after.carried() == self.carried()
    }

    /// Puts a submitted job at the end of the line. Its queue slot stays
    /// taken.
    pub fn enqueue(&mut self, job: Job)
        requires
            old(self).wf(),
        ensures
            final(self).wf(),
            old(self).enqueues(job, final(self)),
            final(self).counted() == old(self).counted(),
    {
        self.waiting.push_back(job);
    }
}

/// One if `j` waits for its answer under `to`.
pub open spec fn job_is(to: u64) -> spec_fn(Job) -> int {
    |j: Job| if j.reply == to { 1int } else { 0 }
}

/// One if `p` waits for its answer under `to`.
pub open spec fn prefill_is(to: u64) -> spec_fn(Prefill) -> int {
    |p: Prefill| if p.reply == to { 1int } else { 0 }
}

/// One if `r` waits for its answer under `to`.
pub open spec fn row_is(to: u64) -> spec_fn(Row) -> int {
    |r: Row| if r.slot.reply == to { 1int } else { 0 }
}

/// One if `r` goes to `to`.
pub open spec fn reply_is(to: u64) -> spec_fn(Reply) -> int {
    |r: Reply| if r.to == to { 1int } else { 0 }
}

/// The requests still to be answered under `to`.
pub open spec fn outstanding(w: &Worker, to: u64) -> int {
    total(w.waiting(), job_is(to)) + total(w.prefills(), prefill_is(to)) + total(w.rows(), row_is(to))
}

/// The answers a tick opens with: to the cancelled jobs, to the cancelled
/// prompts, to the rows that ended, and to the jobs the model cannot run.
pub open spec fn opening_replies(
    replies: Seq<Reply>,
    jobs: Seq<Job>,
    prompts: Seq<Prefill>,
    ended: Seq<Row>,
    bad: Seq<Job>,
    vocab: usize,
) -> bool {
    let a = jobs.len() as int;
    let b = a + prompts.len() as int;
    let c = b + ended.len() as int;
    &&& replies.len() == c + bad.len()
    &&& jobs_told(replies.subrange(0, a), jobs)
    &&& prefills_told(replies.subrange(a, b), prompts)
    &&& rows_answered(replies.subrange(b, c), ended)
    &&& refused(replies.subrange(c, replies.len() as int), bad, vocab)
}

/// Each of `rows` gets its own answer, in this order.
pub open spec fn rows_answered(replies: Seq<Reply>, rows: Seq<Row>) -> bool {
    &&& replies.len() == rows.len()
    &&& forall|k: int| 0 <= k < replies.len() ==> answers(#[trigger] replies[k], rows[k].slot)
}

/// What opening a tick works out: who is stopped, who has ended, and who
/// joins.
pub struct Opening {
    /// Jobs and prompts that a cancellation stopped.
    pub jobs: Seq<Job>,
    pub prompts: Seq<Prefill>,
    /// The lines without them.
    pub waiting: Seq<Job>,
    pub prefills: Seq<Prefill>,
    /// Rows that a cancellation marks, and all rows once marked.
    pub stopped: Seq<Row>,
    pub marked: Seq<Row>,
    /// Cancellations that found nobody yet.
    pub carried: Set<u64>,
    /// How many jobs then leave the line.
    pub admitted: int,
}

/// The opening of a tick for worker `w`, asked to stop `pending`.
pub open spec fn opening(w: &Worker, pending: Set<u64>, blocks: Option<usize>) -> Opening {
    let asked = w.carried().union(pending);
    let after_jobs = unclaimed(w.waiting(), job_abort(), asked);
    let after_prefills = unclaimed(w.prefills(), prefill_abort(), after_jobs);
    let waiting = spared(w.waiting(), job_abort(), asked);
    let prefills = spared(w.prefills(), prefill_abort(), after_jobs);
    let marked = w.rows().map_values(|r: Row| after_cancel(r, after_prefills));
    let rows = marked.filter(going());
    let room = Room {
        seqs: w.knobs().max_seqs - rows.len() - prefills.len(),
        blocks: match blocks {
            Some(all) => Some(all - total(prefills, prefill_blocks()) - total(rows, row_blocks())),
            None => None,
        },
    };
    Opening {
        jobs: struck(w.waiting(), job_abort(), asked),
        prompts: struck(w.prefills(), prefill_abort(), after_jobs),
        waiting,
        prefills,
        stopped: w.rows().filter(cancels(after_prefills)),
        marked,
        carried: without(after_prefills, aborts_of(w.rows().filter(cancels(after_prefills)))),
        admitted: admitted(waiting, room, w.vocab()),
    }
}

impl Worker {
    /// What opening a tick comes to, when `pending` is to be stopped and
    /// `blocks` is the whole block budget. Everyone who is answered is no
    /// longer waiting, and nobody else is.
    pub open spec fn opens(&self, pending: Set<u64>, blocks: Option<usize>, replies: Seq<Reply>, after: &Worker) -> bool {
        let o = opening(self, pending, blocks);
        let gone = o.waiting.take(o.admitted);
        &&& after.same_model(self)
        &&& after.next_uid() == self.next_uid()
        &&& 0 <= o.admitted <= o.waiting.len()
        &&& after.waiting() == o.waiting.skip(o.admitted)
        &&& joined(
            after.prefills(),
            o.prefills,
            gone.filter(runnable(self.vocab())),
            self.knobs().prefill_chunk,
            self.pages(),
        )
        &&& after.rows() == o.marked.filter(going())
        &&& after.carried() == o.carried
        &&& opening_replies(
            replies,
            o.jobs,
            o.prompts,
            o.marked.filter(finished()),
            gone.filter(unrunnable(self.vocab())),
            self.vocab(),
        )
        &&& forall|to: u64| #[trigger] outstanding(self, to) == outstanding(after, to) + total(replies, reply_is(to))
    }

    /// Opens a tick, before any forward pass: cancellations are applied,
    /// finished rows leave, waiting jobs join, and the peak is measured on
    /// the work itself.
    pub fn open_tick(&mut self, queue: &mut QueueGate, budget: &mut BlockBudget, aborts: &mut AbortInbox) -> (replies:
        Vec<Reply>)
        requires
            old(self).wf(),
            old(self).accounted(old(queue), old(budget)),
            old(aborts).wf(),
        ensures
            final(self).wf(),
            old(self).opens(old(aborts).pending(), old(budget).blocks(), replies@, final(self)),
            final(self).accounted(final(queue), final(budget)),
            final(queue).capacity() == old(queue).capacity(),
            final(queue).refusals() == old(queue).refusals(),
            final(budget).same_limits(old(budget)),
            final(budget).too_large() == old(budget).too_large(),
            final(budget).too_long() == old(budget).too_long(),
            final(aborts).wf(),
            final(aborts).pending() == Set::<u64>::empty(),
            final(aborts).next() == old(aborts).next(),
            ({
                let o = opening(old(self), old(aborts).pending(), old(budget).blocks());
                &&& final(queue).waiting() == old(queue).waiting() - o.jobs.len() - o.admitted
                &&& final(aborts).stopped() == old(aborts).stopped().wrapping_add(o.jobs.len() as u64).wrapping_add(
                    o.prompts.len() as u64,
                ).wrapping_add(o.stopped.len() as u64)
            }),
            old(self).settled() ==> final(self).settled(),
            old(self).in_flight() <= old(self).knobs().max_seqs ==> final(self).in_flight()
                <= old(self).knobs().max_seqs,
            final(budget).blocks() is Some ==> final(self).held() <= final(budget).blocks()->0,
            final(self).counted() == (Counters {
                peak_blocks: larger(old(self).counted().peak_blocks as int, capped(final(self).held())) as usize,
                ..old(self).counted()
            }),
    {
        let ghost before = *self;
        let ghost o = opening(self, aborts.pending(), budget.blocks());
        proof {
            lemma_total_nonneg(self.prefills@, prefill_blocks());
            lemma_total_nonneg(self.rows@, row_blocks());
        }
        let mut replies: Vec<Reply> = apply_aborts(
            aborts,
            &mut self.carried,
            &mut self.waiting,
            &mut self.prefills,
            &mut self.rows,
            queue,
            budget,
        );
        let ghost told = replies@;
        proof {
            let asked = before.carried().union(old(aborts).pending());
            let after_jobs = unclaimed(before.waiting(), job_abort(), asked);
            lemma_sweep_total(before.waiting(), asked, before.prefills(), after_jobs);
            lemma_spared_from(before.prefills@, prefill_abort(), after_jobs);
            lemma_total_same(self.rows@, before.rows@, row_blocks(), row_blocks());
            lemma_total_nonneg(self.prefills@, prefill_blocks());
            lemma_total_nonneg(self.rows@, row_blocks());
            lemma_total_nonneg(self.rows@.filter(going()), row_blocks());
            lemma_total_nonneg(o.prompts, prefill_blocks());
        }
        let mut ended: Vec<Reply> = self.rows.flush_finished(budget);
        let ghost out = ended@;
        replies.append(&mut ended);
        let decoding: usize = self.rows.len();
        let ghost line = self.prefills@;
        proof {
            budget.law_blocks_are_accounted_for();
        }
        let mut bad: Vec<Reply> = admit_jobs(
            self.vocab_size,
            &mut self.waiting,
            &mut self.prefills,
            decoding,
            &self.config,
            self.paged,
            queue,
            budget,
        );
        let ghost no = bad@;
        replies.append(&mut bad);
        proof {
            let gone = o.waiting.take(o.admitted);
            lemma_joined(
                self.prefills@,
                line,
                gone.filter(runnable(self.vocab_size)),
                self.config.prefill_chunk,
                self.paged,
            );
            let (a, b) = (o.jobs.len() as int, told.len() as int);
            let c = b + out.len();
            assert(replies@.subrange(0, a) =~= told.take(a));
            assert(replies@.subrange(a, b) =~= told.skip(a));
            assert(replies@.subrange(b, c) =~= out);
            assert(replies@.subrange(c, replies@.len() as int) =~= no);
            lemma_total_nonneg(self.prefills@, prefill_blocks());
            lemma_total_nonneg(self.rows@, row_blocks());
            budget.law_blocks_are_accounted_for();
            if before.in_flight() <= before.knobs().max_seqs {
                lemma_cap_holds(&before, self, old(aborts).pending(), old(budget).blocks());
            }
            if before.settled() {
                assert forall|i: int| 0 <= i < self.rows().len() && (#[trigger] self.rows()[i]).slot.finish
                    is None implies self.rows()[i].slot.is_settled() by {
                    lemma_filter_from(o.marked, going(), i);
                    let j = o.marked.index_of(self.rows()[i]);
                    assert(o.marked[j] == before.rows()[j]);
                }
            }
            assert forall|to: u64| #[trigger] outstanding(&before, to) == outstanding(self, to) + total(
                replies@,
                reply_is(to),
            ) by {
                lemma_opening_answers(&before, self, old(aborts).pending(), old(budget).blocks(), replies@, to);
            }
        }
        let held: usize = self.rows.blocks_held().saturating_add(prefill_blocks_held(&self.prefills));
        if held > self.counters.peak_blocks {
            self.counters.peak_blocks = held;
        }
        replies
    }
}

/// What is kept by a filter was there before and passes.
pub proof fn lemma_filter_from<T>(s: Seq<T>, p: spec_fn(T) -> bool, i: int)
    requires
        0 <= i < s.filter(p).len(),
    ensures
        s.contains(s.filter(p)[i]),
        p(s.filter(p)[i]),
    decreases s.len(),
{
    reveal(Seq::filter);
    if s.len() > 0 {
        let rest = s.drop_last();
        if i < rest.filter(p).len() {
            lemma_filter_from(rest, p, i);
            let j = rest.index_of(rest.filter(p)[i]);
            assert(s[j] == rest[j]);
        } else {
            assert(s.filter(p)[i] == s.last());
            assert(s[s.len() - 1] == s.last());
        }
    }
}

/// The answers that open a tick go to exactly the requests that left.
proof fn lemma_opening_answers(
    before: &Worker,
    after: &Worker,
    pending: Set<u64>,
    blocks: Option<usize>,
    replies: Seq<Reply>,
    to: u64,
)
    requires
        ({
            let o = opening(before, pending, blocks);
            let gone = o.waiting.take(o.admitted);
            &&& 0 <= o.admitted <= o.waiting.len()
            &&& after.waiting() == o.waiting.skip(o.admitted)
            &&& joined(
                after.prefills(),
                o.prefills,
                gone.filter(runnable(before.vocab())),
                before.knobs().prefill_chunk,
                before.pages(),
            )
            &&& after.rows() == o.marked.filter(going())
            &&& opening_replies(
                replies,
                o.jobs,
                o.prompts,
                o.marked.filter(finished()),
                gone.filter(unrunnable(before.vocab())),
                before.vocab(),
            )
        }),
    ensures
        outstanding(before, to) == outstanding(after, to) + total(replies, reply_is(to)),
{
    let o = opening(before, pending, blocks);
    let vocab = before.vocab();
    let gone = o.waiting.take(o.admitted);
    let (ran, bad) = (gone.filter(runnable(vocab)), gone.filter(unrunnable(vocab)));
    let (ended, on) = (o.marked.filter(finished()), o.marked.filter(going()));
    let asked = before.carried().union(pending);
    let after_jobs = unclaimed(before.waiting(), job_abort(), asked);
    law_sweep_keeps_everyone(before.waiting(), job_abort(), asked, job_is(to));
    law_sweep_keeps_everyone(before.prefills(), prefill_abort(), after_jobs, prefill_is(to));
    lemma_total_split(o.marked, going(), finished(), row_is(to));
    lemma_total_same(o.marked, before.rows(), row_is(to), row_is(to));
    lemma_total_concat(gone, after.waiting(), job_is(to));
    assert(gone + after.waiting() =~= o.waiting);
    lemma_total_split(gone, runnable(vocab), unrunnable(vocab), job_is(to));
    lemma_joined_is(after.prefills(), o.prefills, ran, before.knobs().prefill_chunk, before.pages(), to);
    let a = o.jobs.len() as int;
    let b = a + o.prompts.len() as int;
    let c = b + ended.len() as int;
    let d = replies.len() as int;
    let (r0, r1, r2, r3) = (
        replies.subrange(0, a),
        replies.subrange(a, b),
        replies.subrange(b, c),
        replies.subrange(c, d),
    );
    lemma_total_same(r0, o.jobs, reply_is(to), job_is(to));
    lemma_total_same(r1, o.prompts, reply_is(to), prefill_is(to));
    lemma_total_same(r2, ended, reply_is(to), row_is(to));
    lemma_total_same(r3, bad, reply_is(to), job_is(to));
    lemma_total_concat(r0, r1, reply_is(to));
    lemma_total_concat(r0 + r1, r2, reply_is(to));
    lemma_total_concat(r0 + r1 + r2, r3, reply_is(to));
    assert(replies =~= r0 + r1 + r2 + r3);
}

proof fn lemma_filter_len<T>(s: Seq<T>, p: spec_fn(T) -> bool)
    ensures
        s.filter(p).len() <= s.len(),
    decreases s.len(),
{
    reveal(Seq::filter);
    if s.len() > 0 {
        lemma_filter_len(s.drop_last(), p);
    }
}

/// Opening a tick keeps to the cap on sequences.
proof fn lemma_cap_holds(before: &Worker, after: &Worker, pending: Set<u64>, blocks: Option<usize>)
    requires
        before.in_flight() <= before.knobs().max_seqs,
        after.knobs() == before.knobs(),
        ({
            let o = opening(before, pending, blocks);
            &&& 0 <= o.admitted <= o.waiting.len()
            &&& joined(
                after.prefills(),
                o.prefills,
                o.waiting.take(o.admitted).filter(runnable(before.vocab())),
                before.knobs().prefill_chunk,
                before.pages(),
            )
            &&& after.rows() == o.marked.filter(going())
            &&& blocks is Some ==> total(o.prefills, prefill_blocks()) + total(
                o.marked.filter(going()),
                row_blocks(),
            ) <= blocks->0
        }),
    ensures
        after.in_flight() <= after.knobs().max_seqs,
{
    let o = opening(before, pending, blocks);
    let after_jobs = unclaimed(before.waiting(), job_abort(), before.carried().union(pending));
    lemma_filter_len(o.marked, going());
    lemma_sweep_len(before.prefills(), prefill_abort(), after_jobs);
    let rows = o.marked.filter(going());
    let room = Room {
        seqs: before.knobs().max_seqs - rows.len() - o.prefills.len(),
        blocks: match blocks {
            Some(all) => Some(all - total(o.prefills, prefill_blocks()) - total(rows, row_blocks())),
            None => None,
        },
    };
    law_caps_hold(o.waiting, room, before.vocab());
    law_room_is_spent_on_runnable_jobs(room, o.waiting.take(o.admitted), before.vocab());
}

/// Each job that joins waits for its answer as the prompt it became.
proof fn lemma_joined_is(
    after: Seq<Prefill>,
    before: Seq<Prefill>,
    jobs: Seq<Job>,
    chunk: usize,
    paged: bool,
    to: u64,
)
    requires
        joined(after, before, jobs, chunk, paged),
    ensures
        total(after, prefill_is(to)) == total(before, prefill_is(to)) + total(jobs, job_is(to)),
{
    let (n, m) = (before.len() as int, after.len() as int);
    assert(after.subrange(0, n) =~= before);
    assert(after =~= after.subrange(0, n) + after.subrange(n, m));
    lemma_total_concat(after.subrange(0, n), after.subrange(n, m), prefill_is(to));
    assert forall|k: int| 0 <= k < jobs.len() implies job_is(to)(#[trigger] jobs[k]) == prefill_is(to)(
        after.subrange(n, m)[k],
    ) by {
        assert(after[n + k].starts(jobs[k], chunk, paged));
    }
    lemma_total_same(jobs, after.subrange(n, m), job_is(to), prefill_is(to));
}

/// What a sweep of both lines leaves of the blocks.
proof fn lemma_sweep_total(waiting: Seq<Job>, asked: Set<u64>, prefills: Seq<Prefill>, ids: Set<u64>)
    ensures
        total(spared(prefills, prefill_abort(), ids), prefill_blocks()) == total(prefills, prefill_blocks()) - total(
            struck(prefills, prefill_abort(), ids),
            prefill_blocks(),
        ),
        spared(waiting, job_abort(), asked).len() + struck(waiting, job_abort(), asked).len() == waiting.len(),
{
    law_sweep_keeps_everyone(prefills, prefill_abort(), ids, prefill_blocks());
    lemma_sweep_len(waiting, job_abort(), asked);
}

proof fn lemma_sweep_len<T>(line: Seq<T>, id: spec_fn(T) -> u64, ids: Set<u64>)
    ensures
        spared(line, id, ids).len() + struck(line, id, ids).len() == line.len(),
    decreases line.len(),
{
    if line.len() > 0 {
        lemma_sweep_len(line.skip(1), id, ids);
        lemma_sweep_len(line.skip(1), id, ids.remove(id(line[0])));
    }
}

/// Those a sweep spares were in line before.
pub proof fn lemma_spared_from<T>(line: Seq<T>, id: spec_fn(T) -> u64, ids: Set<u64>)
    ensures
        forall|k: int|
            0 <= k < spared(line, id, ids).len() ==> line.contains(#[trigger] spared(line, id, ids)[k]),
    decreases line.len(),
{
    if line.len() > 0 {
        let rest = line.skip(1);
        lemma_spared_from(rest, id, ids);
        lemma_spared_from(rest, id, ids.remove(id(line[0])));
        assert forall|x: T| rest.contains(x) implies line.contains(x) by {
            let j = rest.index_of(x);
            assert(line[j + 1] == x);
        }
        assert(line.contains(line[0]));
        assert forall|k: int| 0 <= k < spared(line, id, ids).len() implies line.contains(
            #[trigger] spared(line, id, ids)[k],
        ) by {
            if ids.contains(id(line[0])) {
                assert(rest.contains(spared(rest, id, ids.remove(id(line[0])))[k]));
            } else if k > 0 {
                assert(spared(line, id, ids)[k] == spared(rest, id, ids)[k - 1]);
            }
        }
    }
}

/// Joining adds the jobs' own blocks, and keeps every prompt sound.
proof fn lemma_joined(after: Seq<Prefill>, before: Seq<Prefill>, jobs: Seq<Job>, chunk: usize, paged: bool)
    requires
        joined(after, before, jobs, chunk, paged),
    ensures
        total(after, prefill_blocks()) == total(before, prefill_blocks()) + total(jobs, job_blocks()),
        (forall|k: int| 0 <= k < before.len() ==> (#[trigger] before[k]).wf()) ==> (forall|k: int|
            0 <= k < after.len() ==> (#[trigger] after[k]).wf()),
{
    let (n, m) = (before.len() as int, after.len() as int);
    assert(after.subrange(0, n) =~= before);
    assert(after =~= after.subrange(0, n) + after.subrange(n, m));
    lemma_total_concat(after.subrange(0, n), after.subrange(n, m), prefill_blocks());
    assert forall|k: int| 0 <= k < jobs.len() implies job_blocks()(#[trigger] jobs[k]) == prefill_blocks()(
        after.subrange(n, m)[k],
    ) by {
        assert(after[n + k].starts(jobs[k], chunk, paged));
    }
    lemma_total_same(jobs, after.subrange(n, m), job_blocks(), prefill_blocks());
    assert forall|k: int| n <= k < m implies (#[trigger] after[k]).wf() by {
        assert(crate::batch::admission::fresh(after[n + (k - n)], jobs[k - n], chunk, paged));
    }
}

impl Worker {
    /// Whether another row can still be told apart from all before it.
    pub fn has_row_ids(&self) -> (r: bool)
        ensures
            r == (self.next_uid() < u64::MAX),
    {
        self.rows.has_ids()
    }

    /// What one prefill step comes to: `run` is the chunk of the prompt at
    /// the head of the line, which then goes to the back or decodes.
    pub open spec fn prefills_one(&self, run: Option<ChunkRun>, after: &Worker) -> bool {
        &&& after.same_model(self)
        &&& after.waiting() == self.waiting()
        &&& after.carried() == self.carried()
        &&& forall|to: u64| #[trigger] outstanding(self, to) == outstanding(after, to)
        &&& run is None <==> self.prefills().len() == 0
        &&& run is None ==> after.prefills() == self.prefills() && after.rows() == self.rows() && after.next_uid()
            == self.next_uid()
        &&& run is Some ==> ({
            let head = self.prefills()[0];
            let from = head.state.processed();
            let to = chunk_end(head.state.tokens().len() as int, from, head.state.chunk());
            &&& run->0.abort == head.abort
            &&& run->0.from == from
            &&& run->0.tokens@ == head.state.tokens().subrange(from, to)
            &&& if to == head.state.tokens().len() {
                &&& run->0.row == Some(self.next_uid())
                &&& after.next_uid() == self.next_uid() + 1
                &&& after.prefills() == self.prefills().skip(1)
                &&& exists|through: Prefill, slot: Slot|
                    #![trigger through.hands_over(slot)]
                    stepped(head, through) && through.hands_over(slot) && after.rows() == self.rows().push(
                        Row { uid: self.next_uid(), slot },
                    )
            } else {
                &&& run->0.row is None
                &&& after.next_uid() == self.next_uid()
                &&& after.rows() == self.rows()
                &&& exists|further: Prefill|
                    #![trigger stepped(head, further)]
                    stepped(head, further) && after.prefills() == self.prefills().skip(1).push(further)
            }
        })
    }

    /// One bounded prefill chunk, round-robin across the prompts in line:
    /// the head takes a step and goes to the back, or becomes a row once
    /// its prompt is through.
    pub fn prefill_step(&mut self) -> (run: Option<ChunkRun>)
        requires
            old(self).wf(),
            old(self).next_uid() < u64::MAX,
        ensures
            final(self).wf(),
            old(self).prefills_one(run, final(self)),
            final(self).held() == old(self).held(),
            old(self).settled() ==> final(self).settled(),
            run is None ==> final(self).counted() == old(self).counted(),
            run is Some ==> final(self).counted() == (Counters {
                prefill_chunks: old(self).counted().prefill_chunks.wrapping_add(1),
                prefill_tokens: old(self).counted().prefill_tokens.wrapping_add(run->0.tokens@.len() as u64),
                ..old(self).counted()
            }),
    {
        let ghost before = *self;
        let mut prefill: Prefill = match self.prefills.pop_front() {
            Some(p) => p,
            None => return None,
        };
        let ghost head = prefill;
        let ghost rest = self.prefills@;
        proof {
            assert(rest =~= before.prefills().skip(1));
            lemma_total_first(before.prefills(), prefill_blocks());
            assert forall|k: int| 0 <= k < rest.len() implies (#[trigger] rest[k]).wf() by {
                assert(rest[k] == before.prefills@[k + 1]);
            }
        }
        let from: usize = prefill.state.tokens_processed();
        let done: bool = prefill.state.step_chunk();
        let to: usize = prefill.state.tokens_processed();
        let mut tokens: Vec<usize> = Vec::new();
        for pos in from..to
            invariant
                from <= to <= prefill.state.tokens().len(),
                tokens@ == prefill.state.tokens().subrange(from as int, pos as int),
        {
            tokens.push(prefill.state.token(pos));
            assert(tokens@ =~= prefill.state.tokens().subrange(from as int, pos + 1));
        }
        self.counters.prefill_chunks = self.counters.prefill_chunks.wrapping_add(1);
        self.counters.prefill_tokens = self.counters.prefill_tokens.wrapping_add((to - from) as u64);
        let abort: u64 = prefill.abort;
        let ghost through = prefill;
        assert(stepped(head, through));
        if done {
            let slot: Slot = prefill.into_slot();
            let ghost made = slot;
            let uid: u64 = self.rows.insert(slot);
            proof {
                let row = Row { uid, slot: made };
                assert(through.hands_over(made));
                lemma_total_push(before.rows(), row, row_blocks());
                assert forall|who: u64| #[trigger] outstanding(&before, who) == outstanding(self, who) by {
                    lemma_total_first(before.prefills(), prefill_is(who));
                    lemma_total_push(before.rows(), row, row_is(who));
                }
            }
            Some(ChunkRun { abort, from, tokens, row: Some(uid) })
        } else {
            self.prefills.push_back(prefill);
            proof {
                lemma_total_push(rest, through, prefill_blocks());
                assert forall|who: u64| #[trigger] outstanding(&before, who) == outstanding(self, who) by {
                    lemma_total_first(before.prefills(), prefill_is(who));
                    lemma_total_push(rest, through, prefill_is(who));
                }
            }
            Some(ChunkRun { abort, from, tokens, row: None })
        }
    }

    /// Rows that take a decode step this tick, in admission order.
    pub fn ready(&self) -> (r: Vec<u64>)
        ensures
            r@ == uids(self.rows().filter(ready_row())),
    {
        self.rows.ready()
    }

    /// The row of `uid` is at `i`.
    pub open spec fn at(&self, uid: u64, i: int) -> bool {
        0 <= i < self.rows().len() && self.rows()[i].uid == uid
    }

    /// The row of `uid`, for the sampler to read.
    pub fn row(&self, uid: u64) -> (r: Option<&Slot>)
        ensures
            match r {
                Some(s) => exists|i: int| self.at(uid, i) && self.rows()[i].slot == *s,
                None => forall|i: int| !self.at(uid, i),
            },
    {
        match self.rows.get(uid) {
            Some(s) => {
                let ghost i = choose|i: int| self.rows.at(uid, i) && self.rows@[i].slot == *s;
                assert(self.at(uid, i));
                Some(s)
            },
            None => {
                assert forall|i: int| !self.at(uid, i) by {
                    assert(!self.rows.at(uid, i));
                }
                None
            },
        }
    }

    /// Everything but the rows is as it was.
    pub open spec fn same_lines(&self, other: &Worker) -> bool {
        &&& self.same_model(other)
        &&& self.next_uid() == other.next_uid()
        &&& self.waiting() == other.waiting()
        &&& self.prefills() == other.prefills()
        &&& self.carried() == other.carried()
    }

    /// What taking the token sampled for row `uid` comes to. Nobody but the
    /// row is affected.
    pub open spec fn samples(&self, uid: u64, next: usize, kept: bool, after: &Worker) -> bool {
        &&& after.same_lines(self)
        &&& forall|to: u64| #[trigger] outstanding(self, to) == outstanding(after, to)
        &&& (forall|i: int| !self.at(uid, i)) ==> !kept && after.rows() == self.rows()
        &&& forall|i: int|
            #[trigger] self.at(uid, i) ==> kept == !self.rows()[i].slot.ends(next) && self.rows()[i].slot.sampled(
                next,
                after.rows()[i].slot,
            ) && after.rows() == self.rows().update(i, Row { uid, slot: after.rows()[i].slot })
    }

    /// Takes the token sampled for row `uid`; true when it joined the
    /// answer. A row that has left is nothing to act on.
    pub fn on_sample(&mut self, uid: u64, next: usize) -> (kept: bool)
        requires
            old(self).wf(),
            forall|i: int| #[trigger] old(self).at(uid, i) ==> old(self).rows()[i].slot.is_settled(),
            forall|i: int|
                #[trigger] old(self).at(uid, i) ==> run_len(old(self).rows()[i].slot.prompt_tokens) + old(
                    self,
                ).rows()[i].slot.generated_ids@.len() < usize::MAX,
        ensures
            final(self).wf(),
            old(self).samples(uid, next, kept, final(self)),
            kept ==> final(self).steps(uid),
            final(self).held() == old(self).held(),
            final(self).counted() == old(self).counted(),
    {
        let ghost before = *self;
        proof {
            before.lemma_only_one_row(uid);
        }
        let kept: bool = match self.rows.get_mut(uid) {
            Some(slot) => {
                let ghost at = choose|i: int| before.rows.at(uid, i) && before.rows@[i].slot == *slot;
                assert(before.at(uid, at));
                slot.on_sample(next)
            },
            None => {
                assert forall|i: int| !before.at(uid, i) by {
                    assert(!before.rows.at(uid, i));
                }
                false
            },
        };
        proof {
            lemma_same_claims(&before, self);
            if kept {
                let i = choose|i: int| before.at(uid, i);
                assert(self.at(uid, i));
            }
        }
        kept
    }

    /// What reading the text of row `uid` comes to. Nobody but the row is
    /// affected.
    pub open spec fn reads(&self, uid: u64, piece: Seq<char>, active: bool, after: &Worker) -> bool {
        &&& after.same_lines(self)
        &&& forall|to: u64| #[trigger] outstanding(self, to) == outstanding(after, to)
        &&& (forall|i: int| !self.at(uid, i)) ==> !active && after.rows() == self.rows()
        &&& forall|i: int|
            #[trigger] self.at(uid, i) ==> self.rows()[i].slot.fed(piece, !active, after.rows()[i].slot)
                && after.rows() == self.rows().update(i, Row { uid, slot: after.rows()[i].slot })
    }

    /// Takes the text of the token that row `uid` just kept; true when the
    /// row goes on to the forward pass, false when a stop string ended it.
    pub fn on_piece(&mut self, uid: u64, piece: &str) -> (active: bool)
        requires
            old(self).wf(),
        ensures
            final(self).wf(),
            old(self).reads(uid, piece@, active, final(self)),
            final(self).held() == old(self).held(),
            final(self).counted() == old(self).counted(),
    {
        let ghost before = *self;
        proof {
            before.lemma_only_one_row(uid);
        }
        let active: bool = match self.rows.get_mut(uid) {
            Some(slot) => {
                let ghost at = choose|i: int| before.rows.at(uid, i) && before.rows@[i].slot == *slot;
                assert(before.at(uid, at));
                let matched: bool = slot.apply_stop_buffer(piece);
                !matched
            },
            None => {
                assert forall|i: int| !before.at(uid, i) by {
                    assert(!before.rows.at(uid, i));
                }
                false
            },
        };
        proof {
            lemma_same_claims(&before, self);
        }
        active
    }

    /// The row of `uid` has a token that is still to be run.
    pub open spec fn steps(&self, uid: u64) -> bool {
        exists|i: int| #[trigger] self.at(uid, i) && self.rows()[i].slot.has_unrun_token()
    }

    /// The inputs of one batched forward pass: for each active row the token
    /// sampled last and the position it takes. `active[j]` names the row
    /// that owns place `j`.
    pub fn batch(&self, active: &[u64]) -> (r: (Vec<usize>, Vec<usize>))
        requires
            self.wf(),
            forall|j: int| 0 <= j < active@.len() ==> self.steps(#[trigger] active@[j]),
        ensures
            r.0@.len() == active@.len(),
            r.1@.len() == active@.len(),
            forall|j: int, i: int|
                #![trigger active@[j], self.rows()[i]]
                0 <= j < active@.len() && self.at(active@[j], i) ==> r.0@[j]
                    == self.rows()[i].slot.generated_ids@.last() && r.1@[j] == self.rows()[i].slot.pos,
    {
        let mut tokens: Vec<usize> = Vec::new();
        let mut positions: Vec<usize> = Vec::new();
        for j in 0usize..active.len()
            invariant
                self.wf(),
                forall|k: int| 0 <= k < active@.len() ==> self.steps(#[trigger] active@[k]),
                tokens@.len() == j,
                positions@.len() == j,
                forall|k: int, i: int|
                    #![trigger active@[k], self.rows()[i]]
                    0 <= k < j && self.at(active@[k], i) ==> tokens@[k]
                        == self.rows()[i].slot.generated_ids@.last() && positions@[k] == self.rows()[i].slot.pos,
        {
            let uid: u64 = active[j];
            proof {
                self.lemma_only_one_row(uid);
                assert(self.steps(active@[j as int]));
            }
            match self.row(uid) {
                Some(slot) => {
                    let n: usize = slot.generated_ids.len();
                    tokens.push(slot.generated_ids[n - 1]);
                    positions.push(slot.pos);
                },
                None => {
                    assert(false);
                },
            }
        }
        (tokens, positions)
    }

    /// The row that a decode step of `active` leaves.
    pub open spec fn after_step(row: Row, active: Seq<u64>) -> Row {
        if active.contains(row.uid) {
            Row { uid: row.uid, slot: row.slot.advanced() }
        } else {
            row
        }
    }

    /// What one batched forward pass of `active` comes to.
    pub open spec fn takes_step(&self, active: Seq<u64>, after: &Worker) -> bool {
        &&& after.same_lines(self)
        &&& forall|to: u64| #[trigger] outstanding(self, to) == outstanding(after, to)
        &&& after.rows() == self.rows().map_values(|r: Row| Worker::after_step(r, active))
    }

    /// One batched forward pass has run: every active row moves on by one
    /// position, and ends once its budget is spent.
    pub fn step(&mut self, active: &[u64])
        requires
            old(self).wf(),
            forall|j: int| 0 <= j < active@.len() ==> old(self).steps(#[trigger] active@[j]),
            active@.no_duplicates(),
        ensures
            final(self).wf(),
            old(self).takes_step(active@, final(self)),
            final(self).held() == old(self).held(),
            final(self).counted() == (Counters {
                decode_steps: old(self).counted().decode_steps.wrapping_add(1),
                ..old(self).counted()
            }),
    {
        let ghost before = *self;
        self.counters.decode_steps = self.counters.decode_steps.wrapping_add(1);
        for j in 0usize..active.len()
            invariant
                self.wf(),
                before.wf(),
                active@.no_duplicates(),
                forall|k: int| 0 <= k < active@.len() ==> before.steps(#[trigger] active@[k]),
                self.same_lines(&before),
                self.counters == (Counters {
                    decode_steps: before.counters.decode_steps.wrapping_add(1),
                    ..before.counters
                }),
                self.rows().len() == before.rows().len(),
                forall|i: int|
                    0 <= i < before.rows().len() ==> #[trigger] self.rows()[i] == Worker::after_step(
                        before.rows()[i],
                        active@.take(j as int),
                    ),
        {
            let uid: u64 = active[j];
            let ghost mid = *self;
            let ghost (was, is) = (active@.take(j as int), active@.take(j + 1));
            proof {
                before.lemma_only_one_row(uid);
                mid.lemma_only_one_row(uid);
                assert(before.steps(active@[j as int]));
                assert(is =~= was.push(uid));
                assert(!was.contains(uid)) by {
                    if was.contains(uid) {
                        let k = was.index_of(uid);
                        assert(active@[k] == active@[j as int]);
                    }
                }
                assert forall|x: u64| is.contains(x) == (was.contains(x) || x == uid) by {
                    if was.contains(x) {
                        assert(is[was.index_of(x)] == x);
                    }
                    assert(is[j as int] == uid);
                    if is.contains(x) && x != uid {
                        assert(was[is.index_of(x)] == x);
                    }
                }
            }
            let ghost i = choose|i: int| #[trigger] before.at(uid, i) && before.rows()[i].slot.has_unrun_token();
            proof {
                assert(mid.rows()[i] == before.rows()[i]);
                assert(mid.at(uid, i));
                assert(mid.rows.at(uid, i));
            }
            match self.rows.get_mut(uid) {
                Some(slot) => {
                    let ghost at = choose|k: int| mid.rows.at(uid, k) && mid.rows@[k].slot == *slot;
                    assert(mid.at(uid, at));
                    slot.advance();
                },
                None => {
                    assert(false);
                },
            }
            assert forall|k: int| 0 <= k < before.rows().len() implies #[trigger] self.rows()[k]
                == Worker::after_step(before.rows()[k], is) by {
                if k != i {
                    assert(before.rows()[k].uid != uid) by {
                        if before.rows()[k].uid == uid {
                            assert(before.at(uid, k));
                        }
                    }
                    assert(self.rows()[k] == mid.rows()[k]);
                }
            }
        }
        proof {
            assert(active@.take(active@.len() as int) =~= active@);
            assert(self.rows() =~= before.rows().map_values(|r: Row| Worker::after_step(r, active@)));
            lemma_same_claims(&before, self);
        }
    }

    /// What closing a tick comes to: those that finished are answered and
    /// gone. Everyone who is answered is no longer waiting, and nobody else is.
    pub open spec fn closes(&self, replies: Seq<Reply>, after: &Worker) -> bool {
        &&& after.same_lines(self)
        &&& after.rows() == self.rows().filter(going())
        &&& rows_answered(replies, self.rows().filter(finished()))
        &&& forall|to: u64| #[trigger] outstanding(self, to) == outstanding(after, to) + total(replies, reply_is(to))
    }

    /// Closes a tick: every row that finished is answered and its blocks
    /// come free.
    pub fn close_tick(&mut self, budget: &mut BlockBudget) -> (replies: Vec<Reply>)
        requires
            old(self).wf(),
            old(budget).wf(),
            old(budget).blocks() is Some ==> old(budget).reserved() == old(self).held(),
        ensures
            final(self).wf(),
            old(self).closes(replies@, final(self)),
            final(self).counted() == old(self).counted(),
            final(budget).wf(),
            final(budget).same_limits(old(budget)),
            final(budget).too_large() == old(budget).too_large(),
            final(budget).too_long() == old(budget).too_long(),
            final(budget).blocks() is Some ==> final(budget).reserved() == final(self).held(),
            old(self).settled() ==> final(self).settled(),
    {
        let ghost before = *self;
        proof {
            lemma_total_nonneg(self.prefills@, prefill_blocks());
            lemma_total_nonneg(self.rows@.filter(going()), row_blocks());
        }
        let replies: Vec<Reply> = self.rows.flush_finished(budget);
        proof {
            let (on, ended) = (before.rows().filter(going()), before.rows().filter(finished()));
            if before.settled() {
                assert forall|i: int| 0 <= i < self.rows().len() && (#[trigger] self.rows()[i]).slot.finish
                    is None implies self.rows()[i].slot.is_settled() by {
                    lemma_filter_from(before.rows(), going(), i);
                    let j = before.rows().index_of(self.rows()[i]);
                    assert(before.rows()[j] == self.rows()[i]);
                }
            }
            assert forall|to: u64| #[trigger] outstanding(&before, to) == outstanding(self, to) + total(
                replies@,
                reply_is(to),
            ) by {
                lemma_total_split(before.rows(), going(), finished(), row_is(to));
                lemma_total_same(replies@, ended, reply_is(to), row_is(to));
            }
        }
        replies
    }

    /// A snapshot of the counters.
    pub fn stats(&self, queue: &QueueGate, budget: &BlockBudget, aborts: &AbortInbox) -> (s: BatcherStats)
        requires
            budget.wf(),
        ensures
            s.prefill_chunks == self.counted().prefill_chunks,
            s.prefill_tokens == self.counted().prefill_tokens,
            s.decode_steps == self.counted().decode_steps,
            s.queue_depth == queue.waiting(),
            s.queue_rejected == queue.refusals(),
            s.kv_blocks_total == (match budget.blocks() {
                Some(t) => t,
                None => 0,
            }),
            s.kv_blocks_free == budget.unreserved(),
            s.kv_block_size == budget.size(),
            s.kv_rejected_too_large == budget.too_large(),
            s.kv_rejected_context_length == budget.too_long(),
            s.kv_blocks_peak == self.counted().peak_blocks,
            s.aborted == aborts.stopped(),
    {
        BatcherStats {
            prefill_chunks: self.counters.prefill_chunks,
            prefill_tokens: self.counters.prefill_tokens,
            decode_steps: self.counters.decode_steps,
            queue_depth: queue.depth(),
            queue_rejected: queue.rejected(),
            kv_blocks_total: budget.total(),
            kv_blocks_free: budget.free(),
            kv_block_size: budget.block_size(),
            kv_rejected_too_large: budget.rejected_too_large(),
            kv_rejected_context_length: budget.rejected_context_length(),
            kv_blocks_peak: self.counters.peak_blocks,
            aborted: aborts.aborted(),
        }
    }

    /// An identity names one row at most.
    pub proof fn lemma_only_one_row(&self, uid: u64)
        requires
            self.wf(),
        ensures
            forall|i: int, j: int| #[trigger] self.at(uid, i) && #[trigger] self.at(uid, j) ==> i == j,
    {
        assert forall|i: int, j: int| #[trigger] self.at(uid, i) && #[trigger] self.at(uid, j) implies i == j by {
            if i < j {
                assert(self.rows@[i].uid < self.rows@[j].uid);
            } else if j < i {
                assert(self.rows@[j].uid < self.rows@[i].uid);
            }
        }
    }
}

/// Rows that keep their callers and their blocks leave both counts as they
/// were.
proof fn lemma_same_claims(before: &Worker, after: &Worker)
    requires
        after.same_lines(before),
        after.rows().len() == before.rows().len(),
        forall|i: int|
            0 <= i < after.rows().len() ==> (#[trigger] after.rows()[i]).slot.reply == before.rows()[i].slot.reply
                && after.rows()[i].slot.blocks == before.rows()[i].slot.blocks,
    ensures
        after.held() == before.held(),
        forall|to: u64| #[trigger] outstanding(before, to) == outstanding(after, to),
{
    lemma_total_same(after.rows(), before.rows(), row_blocks(), row_blocks());
    assert forall|to: u64| #[trigger] outstanding(before, to) == outstanding(after, to) by {
        lemma_total_same(after.rows(), before.rows(), row_is(to), row_is(to));
    }
}

/// A decode step settles the batch: once every row with an unrun token has
/// taken the step, no unfinished row has one.
pub proof fn law_a_decode_step_settles_the_batch(rows: Seq<Row>, active: Seq<u64>)
    requires
        forall|i: int|
            0 <= i < rows.len() ==> if active.contains((#[trigger] rows[i]).uid) {
                rows[i].slot.wf() && rows[i].slot.has_unrun_token()
            } else {
                rows[i].slot.finish is None ==> rows[i].slot.is_settled()
            },
    ensures
        forall|i: int|
            0 <= i < rows.len() ==> Worker::after_step(#[trigger] rows[i], active).slot.finish is None
                ==> Worker::after_step(rows[i], active).slot.is_settled(),
{
}

/// Work in flight never holds more blocks than there are, and a worker with
/// nothing in flight has given all of them back.
pub proof fn law_an_idle_worker_holds_no_blocks(w: &Worker, queue: &QueueGate, budget: &BlockBudget)
    requires
        w.accounted(queue, budget),
        budget.blocks() is Some,
    ensures
        0 <= w.held() <= budget.blocks()->0,
        w.in_flight() == 0 ==> budget.unreserved() == budget.blocks()->0,
{
    budget.law_blocks_are_accounted_for();
}

/// A prefill step runs the next tokens of the prompt at the head of the line,
/// a whole chunk of them or all that are left. A prompt that is through
/// becomes the last row, under the next identity; any other goes to the back
/// of the line with its place moved on. Every other prompt and row stays.
pub proof fn law_a_chunk_is_the_next_of_the_head(w: &Worker, run: ChunkRun, after: &Worker)
    requires
        w.wf(),
        w.prefills_one(Some(run), after),
    ensures
        w.prefills().len() > 0,
        ({
            let head = w.prefills()[0];
            let (from, n) = (head.state.processed(), run.tokens@.len() as int);
            let through = from + n == head.state.tokens().len();
            &&& run.abort == head.abort
            &&& run.from == from
            &&& from + n <= head.state.tokens().len()
            &&& forall|i: int| 0 <= i < n ==> #[trigger] run.tokens@[i] == head.state.tokens()[from + i]
            &&& n == head.state.chunk() || (n < head.state.chunk() && through)
            &&& through ==> {
                &&& run.row == Some(w.next_uid())
                &&& after.prefills() == w.prefills().skip(1)
                &&& after.rows().drop_last() == w.rows()
                &&& after.rows().last().uid == w.next_uid()
                &&& after.rows().last().slot.reply == head.reply
                &&& after.rows().last().slot.abort == head.abort
                &&& after.rows().last().slot.pos == head.state.tokens().len()
                &&& after.rows().last().slot.prompt_ids@ == head.state.tokens()
            }
            &&& !through ==> {
                &&& run.row is None
                &&& after.rows() == w.rows()
                &&& after.prefills().drop_last() == w.prefills().skip(1)
                &&& after.prefills().last().reply == head.reply
                &&& after.prefills().last().abort == head.abort
                &&& after.prefills().last().state.tokens() == head.state.tokens()
                &&& after.prefills().last().state.processed() == from + n
            }
        }),
        after.waiting() == w.waiting(),
        after.carried() == w.carried(),
{
    let head = w.prefills()[0];
    assert(head.wf());
    head.state.lemma_in_bounds();
    let from = head.state.processed();
    let to = chunk_end(head.state.tokens().len() as int, from, head.state.chunk());
    assert(run.tokens@.len() == to - from);
    if to == head.state.tokens().len() {
        let (through, slot) = choose|through: Prefill, slot: Slot|
            #![trigger through.hands_over(slot)]
            stepped(head, through) && through.hands_over(slot) && after.rows() == w.rows().push(
                Row { uid: w.next_uid(), slot },
            );
        assert(after.rows().drop_last() =~= w.rows());
    } else {
        let further = choose|further: Prefill|
            #![trigger stepped(head, further)]
            stepped(head, further) && after.prefills() == w.prefills().skip(1).push(further);
        assert(after.prefills().drop_last() =~= w.prefills().skip(1));
    }
}

proof fn lemma_filter_keeps<T>(s: Seq<T>, p: spec_fn(T) -> bool)
    requires
        forall|i: int| 0 <= i < s.len() ==> p(#[trigger] s[i]),
    ensures
        s.filter(p) == s,
    decreases s.len(),
{
    reveal(Seq::filter);
    if s.len() > 0 {
        let rest = s.drop_last();
        assert forall|i: int| 0 <= i < rest.len() implies p(#[trigger] rest[i]) by {
            assert(rest[i] == s[i]);
        }
        lemma_filter_keeps(rest, p);
        assert(p(s[s.len() - 1]));
        assert(rest.push(s.last()) =~= s);
    }
}

/// A tick that opens with nothing to stop and nothing finished takes jobs
/// from the head of the line and disturbs nobody else: as many as the
/// sequence cap and the block budget have room for beside the rows and the
/// prompts in flight.
pub proof fn law_a_quiet_tick_only_admits_jobs(w: &Worker, blocks: Option<usize>, replies: Seq<Reply>, after: &Worker)
    requires
        w.opens(Set::empty(), blocks, replies, after),
        w.carried() == Set::<u64>::empty(),
        forall|i: int| 0 <= i < w.rows().len() ==> (#[trigger] w.rows()[i]).slot.finish is None,
    ensures
        ({
            let room = Room {
                seqs: w.knobs().max_seqs - w.rows().len() - w.prefills().len(),
                blocks: match blocks {
                    Some(all) => Some(
                        all - total(w.prefills(), |p: Prefill| p.blocks as int) - total(
                            w.rows(),
                            |r: Row| r.slot.blocks as int,
                        ),
                    ),
                    None => None,
                },
            };
            let n = admitted(w.waiting(), room, w.vocab());
            &&& after.waiting() == w.waiting().skip(n)
            &&& after.rows() == w.rows()
            &&& after.prefills().len() == w.prefills().len() + w.waiting().take(n).filter(runnable(w.vocab())).len()
            &&& after.prefills().take(w.prefills().len() as int) == w.prefills()
            &&& replies.len() == w.waiting().take(n).filter(unrunnable(w.vocab())).len()
            &&& after.carried() == Set::<u64>::empty()
        }),
{
    let none = Set::<u64>::empty();
    let o = opening(w, none, blocks);
    assert(w.carried().union(none) =~= none);
    crate::batch::aborts::law_the_unnamed_stay_in_line(w.waiting(), job_abort(), none);
    crate::batch::aborts::law_the_unnamed_stay_in_line(w.prefills(), prefill_abort(), none);
    assert(o.marked =~= w.rows());
    lemma_filter_keeps(w.rows(), going());
    lemma_filter_drops(w.rows(), finished());
    lemma_filter_drops(w.rows(), cancels(none));
    assert(without(none, aborts_of(w.rows().filter(cancels(none)))) =~= none);
    assert(after.prefills().take(w.prefills().len() as int) =~= w.prefills());
    assert(prefill_blocks() =~= |p: Prefill| p.blocks as int);
    assert(row_blocks() =~= |r: Row| r.slot.blocks as int);
}

proof fn lemma_filter_drops<T>(s: Seq<T>, p: spec_fn(T) -> bool)
    requires
        forall|i: int| 0 <= i < s.len() ==> !p(#[trigger] s[i]),
    ensures
        s.filter(p) == Seq::<T>::empty(),
    decreases s.len(),
{
    reveal(Seq::filter);
    if s.len() > 0 {
        let rest = s.drop_last();
        assert forall|i: int| 0 <= i < rest.len() implies !p(#[trigger] rest[i]) by {
            assert(rest[i] == s[i]);
        }
        lemma_filter_drops(rest, p);
        assert(!p(s[s.len() - 1]));
    }
}

/// A decode step moves exactly the active rows: each by one position, at the
/// end of its budget to its end; every other row is as it was.
pub proof fn law_a_step_moves_the_active_rows(w: &Worker, active: Seq<u64>, after: &Worker, i: int)
    requires
        w.takes_step(active, after),
        0 <= i < w.rows().len(),
        w.rows()[i].slot.pos < usize::MAX,
    ensures
        after.rows().len() == w.rows().len(),
        after.rows()[i].uid == w.rows()[i].uid,
        !active.contains(w.rows()[i].uid) ==> after.rows()[i] == w.rows()[i],
        active.contains(w.rows()[i].uid) ==> {
            &&& after.rows()[i].slot.pos == w.rows()[i].slot.pos + 1
            &&& after.rows()[i].slot.generated_ids == w.rows()[i].slot.generated_ids
            &&& after.rows()[i].slot.visible == w.rows()[i].slot.visible
            &&& after.rows()[i].slot.finish == (if w.rows()[i].slot.generated_ids@.len()
                >= w.rows()[i].slot.max_tokens {
                Some(crate::generate::FinishReason::Length)
            } else {
                w.rows()[i].slot.finish
            })
        },
        after.waiting() == w.waiting(),
        after.prefills() == w.prefills(),
{
}

/// Closing a tick lets go of exactly the rows that have finished, each with
/// its own answer; the lines stay.
pub proof fn law_closing_answers_the_finished(w: &Worker, replies: Seq<Reply>, after: &Worker, k: int)
    requires
        w.closes(replies, after),
        0 <= k < replies.len(),
    ensures
        after.rows() == w.rows().filter(|r: Row| r.slot.finish is None),
        replies.len() == w.rows().filter(|r: Row| r.slot.finish is Some).len(),
        answers(replies[k], w.rows().filter(|r: Row| r.slot.finish is Some)[k].slot),
        after.waiting() == w.waiting(),
        after.prefills() == w.prefills(),
        after.carried() == w.carried(),
        after.next_uid() == w.next_uid(),
{
    assert(going() =~= |r: Row| r.slot.finish is None);
    assert(finished() =~= |r: Row| r.slot.finish is Some);
}

/// Sampling for a row and reading its text touch that row alone.
pub proof fn law_a_row_is_worked_on_alone(
    w: &Worker,
    uid: u64,
    next: usize,
    piece: Seq<char>,
    flag: bool,
    after: &Worker,
    i: int,
    j: int,
)
    requires
        w.samples(uid, next, flag, after) || w.reads(uid, piece, flag, after),
        w.at(uid, i),
        0 <= j < w.rows().len(),
        j != i,
    ensures
        after.rows().len() == w.rows().len(),
        after.rows()[i].uid == uid,
        after.rows()[j] == w.rows()[j],
        w.samples(uid, next, flag, after) ==> w.rows()[i].slot.sampled(next, after.rows()[i].slot),
        w.samples(uid, next, flag, after) ==> flag == !(w.rows()[i].slot.eos_id == Some(next)
            || w.rows()[i].slot.stops.stop_token_ids().contains(next)),
        w.reads(uid, piece, flag, after) ==> w.rows()[i].slot.fed(piece, !flag, after.rows()[i].slot),
        after.waiting() == w.waiting(),
        after.prefills() == w.prefills(),
{
}

/// A job that arrives stands last in line, and nobody else is affected.
pub proof fn law_a_new_job_stands_last(w: &Worker, job: Job, after: &Worker)
    requires
        w.enqueues(job, after),
    ensures
        after.waiting().len() == w.waiting().len() + 1,
        after.waiting().last() == job,
        after.waiting().drop_last() == w.waiting(),
        after.rows() == w.rows(),
        after.prefills() == w.prefills(),
        after.carried() == w.carried(),
{
    assert(after.waiting().drop_last() =~= w.waiting());
}

/// A count is itself as far as it can be held, and never smaller than one
/// that was held before.
pub proof fn law_counts_are_capped(a: int, b: int)
    ensures
        a <= usize::MAX ==> capped(a) == a,
        a > usize::MAX ==> capped(a) == usize::MAX,
        larger(a, b) >= a,
        larger(a, b) >= b,
        larger(a, b) == a || larger(a, b) == b,
{
}

/// A tick opens by stopping what was asked to stop, now or before it arrived:
/// first among the waiting jobs, then, with the ids that found none there,
/// among the prompts, then among the rows, which are marked. An id that found
/// nobody is kept.
pub proof fn law_a_tick_stops_the_named(w: &Worker, pending: Set<u64>, blocks: Option<usize>, i: int)
    requires
        0 <= i < w.rows().len(),
    ensures
        ({
            let o = opening(w, pending, blocks);
            let asked = w.carried().union(pending);
            let job = |j: Job| j.abort;
            let prompt = |p: Prefill| p.abort;
            let left = unclaimed(w.waiting(), job, asked);
            let last = unclaimed(w.prefills(), prompt, left);
            let row = w.rows()[i].slot;
            &&& o.jobs == struck(w.waiting(), job, asked)
            &&& o.waiting == spared(w.waiting(), job, asked)
            &&& o.prompts == struck(w.prefills(), prompt, left)
            &&& o.prefills == spared(w.prefills(), prompt, left)
            &&& o.marked.len() == w.rows().len()
            &&& o.marked[i].uid == w.rows()[i].uid
            &&& o.marked[i].slot.finish == (if last.contains(row.abort) && row.finish is None {
                Some(crate::generate::FinishReason::Cancelled)
            } else {
                row.finish
            })
            &&& o.marked[i].slot.generated_ids == row.generated_ids
            &&& o.marked[i].slot.visible == row.visible
            &&& o.carried.subset_of(last)
            &&& forall|x: u64|
                last.contains(x) && (forall|k: int|
                    0 <= k < w.rows().len() ==> (#[trigger] w.rows()[k]).slot.abort != x) ==> #[trigger] o.carried.contains(
                    x,
                )
        }),
{
    assert(job_abort() =~= |j: Job| j.abort);
    assert(prefill_abort() =~= |p: Prefill| p.abort);
    let o = opening(w, pending, blocks);
    let asked = w.carried().union(pending);
    let last = unclaimed(w.prefills(), prefill_abort(), unclaimed(w.waiting(), job_abort(), asked));
    let marked = w.rows().filter(cancels(last));
    assert forall|x: u64|
        last.contains(x) && (forall|k: int|
            0 <= k < w.rows().len() ==> (#[trigger] w.rows()[k]).slot.abort != x) implies #[trigger] o.carried.contains(
        x,
    ) by {
        if aborts_of(marked).contains(x) {
            let k = aborts_of(marked).index_of(x);
            lemma_filter_from(w.rows(), cancels(last), k);
            let at = w.rows().index_of(marked[k]);
            assert(w.rows()[at] == marked[k]);
        }
    }
}

/// The answers a tick opens with, in their order: the cancelled jobs, the
/// cancelled prompts, the finished rows, the jobs that cannot run; each gets
/// its own.
pub proof fn law_a_tick_answers_in_order(
    replies: Seq<Reply>,
    jobs: Seq<Job>,
    prompts: Seq<Prefill>,
    ended: Seq<Row>,
    bad: Seq<Job>,
    vocab: usize,
    k: int,
)
    requires
        opening_replies(replies, jobs, prompts, ended, bad, vocab),
        0 <= k < replies.len(),
    ensures
        ({
            let (a, b, c) = (jobs.len() as int, prompts.len() as int, ended.len() as int);
            &&& replies.len() == a + b + c + bad.len()
            &&& k < a ==> replies[k].is_cancelled(jobs[k].reply, jobs[k].prompt_tokens.len())
            &&& a <= k < a + b ==> replies[k].is_cancelled(prompts[k - a].reply, prompts[k - a].prompt_tokens)
            &&& a + b <= k < a + b + c ==> answers(replies[k], ended[k - a - b].slot)
            &&& a + b + c <= k ==> replies[k].is_out_of_vocab(
                bad[k - a - b - c].reply,
                bad[k - a - b - c].prompt_tokens@,
                vocab,
            )
        }),
{
    let (a, b, c) = (jobs.len() as int, prompts.len() as int, ended.len() as int);
    if k < a {
        assert(replies.subrange(0, a)[k] == replies[k]);
    } else if k < a + b {
        assert(replies.subrange(a, a + b)[k - a] == replies[k]);
    } else if k < a + b + c {
        assert(replies.subrange(a + b, a + b + c)[k - a - b] == replies[k]);
    } else {
        assert(replies.subrange(a + b + c, replies.len() as int)[k - a - b - c] == replies[k]);
    }
}

/// Who still waits under a name: every job, prompt and row whose answer goes
/// there counts once.
pub proof fn law_everyone_waiting_counts_once(j: Job, p: Prefill, r: Row, a: Reply, to: u64)
    ensures
        job_is(to)(j) == if j.reply == to { 1int } else { 0 },
        prefill_is(to)(p) == if p.reply == to { 1int } else { 0 },
        row_is(to)(r) == if r.slot.reply == to { 1int } else { 0 },
        reply_is(to)(a) == if a.to == to { 1int } else { 0 },
{
}

/// What in-flight work holds and how much of it there is.
pub proof fn law_in_flight_work_is_counted(w: &Worker)
    ensures
        w.in_flight() == w.rows().len() + w.prefills().len(),
        w.held() == total(w.prefills(), |p: Prefill| p.blocks as int) + total(w.rows(), |r: Row| r.slot.blocks as int),
{
    assert(prefill_blocks() =~= |p: Prefill| p.blocks as int);
    assert(row_blocks() =~= |r: Row| r.slot.blocks as int);
}

/// A prefill step counts itself and its tokens, a decode step counts itself,
/// and neither counts anything else.
pub proof fn law_steps_are_counted(
    w: &mut Worker,
    run: Option<ChunkRun>,
    v: &mut Worker,
    active: &[u64],
    u: (),
    queue: &QueueGate,
    budget: &BlockBudget,
    aborts: &AbortInbox,
    a: BatcherStats,
    b: BatcherStats,
    c: BatcherStats,
)
    requires
        call_ensures(Worker::prefill_step, (w,), run),
        *old(v) == *final(w),
        call_ensures(Worker::step, (v, active), u),
        call_ensures(Worker::stats, (&*old(w), queue, budget, aborts), a),
        call_ensures(Worker::stats, (&*final(w), queue, budget, aborts), b),
        call_ensures(Worker::stats, (&*final(v), queue, budget, aborts), c),
        run is Some ==> run->0.tokens@.len() <= u64::MAX,
    ensures
        run is None ==> b.prefill_chunks == a.prefill_chunks && b.prefill_tokens == a.prefill_tokens,
        run is Some ==> b.prefill_chunks == (a.prefill_chunks + 1) % 0x1_0000_0000_0000_0000,
        run is Some ==> b.prefill_tokens == (a.prefill_tokens + run->0.tokens@.len()) % 0x1_0000_0000_0000_0000,
        b.decode_steps == a.decode_steps,
        c.decode_steps == (b.decode_steps + 1) % 0x1_0000_0000_0000_0000,
        c.prefill_chunks == b.prefill_chunks,
        c.prefill_tokens == b.prefill_tokens,
        b.kv_blocks_peak == a.kv_blocks_peak && c.kv_blocks_peak == b.kv_blocks_peak,
{
}

/// What is reported of the queue, the budget and the cancellations is what
/// they say themselves.
pub proof fn law_the_report_is_what_each_says(
    w: &Worker,
    queue: &QueueGate,
    budget: &BlockBudget,
    aborts: &AbortInbox,
    s: BatcherStats,
    depth: usize,
    rejected: u64,
    total: usize,
    free: usize,
    size: usize,
    large: u64,
    long: u64,
    aborted: u64,
)
    requires
        call_ensures(Worker::stats, (w, queue, budget, aborts), s),
        call_ensures(QueueGate::depth, (queue,), depth),
        call_ensures(QueueGate::rejected, (queue,), rejected),
        call_ensures(BlockBudget::total, (budget,), total),
        call_ensures(BlockBudget::free, (budget,), free),
        call_ensures(BlockBudget::block_size, (budget,), size),
        call_ensures(BlockBudget::rejected_too_large, (budget,), large),
        call_ensures(BlockBudget::rejected_context_length, (budget,), long),
        call_ensures(AbortInbox::aborted, (aborts,), aborted),
    ensures
        s.queue_depth == depth,
        s.queue_rejected == rejected,
        s.kv_blocks_total == total,
        s.kv_blocks_free == free,
        s.kv_block_size == size,
        s.kv_rejected_too_large == large,
        s.kv_rejected_context_length == long,
        s.aborted == aborted,
{
}

/// Each row of a batch runs its newest token at its own position, in the
/// order asked for.
pub proof fn law_a_batch_runs_the_newest_tokens(
    w: &Worker,
    active: &[u64],
    r: (Vec<usize>, Vec<usize>),
    j: int,
    i: int,
)
    requires
        call_ensures(Worker::batch, (w, active), r),
        0 <= j < active@.len(),
        0 <= i < w.rows().len(),
        w.rows()[i].uid == active@[j],
    ensures
        r.0@.len() == active@.len() && r.1@.len() == active@.len(),
        r.0@[j] == w.rows()[i].slot.generated_ids@.last(),
        r.1@[j] == w.rows()[i].slot.pos,
{
    assert(w.at(active@[j], i));
}

/// A worker is idle while nothing waits, is prefilled or decodes; a new job
/// ends that.
pub proof fn law_a_new_job_ends_the_idling(w: &mut Worker, job: Job, u: (), before: bool, after: bool)
    requires
        call_ensures(Worker::enqueue, (w, job), u),
        call_ensures(Worker::is_idle, (&*old(w),), before),
        call_ensures(Worker::is_idle, (&*final(w),), after),
    ensures
        before <==> old(w).rows().len() + old(w).prefills().len() + old(w).waiting().len() == 0,
        !after,
{
}

/// The most blocks ever held is never less than what is held now, and it only
/// rises to what was held.
pub proof fn law_the_peak_is_the_most_ever_held(
    w: &mut Worker,
    queue: &mut QueueGate,
    budget: &mut BlockBudget,
    aborts: &mut AbortInbox,
    replies: Vec<Reply>,
    before: BatcherStats,
    after: BatcherStats,
)
    requires
        call_ensures(Worker::open_tick, (w, queue, budget, aborts), replies),
        call_ensures(Worker::stats, (&*old(w), &*old(queue), &*old(budget), &*old(aborts)), before),
        call_ensures(Worker::stats, (&*final(w), &*final(queue), &*final(budget), &*final(aborts)), after),
    ensures
        after.kv_blocks_peak >= before.kv_blocks_peak,
        final(w).held() <= usize::MAX ==> after.kv_blocks_peak >= final(w).held(),
        after.kv_blocks_peak == before.kv_blocks_peak || after.kv_blocks_peak == final(w).held()
            || after.kv_blocks_peak == usize::MAX,
        after.prefill_chunks == before.prefill_chunks,
        after.prefill_tokens == before.prefill_tokens,
        after.decode_steps == before.decode_steps,
        after.queue_rejected == before.queue_rejected,
        after.kv_blocks_total == before.kv_blocks_total,
{
}

} // verus!
