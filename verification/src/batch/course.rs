//! One request among others, from its place in line to its answer.
//!
//! The scheduler is driven by calls on a [`Worker`]. A [`Course`] is where
//! that stands between two calls; [`law_batching_changes_no_answer`] says
//! what any run of such calls comes to for one request.
use vstd::prelude::*;
use crate::answer::{
    answering, is_reading, law_an_answer_is_final, law_an_unstopped_answer_spends_its_budget, lemma_was_read, Answer,
    Ask, Reading,
};
use crate::batch::aborts::{job_abort, prefill_abort, struck, unclaimed};
use crate::batch::admission::{fresh, runnable, unrunnable};
use crate::batch::prefill::{run_as, Job, Prefill, Reply};
use crate::batch::rows::{after_cancel, answers, finished, going, Row, Slot};
use crate::batch::totals::{lemma_total_concat, lemma_total_push, total};
use crate::batch::worker::{
    job_is, lemma_filter_from, lemma_spared_from, opening, outstanding, prefill_is, reply_is, row_is, stepped, ChunkRun,
    Worker,
};
use crate::generate::{in_vocab, prefill_plan, DecodeLoop, FinishReason, PrefixMatch};
use crate::generation::{
    asked, held_after, is_answer, is_new, law_a_request_is_answered_by_itself, outcome, pass_tokens, reached, said, Pass,
    Turn,
};

verus! {

/// One call on the scheduler, with what was handed in and what came back.
pub enum Call {
    Enqueue { job: Job },
    OpenTick { pending: Set<u64>, blocks: Option<usize>, replies: Seq<Reply> },
    PrefillStep { run: Option<ChunkRun> },
    OnSample { uid: u64, token: usize, kept: bool },
    OnPiece { uid: u64, text: Seq<char>, active: bool },
    Step,
    CloseTick { replies: Seq<Reply> },
}

/// Where the scheduler and its driver stand between two calls.
pub struct Course {
    pub worker: Worker,
    /// The row that kept a token whose text is still to be handed in.
    pub unread: Option<u64>,
    /// The rows that the next batched pass runs.
    pub active: Seq<u64>,
}

impl Course {
    /// No decode step is under way.
    pub open spec fn is_between_steps(&self) -> bool {
        self.unread is None && self.active.len() == 0
    }

    /// A call leads from one place to the next. In a decode step each ready
    /// row is sampled at most once, the text of a token that was kept is
    /// handed in next, and the rows that are then still active take the step
    /// together.
    pub open spec fn goes(&self, call: Call, after: Course) -> bool {
        let (w, v) = (self.worker, after.worker);
        &&& v.wf()
        &&& match call {
            Call::Enqueue { job } => {
                &&& self.is_between_steps() && after.is_between_steps()
                &&& w.enqueues(job, &v)
            },
            Call::OpenTick { pending, blocks, replies } => {
                &&& self.is_between_steps() && after.is_between_steps()
                &&& w.opens(pending, blocks, replies, &v)
            },
            Call::PrefillStep { run } => {
                &&& self.is_between_steps() && after.is_between_steps()
                &&& w.prefills_one(run, &v)
            },
            Call::OnSample { uid, token, kept } => {
                &&& self.unread is None
                &&& !self.active.contains(uid)
                &&& exists|i: int| #[trigger] w.at(uid, i) && w.rows()[i].slot.is_ready()
                &&& w.samples(uid, token, kept, &v)
                &&& after.unread == if kept { Some(uid) } else { None }
                &&& after.active == self.active
            },
            Call::OnPiece { uid, text, active } => {
                &&& self.unread == Some(uid)
                &&& w.reads(uid, text, active, &v)
                &&& after.unread is None
                &&& after.active == if active { self.active.push(uid) } else { self.active }
            },
            Call::Step => {
                &&& self.unread is None
                &&& w.takes_step(self.active, &v)
                &&& after.is_between_steps()
            },
            Call::CloseTick { replies } => {
                &&& self.is_between_steps() && after.is_between_steps()
                &&& w.closes(replies, &v)
            },
        }
    }

    /// What a call may not do to the request `job`, and what it hands in for
    /// it: nobody else waits under its name, nobody cancels it, its tokens are
    /// those that `next` gives for what it has run, and `piece` says how they
    /// read. Nothing is said of what is handed in for anyone else.
    pub open spec fn minds(
        &self,
        call: Call,
        job: Job,
        next: spec_fn(Seq<usize>) -> usize,
        piece: spec_fn(Seq<usize>) -> Seq<char>,
    ) -> bool {
        let w = self.worker;
        match call {
            Call::Enqueue { job: other } => other.reply != job.reply,
            Call::OpenTick { pending, .. } => !pending.contains(job.abort),
            Call::OnSample { uid, token, .. } => forall|i: int|
                #[trigger] w.at(uid, i) && w.rows()[i].slot.reply == job.reply ==> token == next(
                    w.rows()[i].slot.prompt_ids@ + w.rows()[i].slot.generated_ids@,
                ),
            Call::OnPiece { uid, text, .. } => forall|i: int|
                #[trigger] w.at(uid, i) && w.rows()[i].slot.reply == job.reply ==> text == piece(
                    w.rows()[i].slot.generated_ids@,
                ),
            _ => true,
        }
    }
}

/// The answers that a call gave out.
pub open spec fn replies_of(call: Call) -> Seq<Reply> {
    match call {
        Call::OpenTick { replies, .. } => replies,
        Call::CloseTick { replies } => replies,
        _ => Seq::empty(),
    }
}

/// How many answers some calls gave out to `to`.
pub open spec fn replied(calls: Seq<Call>, to: u64) -> int
    decreases calls.len(),
{
    if calls.len() == 0 {
        0
    } else {
        replied(calls.drop_last(), to) + total(replies_of(calls.last()), reply_is(to))
    }
}

/// What a job asks.
pub open spec fn ask_of(job: Job) -> Ask {
    Ask {
        run: run_as(job.prompt_tokens@),
        max_tokens: job.params.max_tokens as int,
        eos_id: job.eos_id,
        stops: job.params.stop@,
        stop_token_ids: job.params.stop_token_ids@,
    }
}

/// `r` gives `job` the finished answer `a`.
pub open spec fn is_answered(r: Reply, job: Job, a: Answer) -> bool {
    &&& a.finish is Some
    &&& r.to == job.reply
    &&& r.result matches Ok(c) && Some(c.finish) == a.finish && c.ids@ == a.ids && c.text@ == a.shown + a.held
        && c.usage.prompt_tokens == job.prompt_tokens@.len() && c.usage.completion_tokens == a.ids.len()
}

/// `r` gives `job` the answer that it gets alone.
pub open spec fn is_answered_alone(
    r: Reply,
    job: Job,
    next: spec_fn(Seq<usize>) -> usize,
    piece: spec_fn(Seq<usize>) -> Seq<char>,
) -> bool {
    exists|n: nat| is_answered(r, job, #[trigger] answering(ask_of(job), next, piece, n))
}

/// `job` stands in line at `at`, and nobody else waits under its name.
pub open spec fn is_alone_in_line(w: &Worker, at: int, job: Job) -> bool {
    &&& 0 <= at < w.waiting().len()
    &&& w.waiting()[at] == job
    &&& forall|i: int| 0 <= i < w.waiting().len() && i != at ==> (#[trigger] w.waiting()[i]).reply != job.reply
    &&& forall|i: int| 0 <= i < w.prefills().len() ==> (#[trigger] w.prefills()[i]).reply != job.reply
    &&& forall|i: int| 0 <= i < w.rows().len() ==> (#[trigger] w.rows()[i]).slot.reply != job.reply
}

/// The prompt in line is that of `job`.
spec fn is_prefill_of(p: Prefill, job: Job) -> bool {
    &&& p.state.tokens() == run_as(job.prompt_tokens@)
    &&& p.prompt_tokens == job.prompt_tokens@.len()
    &&& p.params == job.params
    &&& p.eos_id == job.eos_id
    &&& p.reply == job.reply
    &&& p.abort == job.abort
}

/// The row is that of `job`.
spec fn is_row_of(slot: Slot, job: Job) -> bool {
    &&& slot.prompt_ids@ == run_as(job.prompt_tokens@)
    &&& slot.prompt_tokens == job.prompt_tokens@.len()
    &&& slot.max_tokens == job.params.max_tokens
    &&& slot.eos_id == job.eos_id
    &&& slot.stops.stops() == job.params.stop@
    &&& slot.stops.stop_token_ids() == job.params.stop_token_ids@
    &&& slot.reply == job.reply
    &&& slot.abort == job.abort
}

/// The row shows the answer `a`, or is on the way from `a` to the next one
/// because its last token's text is unread.
spec fn shows(
    unread: bool,
    active: bool,
    slot: Slot,
    job: Job,
    next: spec_fn(Seq<usize>) -> usize,
    a: Answer,
) -> bool {
    let token = next(run_as(job.prompt_tokens@) + a.ids);
    &&& slot.visible@ == a.shown
    &&& slot.stops.pending() == a.held
    &&& if unread {
        &&& !active
        &&& a.finish is None
        &&& slot.finish is None
        &&& !ask_of(job).ends(token)
        &&& slot.generated_ids@ == a.ids.push(token)
    } else if active {
        &&& slot.finish is None
        &&& slot.generated_ids@ == a.ids
        &&& a.finish == if a.ids.len() >= job.params.max_tokens {
            Some(FinishReason::Length)
        } else {
            None
        }
    } else {
        &&& slot.finish == a.finish
        &&& slot.generated_ids@ == a.ids
    }
}

/// The row of `job` stands somewhere in the answer that `job` gets alone.
spec fn stands(
    c: Course,
    row: Row,
    job: Job,
    next: spec_fn(Seq<usize>) -> usize,
    piece: spec_fn(Seq<usize>) -> Seq<char>,
) -> bool {
    &&& is_row_of(row.slot, job)
    &&& exists|n: nat|
        shows(
            c.unread == Some(row.uid),
            c.active.contains(row.uid),
            row.slot,
            job,
            next,
            #[trigger] answering(ask_of(job), next, piece, n),
        )
}

/// Whatever waits under the name of `job` is `job` itself, and is nowhere but
/// on its way to the answer that it gets alone.
spec fn on_course(
    c: Course,
    job: Job,
    next: spec_fn(Seq<usize>) -> usize,
    piece: spec_fn(Seq<usize>) -> Seq<char>,
) -> bool {
    let w = c.worker;
    &&& w.wf()
    &&& job.params.max_tokens > 0
    &&& in_vocab(job.prompt_tokens@, w.vocab())
    &&& !w.carried().contains(job.abort)
    &&& forall|i: int|
        0 <= i < w.waiting().len() ==> ((#[trigger] w.waiting()[i]).reply == job.reply ==> w.waiting()[i] == job)
    &&& forall|i: int|
        0 <= i < w.prefills().len() ==> ((#[trigger] w.prefills()[i]).reply == job.reply ==> is_prefill_of(
            w.prefills()[i],
            job,
        ))
    &&& forall|i: int|
        0 <= i < w.rows().len() ==> ((#[trigger] w.rows()[i]).slot.reply == job.reply ==> stands(
            c,
            w.rows()[i],
            job,
            next,
            piece,
        ))
}

/// Those a sweep takes out were in line and were named.
proof fn lemma_struck_from<T>(line: Seq<T>, id: spec_fn(T) -> u64, ids: Set<u64>)
    ensures
        forall|k: int|
            0 <= k < struck(line, id, ids).len() ==> line.contains(#[trigger] struck(line, id, ids)[k])
                && ids.contains(id(struck(line, id, ids)[k])),
    decreases line.len(),
{
    if line.len() > 0 {
        let rest = line.skip(1);
        let fewer = ids.remove(id(line[0]));
        lemma_struck_from(rest, id, ids);
        lemma_struck_from(rest, id, fewer);
        assert forall|x: T| rest.contains(x) implies line.contains(x) by {
            let j = rest.index_of(x);
            assert(line[j + 1] == x);
        }
        assert(line.contains(line[0]));
        assert forall|k: int| 0 <= k < struck(line, id, ids).len() implies line.contains(
            #[trigger] struck(line, id, ids)[k],
        ) && ids.contains(id(struck(line, id, ids)[k])) by {
            if ids.contains(id(line[0])) {
                if k > 0 {
                    assert(struck(line, id, ids)[k] == struck(rest, id, fewer)[k - 1]);
                }
            } else {
                assert(struck(line, id, ids)[k] == struck(rest, id, ids)[k]);
            }
        }
    }
}

/// A sweep names nobody new.
proof fn lemma_unclaimed_from<T>(line: Seq<T>, id: spec_fn(T) -> u64, ids: Set<u64>)
    ensures
        unclaimed(line, id, ids).subset_of(ids),
    decreases line.len(),
{
    if line.len() > 0 {
        lemma_unclaimed_from(line.skip(1), id, ids.remove(id(line[0])));
    }
}

/// What a finished row of `job` is told is the answer that `job` gets alone.
proof fn lemma_ended_row(
    c: Course,
    row: Row,
    r: Reply,
    job: Job,
    next: spec_fn(Seq<usize>) -> usize,
    piece: spec_fn(Seq<usize>) -> Seq<char>,
)
    requires
        c.is_between_steps(),
        stands(c, row, job, next, piece),
        row.slot.finish is Some,
        answers(r, row.slot),
    ensures
        is_answered_alone(r, job, next, piece),
{
    let n = choose|n: nat|
        shows(false, false, row.slot, job, next, #[trigger] answering(ask_of(job), next, piece, n));
    assert(is_answered(r, job, answering(ask_of(job), next, piece, n)));
}

/// Between decode steps, where a row stands does not depend on the driver.
proof fn lemma_between_steps(
    c: Course,
    d: Course,
    row: Row,
    job: Job,
    next: spec_fn(Seq<usize>) -> usize,
    piece: spec_fn(Seq<usize>) -> Seq<char>,
)
    requires
        c.is_between_steps(),
        d.is_between_steps(),
        stands(c, row, job, next, piece),
    ensures
        stands(d, row, job, next, piece),
{
    let n = choose|n: nat|
        shows(
            c.unread == Some(row.uid),
            c.active.contains(row.uid),
            row.slot,
            job,
            next,
            #[trigger] answering(ask_of(job), next, piece, n),
        );
    assert(shows(
        d.unread == Some(row.uid),
        d.active.contains(row.uid),
        row.slot,
        job,
        next,
        answering(ask_of(job), next, piece, n),
    ));
}

/// Opening a tick.
proof fn lemma_open_tick(
    c: Course,
    d: Course,
    pending: Set<u64>,
    blocks: Option<usize>,
    replies: Seq<Reply>,
    job: Job,
    next: spec_fn(Seq<usize>) -> usize,
    piece: spec_fn(Seq<usize>) -> Seq<char>,
)
    requires
        on_course(c, job, next, piece),
        c.goes((Call::OpenTick { pending, blocks, replies }), d),
        !pending.contains(job.abort),
    ensures
        on_course(d, job, next, piece),
        forall|k: int|
            0 <= k < replies.len() ==> ((#[trigger] replies[k]).to == job.reply ==> is_answered_alone(
                replies[k],
                job,
                next,
                piece,
            )),
{
    let (w, v) = (c.worker, d.worker);
    let o = opening(&w, pending, blocks);
    let asked = w.carried().union(pending);
    let after_jobs = unclaimed(w.waiting(), job_abort(), asked);
    let after_prefills = unclaimed(w.prefills(), prefill_abort(), after_jobs);
    let gone = o.waiting.take(o.admitted);
    let ran = gone.filter(runnable(w.vocab()));
    let bad = gone.filter(unrunnable(w.vocab()));
    let ended = o.marked.filter(finished());
    lemma_unclaimed_from(w.waiting(), job_abort(), asked);
    lemma_unclaimed_from(w.prefills(), prefill_abort(), after_jobs);
    lemma_spared_from(w.waiting(), job_abort(), asked);
    lemma_spared_from(w.prefills(), prefill_abort(), after_jobs);
    lemma_struck_from(w.waiting(), job_abort(), asked);
    lemma_struck_from(w.prefills(), prefill_abort(), after_jobs);
    assert(!asked.contains(job.abort) && !after_jobs.contains(job.abort) && !after_prefills.contains(job.abort));
    assert forall|i: int| 0 <= i < o.waiting.len() && (#[trigger] o.waiting[i]).reply == job.reply implies o.waiting[i]
        == job by {
        let j = w.waiting().index_of(o.waiting[i]);
        assert(w.waiting()[j] == o.waiting[i]);
    }
    assert forall|i: int| 0 <= i < v.waiting().len() && (#[trigger] v.waiting()[i]).reply == job.reply implies v.waiting()[i]
        == job by {
        assert(v.waiting()[i] == o.waiting[o.admitted + i]);
    }
    assert forall|i: int| 0 <= i < v.prefills().len() && (#[trigger] v.prefills()[i]).reply
        == job.reply implies is_prefill_of(v.prefills()[i], job) by {
        if i < o.prefills.len() {
            assert(v.prefills()[i] == o.prefills[i]);
            let j = w.prefills().index_of(o.prefills[i]);
            assert(w.prefills()[j] == o.prefills[i]);
        } else {
            let k = i - o.prefills.len();
            assert(fresh(v.prefills()[o.prefills.len() + k], ran[k], w.knobs().prefill_chunk, w.pages()));
            lemma_filter_from(gone, runnable(w.vocab()), k);
            let j = gone.index_of(ran[k]);
            assert(o.waiting[j] == ran[k]);
        }
    }
    assert forall|i: int| 0 <= i < o.marked.len() && (#[trigger] o.marked[i]).slot.reply
        == job.reply implies o.marked[i] == w.rows()[i] && stands(c, o.marked[i], job, next, piece) by {
        assert(o.marked[i] == after_cancel(w.rows()[i], after_prefills));
    }
    assert forall|i: int| 0 <= i < v.rows().len() && (#[trigger] v.rows()[i]).slot.reply == job.reply implies stands(
        d,
        v.rows()[i],
        job,
        next,
        piece,
    ) by {
        lemma_filter_from(o.marked, going(), i);
        let j = o.marked.index_of(v.rows()[i]);
        assert(o.marked[j] == v.rows()[i]);
        lemma_between_steps(c, d, v.rows()[i], job, next, piece);
    }
    let a = o.jobs.len() as int;
    let b = a + o.prompts.len() as int;
    let e = b + ended.len() as int;
    assert forall|k: int| 0 <= k < replies.len() && (#[trigger] replies[k]).to == job.reply implies is_answered_alone(
        replies[k],
        job,
        next,
        piece,
    ) by {
        if k < a {
            assert(replies.subrange(0, a)[k] == replies[k]);
            let x = o.jobs[k];
            let j = w.waiting().index_of(x);
            assert(w.waiting()[j] == x);
        } else if k < b {
            assert(replies.subrange(a, b)[k - a] == replies[k]);
            let x = o.prompts[k - a];
            let j = w.prefills().index_of(x);
            assert(w.prefills()[j] == x);
        } else if k < e {
            assert(replies.subrange(b, e)[k - b] == replies[k]);
            let x = ended[k - b];
            lemma_filter_from(o.marked, finished(), k - b);
            let j = o.marked.index_of(x);
            assert(o.marked[j] == x);
            lemma_ended_row(c, x, replies[k], job, next, piece);
        } else {
            assert(replies.subrange(e, replies.len() as int)[k - e] == replies[k]);
            let x = bad[k - e];
            lemma_filter_from(gone, unrunnable(w.vocab()), k - e);
            let j = gone.index_of(x);
            assert(o.waiting[j] == x);
        }
    }
}

/// One prefill step.
proof fn lemma_prefill_step(
    c: Course,
    d: Course,
    run: Option<ChunkRun>,
    job: Job,
    next: spec_fn(Seq<usize>) -> usize,
    piece: spec_fn(Seq<usize>) -> Seq<char>,
)
    requires
        on_course(c, job, next, piece),
        c.goes((Call::PrefillStep { run }), d),
    ensures
        on_course(d, job, next, piece),
{
    let (w, v) = (c.worker, d.worker);
    assert forall|i: int| 0 <= i < w.rows().len() && (#[trigger] w.rows()[i]).slot.reply == job.reply implies stands(
        d,
        w.rows()[i],
        job,
        next,
        piece,
    ) by {
        lemma_between_steps(c, d, w.rows()[i], job, next, piece);
    }
    if run is Some {
        let head = w.prefills()[0];
        assert forall|i: int| 0 <= i < w.prefills().skip(1).len() && (#[trigger] w.prefills().skip(1)[i]).reply
            == job.reply implies is_prefill_of(w.prefills().skip(1)[i], job) by {
            assert(w.prefills().skip(1)[i] == w.prefills()[i + 1]);
        }
        if run->0.row is Some {
            let (through, slot) = choose|through: Prefill, slot: Slot|
                #![trigger through.hands_over(slot)]
                stepped(head, through) && through.hands_over(slot) && v.rows() == w.rows().push(
                    Row { uid: w.next_uid(), slot },
                );
            let row = Row { uid: w.next_uid(), slot };
            if slot.reply == job.reply {
                let a = answering(ask_of(job), next, piece, 0);
                assert(slot.generated_ids@ =~= a.ids);
                assert(slot.visible@ =~= a.shown);
                assert(slot.stops.pending() =~= a.held);
                assert(shows(d.unread == Some(row.uid), d.active.contains(row.uid), slot, job, next, a));
                assert(stands(d, row, job, next, piece));
            }
            assert forall|i: int| 0 <= i < v.rows().len() && (#[trigger] v.rows()[i]).slot.reply
                == job.reply implies stands(d, v.rows()[i], job, next, piece) by {
                if i < w.rows().len() {
                    assert(v.rows()[i] == w.rows()[i]);
                }
            }
        } else {
            let further = choose|further: Prefill|
                #![trigger stepped(head, further)]
                stepped(head, further) && v.prefills() == w.prefills().skip(1).push(further);
            assert forall|i: int| 0 <= i < v.prefills().len() && (#[trigger] v.prefills()[i]).reply
                == job.reply implies is_prefill_of(v.prefills()[i], job) by {
                if i < w.prefills().skip(1).len() {
                    assert(v.prefills()[i] == w.prefills().skip(1)[i]);
                }
            }
        }
    }
}

/// Taking a sampled token, of whichever row.
proof fn lemma_on_sample(
    c: Course,
    d: Course,
    uid: u64,
    token: usize,
    kept: bool,
    job: Job,
    next: spec_fn(Seq<usize>) -> usize,
    piece: spec_fn(Seq<usize>) -> Seq<char>,
)
    requires
        on_course(c, job, next, piece),
        c.goes((Call::OnSample { uid, token, kept }), d),
        c.minds((Call::OnSample { uid, token, kept }), job, next, piece),
    ensures
        on_course(d, job, next, piece),
{
    let (w, v) = (c.worker, d.worker);
    let i = choose|i: int| #[trigger] w.at(uid, i) && w.rows()[i].slot.is_ready();
    let (s, t) = (w.rows()[i].slot, v.rows()[i].slot);
    assert(s.sampled(token, t));
    assert forall|k: int| 0 <= k < v.rows().len() && (#[trigger] v.rows()[k]).slot.reply == job.reply implies stands(
        d,
        v.rows()[k],
        job,
        next,
        piece,
    ) by {
        assert(w.rows()[k].slot.reply == job.reply);
        let n = choose|n: nat|
            shows(
                c.unread == Some(w.rows()[k].uid),
                c.active.contains(w.rows()[k].uid),
                w.rows()[k].slot,
                job,
                next,
                #[trigger] answering(ask_of(job), next, piece, n),
            );
        let a = answering(ask_of(job), next, piece, n);
        if k == i {
            assert(token == next(run_as(job.prompt_tokens@) + a.ids));
            if kept {
                assert(shows(true, false, t, job, next, a));
            } else {
                assert(answering(ask_of(job), next, piece, n + 1).finish is Some);
                assert(shows(false, false, t, job, next, answering(ask_of(job), next, piece, n + 1)));
            }
        } else {
            w.lemma_only_one_row(uid);
            assert(!w.at(uid, k));
            assert(v.rows()[k] == w.rows()[k]);
            assert(shows(
                d.unread == Some(v.rows()[k].uid),
                d.active.contains(v.rows()[k].uid),
                v.rows()[k].slot,
                job,
                next,
                a,
            ));
        }
    }
}

/// Reading a token's text, of whichever row.
proof fn lemma_on_piece(
    c: Course,
    d: Course,
    uid: u64,
    text: Seq<char>,
    active: bool,
    job: Job,
    next: spec_fn(Seq<usize>) -> usize,
    piece: spec_fn(Seq<usize>) -> Seq<char>,
)
    requires
        on_course(c, job, next, piece),
        c.goes((Call::OnPiece { uid, text, active }), d),
        c.minds((Call::OnPiece { uid, text, active }), job, next, piece),
    ensures
        on_course(d, job, next, piece),
{
    let (w, v) = (c.worker, d.worker);
    assert forall|k: int| 0 <= k < v.rows().len() && (#[trigger] v.rows()[k]).slot.reply == job.reply implies stands(
        d,
        v.rows()[k],
        job,
        next,
        piece,
    ) by {
        let row = w.rows()[k];
        if w.at(uid, k) {
            let (s, t) = (row.slot, v.rows()[k].slot);
            let matched = !active;
            assert(s.fed(text, matched, t));
            let n = choose|n: nat|
                shows(true, c.active.contains(uid), s, job, next, #[trigger] answering(ask_of(job), next, piece, n));
            let a = answering(ask_of(job), next, piece, n);
            let out = choose|out: Seq<char>|
                t.visible@ == s.visible@ + out && #[trigger] is_reading(
                    s.stops.stops(),
                    s.stops.pending() + text,
                    Reading { matched, text: out, held: t.stops.pending() },
                );
            lemma_was_read(
                s.stops.stops(),
                s.stops.pending() + text,
                Reading { matched, text: out, held: t.stops.pending() },
            );
            if active {
                assert(d.active.last() == uid);
                assert(d.active.contains(uid));
            }
            assert(shows(false, active, t, job, next, answering(ask_of(job), next, piece, n + 1)));
        } else {
            assert(v.rows()[k] == row) by {
                if exists|i: int| w.at(uid, i) {
                    let i = choose|i: int| w.at(uid, i);
                    assert(w.at(uid, i));
                }
            }
            let n = choose|n: nat|
                shows(
                    c.unread == Some(row.uid),
                    c.active.contains(row.uid),
                    row.slot,
                    job,
                    next,
                    #[trigger] answering(ask_of(job), next, piece, n),
                );
            assert(c.active.contains(row.uid) == d.active.contains(row.uid)) by {
                if active {
                    if c.active.contains(row.uid) {
                        assert(d.active[c.active.index_of(row.uid)] == row.uid);
                    }
                    if d.active.contains(row.uid) {
                        assert(c.active[d.active.index_of(row.uid)] == row.uid);
                    }
                }
            }
            assert(shows(
                d.unread == Some(row.uid),
                d.active.contains(row.uid),
                row.slot,
                job,
                next,
                answering(ask_of(job), next, piece, n),
            ));
        }
    }
}

/// One batched pass.
proof fn lemma_step(
    c: Course,
    d: Course,
    job: Job,
    next: spec_fn(Seq<usize>) -> usize,
    piece: spec_fn(Seq<usize>) -> Seq<char>,
)
    requires
        on_course(c, job, next, piece),
        c.goes(Call::Step, d),
    ensures
        on_course(d, job, next, piece),
{
    let (w, v) = (c.worker, d.worker);
    assert forall|k: int| 0 <= k < v.rows().len() && (#[trigger] v.rows()[k]).slot.reply == job.reply implies stands(
        d,
        v.rows()[k],
        job,
        next,
        piece,
    ) by {
        let row = w.rows()[k];
        assert(v.rows()[k] == Worker::after_step(row, c.active));
        let n = choose|n: nat|
            shows(
                false,
                c.active.contains(row.uid),
                row.slot,
                job,
                next,
                #[trigger] answering(ask_of(job), next, piece, n),
            );
        assert(shows(false, false, v.rows()[k].slot, job, next, answering(ask_of(job), next, piece, n)));
    }
}

/// Closing a tick.
proof fn lemma_close_tick(
    c: Course,
    d: Course,
    replies: Seq<Reply>,
    job: Job,
    next: spec_fn(Seq<usize>) -> usize,
    piece: spec_fn(Seq<usize>) -> Seq<char>,
)
    requires
        on_course(c, job, next, piece),
        c.goes((Call::CloseTick { replies }), d),
    ensures
        on_course(d, job, next, piece),
        forall|k: int|
            0 <= k < replies.len() ==> ((#[trigger] replies[k]).to == job.reply ==> is_answered_alone(
                replies[k],
                job,
                next,
                piece,
            )),
{
    let (w, v) = (c.worker, d.worker);
    let ended = w.rows().filter(finished());
    assert forall|i: int| 0 <= i < v.rows().len() && (#[trigger] v.rows()[i]).slot.reply == job.reply implies stands(
        d,
        v.rows()[i],
        job,
        next,
        piece,
    ) by {
        lemma_filter_from(w.rows(), going(), i);
        let j = w.rows().index_of(v.rows()[i]);
        assert(w.rows()[j] == v.rows()[i]);
        lemma_between_steps(c, d, v.rows()[i], job, next, piece);
    }
    assert forall|k: int| 0 <= k < replies.len() && (#[trigger] replies[k]).to == job.reply implies is_answered_alone(
        replies[k],
        job,
        next,
        piece,
    ) by {
        lemma_filter_from(w.rows(), finished(), k);
        let j = w.rows().index_of(ended[k]);
        assert(w.rows()[j] == ended[k]);
        lemma_ended_row(c, ended[k], replies[k], job, next, piece);
    }
}

/// One call, of whatever kind.
proof fn lemma_call(
    c: Course,
    call: Call,
    d: Course,
    job: Job,
    next: spec_fn(Seq<usize>) -> usize,
    piece: spec_fn(Seq<usize>) -> Seq<char>,
)
    requires
        on_course(c, job, next, piece),
        c.goes(call, d),
        c.minds(call, job, next, piece),
    ensures
        on_course(d, job, next, piece),
        forall|k: int|
            0 <= k < replies_of(call).len() ==> ((#[trigger] replies_of(call)[k]).to == job.reply ==> is_answered_alone(
                replies_of(call)[k],
                job,
                next,
                piece,
            )),
        outstanding(&c.worker, job.reply) == outstanding(&d.worker, job.reply) + total(
            replies_of(call),
            reply_is(job.reply),
        ),
{
    match call {
        Call::Enqueue { job: other } => {
            let (w, v) = (c.worker, d.worker);
            assert forall|i: int| 0 <= i < v.waiting().len() && (#[trigger] v.waiting()[i]).reply
                == job.reply implies v.waiting()[i] == job by {
                assert(v.waiting()[i] == w.waiting()[i]);
            }
            assert forall|i: int| 0 <= i < v.rows().len() && (#[trigger] v.rows()[i]).slot.reply
                == job.reply implies stands(d, v.rows()[i], job, next, piece) by {
                lemma_between_steps(c, d, v.rows()[i], job, next, piece);
            }
            lemma_total_push(w.waiting(), other, job_is(job.reply));
        },
        Call::OpenTick { pending, blocks, replies } => {
            lemma_open_tick(c, d, pending, blocks, replies, job, next, piece);
        },
        Call::PrefillStep { run } => {
            lemma_prefill_step(c, d, run, job, next, piece);
        },
        Call::OnSample { uid, token, kept } => {
            lemma_on_sample(c, d, uid, token, kept, job, next, piece);
        },
        Call::OnPiece { uid, text, active } => {
            lemma_on_piece(c, d, uid, text, active, job, next, piece);
        },
        Call::Step => {
            lemma_step(c, d, job, next, piece);
        },
        Call::CloseTick { replies } => {
            lemma_close_tick(c, d, replies, job, next, piece);
        },
    }
}

/// Shares that are all nothing add up to nothing.
proof fn lemma_total_none<T>(s: Seq<T>, f: spec_fn(T) -> int)
    requires
        forall|i: int| 0 <= i < s.len() ==> f(#[trigger] s[i]) == 0,
    ensures
        total(s, f) == 0,
    decreases s.len(),
{
    if s.len() > 0 {
        assert forall|i: int| 0 <= i < s.drop_last().len() implies f(#[trigger] s.drop_last()[i]) == 0 by {
            assert(s.drop_last()[i] == s[i]);
        }
        lemma_total_none(s.drop_last(), f);
        assert(s.last() == s[s.len() - 1]);
    }
}

/// A job that is alone under its name is the only one to be answered there.
proof fn lemma_one_waits(w: &Worker, at: int, job: Job)
    requires
        is_alone_in_line(w, at, job),
    ensures
        outstanding(w, job.reply) == 1,
{
    let to = job.reply;
    let line = w.waiting();
    lemma_total_none(w.prefills(), prefill_is(to));
    lemma_total_none(w.rows(), row_is(to));
    let (head, tail) = (line.take(at), line.skip(at + 1));
    assert(line =~= head.push(line[at]) + tail);
    lemma_total_concat(head.push(line[at]), tail, job_is(to));
    lemma_total_push(head, line[at], job_is(to));
    assert forall|i: int| 0 <= i < head.len() implies job_is(to)(#[trigger] head[i]) == 0 by {
        assert(head[i] == line[i]);
    }
    assert forall|i: int| 0 <= i < tail.len() implies job_is(to)(#[trigger] tail[i]) == 0 by {
        assert(tail[i] == line[at + 1 + i]);
    }
    lemma_total_none(head, job_is(to));
    lemma_total_none(tail, job_is(to));
}

/// Every prefix of a run keeps the request on its course.
proof fn lemma_run(
    courses: Seq<Course>,
    calls: Seq<Call>,
    k: int,
    job: Job,
    next: spec_fn(Seq<usize>) -> usize,
    piece: spec_fn(Seq<usize>) -> Seq<char>,
)
    requires
        courses.len() == calls.len() + 1,
        forall|j: int| 0 <= j < calls.len() ==> courses[j].goes(#[trigger] calls[j], courses[j + 1]),
        forall|j: int| 0 <= j < calls.len() ==> courses[j].minds(#[trigger] calls[j], job, next, piece),
        on_course(courses[0], job, next, piece),
        0 <= k <= calls.len(),
    ensures
        on_course(courses[k], job, next, piece),
        outstanding(&courses[k].worker, job.reply) + replied(calls.take(k), job.reply) == outstanding(
            &courses[0].worker,
            job.reply,
        ),
        forall|j: int, i: int|
            #![trigger replies_of(calls[j])[i]]
            0 <= j < k && 0 <= i < replies_of(calls[j]).len() && replies_of(calls[j])[i].to == job.reply
                ==> is_answered_alone(replies_of(calls[j])[i], job, next, piece),
    decreases k,
{
    if k > 0 {
        lemma_run(courses, calls, k - 1, job, next, piece);
        let call = calls[k - 1];
        assert(courses[k - 1].goes(call, courses[k - 1 + 1]));
        lemma_call(courses[k - 1], call, courses[k], job, next, piece);
        assert(calls.take(k).drop_last() =~= calls.take(k - 1));
    } else {
        assert(calls.take(0) =~= Seq::empty());
    }
}

/// Batching changes no answer. Run the scheduler in any way: whatever other
/// jobs arrive, are cancelled or share its steps, and whatever is sampled for
/// them, a request that nobody cancels is answered with the tokens, the text
/// and the reason that it gets alone. It is answered once, and by the time the
/// scheduler is idle it has been.
pub proof fn law_batching_changes_no_answer(
    courses: Seq<Course>,
    calls: Seq<Call>,
    at: int,
    job: Job,
    next: spec_fn(Seq<usize>) -> usize,
    piece: spec_fn(Seq<usize>) -> Seq<char>,
)
    requires
        courses.len() == calls.len() + 1,
        courses[0].worker.wf(),
        courses[0].is_between_steps(),
        forall|j: int| 0 <= j < calls.len() ==> courses[j].goes(#[trigger] calls[j], courses[j + 1]),
        forall|j: int| 0 <= j < calls.len() ==> courses[j].minds(#[trigger] calls[j], job, next, piece),
        is_alone_in_line(&courses[0].worker, at, job),
        !courses[0].worker.carried().contains(job.abort),
        in_vocab(job.prompt_tokens@, courses[0].worker.vocab()),
        job.params.max_tokens > 0,
    ensures
        forall|j: int, i: int|
            #![trigger replies_of(calls[j])[i]]
            0 <= j < calls.len() && 0 <= i < replies_of(calls[j]).len() && replies_of(calls[j])[i].to == job.reply
                ==> is_answered_alone(replies_of(calls[j])[i], job, next, piece),
        outstanding(&courses.last().worker, job.reply) + replied(calls, job.reply) == 1,
        courses.last().worker.waiting().len() == 0 && courses.last().worker.in_flight() == 0 ==> replied(
            calls,
            job.reply,
        ) == 1,
{
    lemma_one_waits(&courses[0].worker, at, job);
    lemma_run(courses, calls, calls.len() as int, job, next, piece);
    assert(calls.take(calls.len() as int) =~= calls);
}

/// A request that nothing stops early gets exactly its budget of tokens, and
/// ends for its length.
pub proof fn law_an_unstopped_request_gets_its_budget(
    r: Reply,
    job: Job,
    next: spec_fn(Seq<usize>) -> usize,
    piece: spec_fn(Seq<usize>) -> Seq<char>,
)
    requires
        is_answered_alone(r, job, next, piece),
        job.eos_id is None,
        job.params.stop@.len() == 0,
        job.params.stop_token_ids@.len() == 0,
    ensures
        r.result matches Ok(c) && c.ids@.len() == job.params.max_tokens && c.finish == FinishReason::Length,
{
    let n = choose|n: nat| is_answered(r, job, #[trigger] answering(ask_of(job), next, piece, n));
    law_an_unstopped_answer_spends_its_budget(ask_of(job), next, piece, n);
}

/// A request served among others gets what it gets when it is served by
/// itself, whatever of its prompt was then restored.
pub proof fn law_batched_is_sequential(
    r: Reply,
    job: Job,
    pooled: bool,
    found: Option<PrefixMatch>,
    passes: Seq<Pass>,
    start: DecodeLoop,
    turns: Seq<Turn>,
    next: spec_fn(Seq<usize>) -> usize,
    piece: spec_fn(Seq<usize>) -> Seq<char>,
)
    requires
        is_answered_alone(r, job, next, piece),
        found is Some ==> found->0.matched_len <= job.prompt_tokens@.len(),
        pass_tokens(passes) == prefill_plan(job.prompt_tokens@, pooled, found).runs(job.prompt_tokens@),
        is_new(start),
        asked(start, run_as(job.prompt_tokens@)) == ask_of(job),
        is_answer(
            start,
            turns,
            held_after(job.prompt_tokens@, prefill_plan(job.prompt_tokens@, pooled, found), passes),
            next,
            piece,
        ),
    ensures
        ({
            let l = reached(start, turns, turns.len() as int);
            r.result matches Ok(c) && c.ids@ == l.generated() && c.text@ == said(turns) + l.stops().pending()
                && Some(c.finish) == outcome(l)
        }),
{
    let n = choose|n: nat| is_answered(r, job, #[trigger] answering(ask_of(job), next, piece, n));
    law_a_request_is_answered_by_itself(job.prompt_tokens@, pooled, found, passes, start, turns, next, piece);
    law_an_answer_is_final(ask_of(job), next, piece, n, turns.len());
}

} // verus!
