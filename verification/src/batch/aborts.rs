//! Stopping requests that were asked to stop, wherever they are by now.
use std::collections::VecDeque;
use vstd::prelude::*;
use crate::batch::admission::prefill_blocks;
use crate::batch::ledger::BlockBudget;
use crate::batch::prefill::{Job, Prefill, Reply};
use crate::batch::queue::{AbortInbox, IdSet, QueueGate};
use crate::batch::rows::{aborts_of, after_cancel, cancels, Row, Rows};
use crate::batch::totals::{lemma_total_concat, lemma_total_first, lemma_total_nonneg, lemma_total_push, total};

verus! {

/// The handle of a waiting job.
pub open spec fn job_abort() -> spec_fn(Job) -> u64 {
    |j: Job| j.abort
}

/// The handle of a prefilling prompt.
pub open spec fn prefill_abort() -> spec_fn(Prefill) -> u64 {
    |p: Prefill| p.abort
}

/// What a sweep for `ids` leaves in line. Each id takes out the first
/// request that it names.
pub open spec fn spared<T>(line: Seq<T>, id: spec_fn(T) -> u64, ids: Set<u64>) -> Seq<T>
    decreases line.len(),
{
    if line.len() == 0 {
        Seq::empty()
    } else if ids.contains(id(line[0])) {
        spared(line.skip(1), id, ids.remove(id(line[0])))
    } else {
        seq![line[0]] + spared(line.skip(1), id, ids)
    }
}

/// What a sweep for `ids` takes out of line.
pub open spec fn struck<T>(line: Seq<T>, id: spec_fn(T) -> u64, ids: Set<u64>) -> Seq<T>
    decreases line.len(),
{
    if line.len() == 0 {
        Seq::empty()
    } else if ids.contains(id(line[0])) {
        seq![line[0]] + struck(line.skip(1), id, ids.remove(id(line[0])))
    } else {
        struck(line.skip(1), id, ids)
    }
}

/// The ids that a sweep found nobody for.
pub open spec fn unclaimed<T>(line: Seq<T>, id: spec_fn(T) -> u64, ids: Set<u64>) -> Set<u64>
    decreases line.len(),
{
    if line.len() == 0 {
        ids
    } else {
        unclaimed(line.skip(1), id, ids.remove(id(line[0])))
    }
}

/// Nobody is lost in a sweep: those taken out and those left add up.
pub proof fn law_sweep_keeps_everyone<T>(line: Seq<T>, id: spec_fn(T) -> u64, ids: Set<u64>, f: spec_fn(T) -> int)
    ensures
        total(spared(line, id, ids), f) + total(struck(line, id, ids), f) == total(line, f),
    decreases line.len(),
{
    if line.len() > 0 {
        let rest = line.skip(1);
        let one = seq![line[0]];
        lemma_total_first(line, f);
        lemma_total_push(Seq::<T>::empty(), line[0], f);
        assert(Seq::<T>::empty().push(line[0]) =~= one);
        if ids.contains(id(line[0])) {
            law_sweep_keeps_everyone(rest, id, ids.remove(id(line[0])), f);
            lemma_total_concat(one, struck(rest, id, ids.remove(id(line[0]))), f);
        } else {
            law_sweep_keeps_everyone(rest, id, ids, f);
            lemma_total_concat(one, spared(rest, id, ids), f);
        }
    }
}

/// A cancellation that finds nobody is kept for later, and one that finds
/// its request is used up.
pub proof fn law_early_cancellations_are_kept<T>(line: Seq<T>, id: spec_fn(T) -> u64, ids: Set<u64>, x: u64)
    ensures
        unclaimed(line, id, ids).contains(x) <==> ids.contains(x) && forall|k: int|
            0 <= k < line.len() ==> id(#[trigger] line[k]) != x,
    decreases line.len(),
{
    if line.len() > 0 {
        let rest = line.skip(1);
        law_early_cancellations_are_kept(rest, id, ids.remove(id(line[0])), x);
        assert(forall|k: int| 0 <= k < rest.len() ==> #[trigger] rest[k] == line[k + 1]);
        assert(forall|k: int| 1 <= k < line.len() ==> #[trigger] line[k] == rest[k - 1]);
    }
}

/// Where every request has a handle of its own, exactly the named requests
/// are taken out.
pub proof fn law_exactly_the_named_are_stopped<T>(line: Seq<T>, id: spec_fn(T) -> u64, ids: Set<u64>)
    requires
        forall|i: int, j: int| 0 <= i < j < line.len() ==> id(#[trigger] line[i]) != id(#[trigger] line[j]),
    ensures
        spared(line, id, ids) == line.filter(|t: T| !ids.contains(id(t))),
        struck(line, id, ids) == line.filter(|t: T| ids.contains(id(t))),
    decreases line.len(),
{
    let (stays, goes) = (|t: T| !ids.contains(id(t)), |t: T| ids.contains(id(t)));
    if line.len() == 0 {
        reveal(Seq::filter);
    } else {
        let rest = line.skip(1);
        let fewer = ids.remove(id(line[0]));
        crate::batch::totals::lemma_filter_first(line, stays);
        crate::batch::totals::lemma_filter_first(line, goes);
        assert forall|i: int, j: int| 0 <= i < j < rest.len() implies id(#[trigger] rest[i]) != id(
            #[trigger] rest[j],
        ) by {
            assert(rest[i] == line[i + 1] && rest[j] == line[j + 1]);
        }
        law_exactly_the_named_are_stopped(rest, id, ids);
        law_exactly_the_named_are_stopped(rest, id, fewer);
        let (stays2, goes2) = (|t: T| !fewer.contains(id(t)), |t: T| fewer.contains(id(t)));
        assert forall|k: int| 0 <= k < rest.len() implies stays2(#[trigger] rest[k]) == stays(rest[k]) by {
            assert(rest[k] == line[k + 1]);
        }
        assert forall|k: int| 0 <= k < rest.len() implies goes2(#[trigger] rest[k]) == goes(rest[k]) by {
            assert(rest[k] == line[k + 1]);
        }
        lemma_filter_same(rest, stays, stays2);
        lemma_filter_same(rest, goes, goes2);
        if ids.contains(id(line[0])) {
            assert(Seq::<T>::empty() + rest.filter(stays) =~= rest.filter(stays));
        } else {
            assert(Seq::<T>::empty() + rest.filter(goes) =~= rest.filter(goes));
        }
    }
}

proof fn lemma_filter_same<T>(s: Seq<T>, p: spec_fn(T) -> bool, q: spec_fn(T) -> bool)
    requires
        forall|k: int| 0 <= k < s.len() ==> q(#[trigger] s[k]) == p(s[k]),
    ensures
        s.filter(p) == s.filter(q),
    decreases s.len(),
{
    reveal(Seq::filter);
    if s.len() > 0 {
        assert forall|k: int| 0 <= k < s.drop_last().len() implies q(#[trigger] s.drop_last()[k]) == p(
            s.drop_last()[k],
        ) by {
            assert(s.drop_last()[k] == s[k]);
        }
        lemma_filter_same(s.drop_last(), p, q);
        assert(q(s[s.len() - 1]) == p(s[s.len() - 1]));
    }
}

/// The jobs of `line` were told they were cancelled, in this order.
pub open spec fn jobs_told(replies: Seq<Reply>, line: Seq<Job>) -> bool {
    &&& replies.len() == line.len()
    &&& forall|k: int|
        0 <= k < line.len() ==> (#[trigger] replies[k]).is_cancelled(
            line[k].reply,
            line[k].prompt_tokens.len(),
        )
}

/// The prompts of `line` were told they were cancelled, in this order.
pub open spec fn prefills_told(replies: Seq<Reply>, line: Seq<Prefill>) -> bool {
    &&& replies.len() == line.len()
    &&& forall|k: int|
        0 <= k < line.len() ==> (#[trigger] replies[k]).is_cancelled(line[k].reply, line[k].prompt_tokens)
}

/// Cancels waiting jobs: no KV, no reservation, no work done. Each is
/// answered and its queue slot goes back.
fn cancel_waiting(carried: &mut IdSet, waiting: &mut VecDeque<Job>, queue: &mut QueueGate) -> (replies: Vec<Reply>)
    requires
        old(carried).wf(),
        old(queue).wf(),
        old(queue).waiting() >= old(waiting)@.len(),
    ensures
        final(carried).wf(),
        final(carried)@ == unclaimed(old(waiting)@, job_abort(), old(carried)@),
        final(waiting)@ == spared(old(waiting)@, job_abort(), old(carried)@),
        jobs_told(replies@, struck(old(waiting)@, job_abort(), old(carried)@)),
        final(queue).wf(),
        final(queue).capacity() == old(queue).capacity(),
        final(queue).refusals() == old(queue).refusals(),
        final(queue).waiting() == old(queue).waiting() - replies@.len(),
{
    let mut replies: Vec<Reply> = Vec::new();
    let mut still: VecDeque<Job> = VecDeque::new();
    let ghost all = waiting@;
    let ghost mut gone: Seq<Job> = Seq::empty();
    proof {
        assert(still@ + spared(all, job_abort(), carried@) =~= spared(all, job_abort(), carried@));
        assert(gone + struck(all, job_abort(), carried@) =~= struck(all, job_abort(), carried@));
    }
    while waiting.len() > 0
        invariant
            carried.wf(),
            queue.wf(),
            queue.capacity() == old(queue).capacity(),
            queue.refusals() == old(queue).refusals(),
            queue.waiting() == old(queue).waiting() - gone.len(),
            queue.waiting() >= waiting@.len(),
            unclaimed(all, job_abort(), old(carried)@) == unclaimed(waiting@, job_abort(), carried@),
            spared(all, job_abort(), old(carried)@) == still@ + spared(waiting@, job_abort(), carried@),
            struck(all, job_abort(), old(carried)@) == gone + struck(waiting@, job_abort(), carried@),
            jobs_told(replies@, gone),
        decreases waiting@.len(),
    {
        let ghost line = waiting@;
        let ghost ids = carried@;
        let ghost kept = still@;
        match waiting.pop_front() {
            Some(job) => {
                assert(waiting@ =~= line.skip(1));
                let named: bool = carried.remove(job.abort);
                if named {
                    queue.release();
                    let n: usize = job.prompt_tokens.len();
                    replies.push(Reply::cancelled(job.reply, n));
                    proof {
                        let rest = struck(line.skip(1), job_abort(), ids.remove(job.abort));
                        assert(gone + (seq![job] + rest) =~= gone.push(job) + rest);
                        gone = gone.push(job);
                    }
                } else {
                    still.push_back(job);
                    proof {
                        assert(ids.remove(job.abort) =~= ids);
                        let rest = spared(line.skip(1), job_abort(), ids);
                        assert(kept + (seq![job] + rest) =~= kept.push(job) + rest);
                    }
                }
            },
            None => {},
        }
    }
    proof {
        assert(still@ + Seq::<Job>::empty() =~= still@);
        assert(gone + Seq::<Job>::empty() =~= gone);
    }
    *waiting = still;
    replies
}

/// Cancels prompts mid-prefill: their remaining chunks are never run, and
/// their reservations go back.
fn cancel_prefills(carried: &mut IdSet, prefills: &mut VecDeque<Prefill>, budget: &mut BlockBudget) -> (replies: Vec<
    Reply,
>)
    requires
        old(carried).wf(),
        old(budget).wf(),
    ensures
        final(carried).wf(),
        final(carried)@ == unclaimed(old(prefills)@, prefill_abort(), old(carried)@),
        final(prefills)@ == spared(old(prefills)@, prefill_abort(), old(carried)@),
        prefills_told(replies@, struck(old(prefills)@, prefill_abort(), old(carried)@)),
        final(budget).wf(),
        final(budget).same_limits(old(budget)),
        final(budget).too_large() == old(budget).too_large(),
        final(budget).too_long() == old(budget).too_long(),
        final(budget).unreserved() == old(budget).given_back(
            total(struck(old(prefills)@, prefill_abort(), old(carried)@), prefill_blocks()),
        ),
{
    let mut replies: Vec<Reply> = Vec::new();
    let mut still: VecDeque<Prefill> = VecDeque::new();
    let ghost all = prefills@;
    let ghost mut gone: Seq<Prefill> = Seq::empty();
    proof {
        budget.law_blocks_are_accounted_for();
        assert(still@ + spared(all, prefill_abort(), carried@) =~= spared(all, prefill_abort(), carried@));
        assert(gone + struck(all, prefill_abort(), carried@) =~= struck(all, prefill_abort(), carried@));
    }
    while prefills.len() > 0
        invariant
            carried.wf(),
            budget.wf(),
            budget.same_limits(old(budget)),
            budget.too_large() == old(budget).too_large(),
            budget.too_long() == old(budget).too_long(),
            budget.unreserved() == old(budget).given_back(total(gone, prefill_blocks())),
            unclaimed(all, prefill_abort(), old(carried)@) == unclaimed(prefills@, prefill_abort(), carried@),
            spared(all, prefill_abort(), old(carried)@) == still@ + spared(prefills@, prefill_abort(), carried@),
            struck(all, prefill_abort(), old(carried)@) == gone + struck(prefills@, prefill_abort(), carried@),
            prefills_told(replies@, gone),
        decreases prefills@.len(),
    {
        let ghost line = prefills@;
        let ghost ids = carried@;
        let ghost kept = still@;
        proof {
            lemma_total_nonneg(gone, prefill_blocks());
        }
        match prefills.pop_front() {
            Some(prefill) => {
                assert(prefills@ =~= line.skip(1));
                let named: bool = carried.remove(prefill.abort);
                if named {
                    budget.release(prefill.blocks);
                    replies.push(Reply::cancelled(prefill.reply, prefill.prompt_tokens));
                    proof {
                        lemma_total_push(gone, prefill, prefill_blocks());
                        let rest = struck(line.skip(1), prefill_abort(), ids.remove(prefill.abort));
                        assert(gone + (seq![prefill] + rest) =~= gone.push(prefill) + rest);
                        gone = gone.push(prefill);
                    }
                } else {
                    still.push_back(prefill);
                    proof {
                        assert(ids.remove(prefill.abort) =~= ids);
                        let rest = spared(line.skip(1), prefill_abort(), ids);
                        assert(kept + (seq![prefill] + rest) =~= kept.push(prefill) + rest);
                    }
                }
            },
            None => {},
        }
    }
    proof {
        assert(still@ + Seq::<Prefill>::empty() =~= still@);
        assert(gone + Seq::<Prefill>::empty() =~= gone);
    }
    *prefills = still;
    replies
}

/// `ids` without the ones that were used.
pub open spec fn without(ids: Set<u64>, used: Seq<u64>) -> Set<u64> {
    ids.filter(|x: u64| !used.contains(x))
}

/// Applies every pending cancellation, between forward passes. `carried`
/// holds ids that arrived before their job did: they are kept and retried.
/// A waiting job is answered and forgotten; a prompt mid-prefill gives its
/// reservation back; a decoding row is marked and leaves the way every
/// finished row does.
pub fn apply_aborts(
    inbox: &mut AbortInbox,
    carried: &mut IdSet,
    waiting: &mut VecDeque<Job>,
    prefills: &mut VecDeque<Prefill>,
    rows: &mut Rows,
    queue: &mut QueueGate,
    budget: &mut BlockBudget,
) -> (replies: Vec<Reply>)
    requires
        old(inbox).wf(),
        old(carried).wf(),
        old(rows).wf(),
        old(queue).wf(),
        old(queue).waiting() >= old(waiting)@.len(),
        old(budget).wf(),
    ensures
        final(inbox).wf(),
        final(inbox).pending() == Set::<u64>::empty(),
        final(inbox).next() == old(inbox).next(),
        final(carried).wf(),
        final(rows).wf(),
        final(rows).next() == old(rows).next(),
        final(queue).wf(),
        final(queue).capacity() == old(queue).capacity(),
        final(queue).refusals() == old(queue).refusals(),
        final(budget).wf(),
        final(budget).same_limits(old(budget)),
        final(budget).too_large() == old(budget).too_large(),
        final(budget).too_long() == old(budget).too_long(),
        ({
            let asked = old(carried)@.union(old(inbox).pending());
            let after_jobs = unclaimed(old(waiting)@, job_abort(), asked);
            let after_prefills = unclaimed(old(prefills)@, prefill_abort(), after_jobs);
            let jobs = struck(old(waiting)@, job_abort(), asked);
            let prompts = struck(old(prefills)@, prefill_abort(), after_jobs);
            let marked = old(rows)@.filter(cancels(after_prefills));
            &&& final(waiting)@ == spared(old(waiting)@, job_abort(), asked)
            &&& final(prefills)@ == spared(old(prefills)@, prefill_abort(), after_jobs)
            &&& final(rows)@ == old(rows)@.map_values(|r: Row| after_cancel(r, after_prefills))
            &&& final(carried)@ == without(after_prefills, aborts_of(marked))
            &&& final(queue).waiting() == old(queue).waiting() - jobs.len()
            &&& final(budget).unreserved() == old(budget).given_back(total(prompts, prefill_blocks()))
            &&& replies@.len() == jobs.len() + prompts.len()
            &&& jobs_told(replies@.take(jobs.len() as int), jobs)
            &&& prefills_told(replies@.skip(jobs.len() as int), prompts)
            &&& final(inbox).stopped() == old(inbox).stopped().wrapping_add(jobs.len() as u64).wrapping_add(
                prompts.len() as u64,
            ).wrapping_add(marked.len() as u64)
        }),
{
    let drained: IdSet = inbox.drain();
    carried.extend(drained);
    let ghost asked = carried@;
    let mut replies: Vec<Reply> = cancel_waiting(carried, waiting, queue);
    inbox.count_stopped(replies.len() as u64);
    let ghost jobs = replies@;
    let mut more: Vec<Reply> = cancel_prefills(carried, prefills, budget);
    inbox.count_stopped(more.len() as u64);
    let ghost prompts = more@;
    replies.append(&mut more);
    proof {
        assert(replies@.take(jobs.len() as int) =~= jobs);
        assert(replies@.skip(jobs.len() as int) =~= prompts);
    }
    let ghost ids = carried@;
    let used: Vec<u64> = rows.mark_cancelled(carried);
    assert(without(ids, used@.take(0)) =~= ids);
    for i in 0usize..used.len()
        invariant
            carried.wf(),
            carried@ == without(ids, used@.take(i as int)),
    {
        let _was: bool = carried.remove(used[i]);
        proof {
            let (was, is) = (used@.take(i as int), used@.take(i + 1));
            assert(is =~= was.push(used@[i as int]));
            assert forall|x: u64| is.contains(x) == (was.contains(x) || x == used@[i as int]) by {
                if was.contains(x) {
                    assert(is[was.index_of(x)] == x);
                }
                assert(is[i as int] == used@[i as int]);
                if is.contains(x) && x != used@[i as int] {
                    assert(was[is.index_of(x)] == x);
                }
            }
            assert(carried@ =~= without(ids, is));
        }
    }
    assert(used@.take(used@.len() as int) =~= used@);
    inbox.count_stopped(used.len() as u64);
    replies
}

/// A request is named by the handle it was given.
pub proof fn law_requests_are_named_by_their_handles(j: Job, p: Prefill)
    ensures
        job_abort()(j) == j.abort,
        prefill_abort()(p) == p.abort,
{
}

/// Ids that were used are taken out, and no others.
pub proof fn law_only_used_ids_are_taken_out(ids: Set<u64>, used: Seq<u64>, x: u64)
    ensures
        without(ids, used).contains(x) <==> ids.contains(x) && !used.contains(x),
{
}

/// A request that no id names stays where it is in the line.
pub proof fn law_the_unnamed_stay_in_line<T>(line: Seq<T>, id: spec_fn(T) -> u64, ids: Set<u64>)
    requires
        forall|k: int| 0 <= k < line.len() ==> !ids.contains(id(#[trigger] line[k])),
    ensures
        spared(line, id, ids) == line,
        struck(line, id, ids) == Seq::<T>::empty(),
        unclaimed(line, id, ids) == ids,
    decreases line.len(),
{
    if line.len() > 0 {
        let rest = line.skip(1);
        assert forall|k: int| 0 <= k < rest.len() implies !ids.contains(id(#[trigger] rest[k])) by {
            assert(rest[k] == line[k + 1]);
        }
        assert(!ids.contains(id(line[0])));
        law_the_unnamed_stay_in_line(rest, id, ids);
        assert(seq![line[0]] + rest =~= line);
        assert(ids.remove(id(line[0])) =~= ids);
    }
}

/// Everyone taken out of line is told, one by one and in order.
pub proof fn law_the_cancelled_are_told_in_order(replies: Seq<Reply>, jobs: Seq<Job>, prompts: Seq<Prefill>, k: int)
    ensures
        jobs_told(replies, jobs) && 0 <= k < jobs.len() ==> replies.len() == jobs.len() && replies[k].is_cancelled(
            jobs[k].reply,
            jobs[k].prompt_tokens.len(),
        ),
        prefills_told(replies, prompts) && 0 <= k < prompts.len() ==> replies.len() == prompts.len()
            && replies[k].is_cancelled(prompts[k].reply, prompts[k].prompt_tokens),
{
}

/// An id stops one request at most: exactly one where it names any, however
/// many it names, and none where it was not asked for.
pub proof fn law_an_id_stops_one_request<T>(line: Seq<T>, id: spec_fn(T) -> u64, ids: Set<u64>, x: u64)
    ensures
        total(
            struck(line, id, ids),
            |t: T|
                if id(t) == x {
                    1int
                } else {
                    0
                },
        ) == (if ids.contains(x) && exists|k: int| 0 <= k < line.len() && id(#[trigger] line[k]) == x {
            1int
        } else {
            0
        }),
    decreases line.len(),
{
    let f = |t: T|
        if id(t) == x {
            1int
        } else {
            0
        };
    if line.len() > 0 {
        let rest = line.skip(1);
        assert(forall|k: int| 0 <= k < rest.len() ==> #[trigger] rest[k] == line[k + 1]);
        assert(forall|k: int| 1 <= k < line.len() ==> #[trigger] line[k] == rest[k - 1]);
        let here = id(line[0]);
        if ids.contains(here) {
            let one = seq![line[0]];
            law_an_id_stops_one_request(rest, id, ids.remove(here), x);
            lemma_total_concat(one, struck(rest, id, ids.remove(here)), f);
            lemma_total_push(Seq::<T>::empty(), line[0], f);
            assert(Seq::<T>::empty().push(line[0]) =~= one);
            if here == x {
                assert(id(line[0]) == x);
            }
        } else {
            law_an_id_stops_one_request(rest, id, ids, x);
        }
    }
}

/// The first request an id names is the one that it stops: it is out of the
/// line whatever stands behind it.
pub proof fn law_the_first_named_is_stopped<T>(line: Seq<T>, id: spec_fn(T) -> u64, ids: Set<u64>, i: int)
    requires
        0 <= i < line.len(),
        ids.contains(id(line[i])),
        forall|k: int| 0 <= k < i ==> id(#[trigger] line[k]) != id(line[i]),
    ensures
        struck(line, id, ids).contains(line[i]),
    decreases i,
{
    if i == 0 {
        assert(struck(line, id, ids)[0] == line[0]);
    } else {
        let rest = line.skip(1);
        let fewer = if ids.contains(id(line[0])) {
            ids.remove(id(line[0]))
        } else {
            ids
        };
        assert(id(line[0]) != id(line[i]));
        assert forall|k: int| 0 <= k < i - 1 implies id(#[trigger] rest[k]) != id(rest[i - 1]) by {
            assert(rest[k] == line[k + 1]);
        }
        law_the_first_named_is_stopped(rest, id, fewer, i - 1);
        let tail = struck(rest, id, fewer);
        let at = tail.index_of(line[i]);
        if ids.contains(id(line[0])) {
            assert(struck(line, id, ids)[at + 1] == tail[at]);
        } else {
            assert(struck(line, id, ids)[at] == tail[at]);
        }
    }
}

/// Those taken out of a line and those left in it are as many as stood there.
proof fn lemma_sweep_lengths<T>(line: Seq<T>, id: spec_fn(T) -> u64, ids: Set<u64>)
    ensures
        spared(line, id, ids).len() + struck(line, id, ids).len() == line.len(),
    decreases line.len(),
{
    if line.len() > 0 {
        if ids.contains(id(line[0])) {
            lemma_sweep_lengths(line.skip(1), id, ids.remove(id(line[0])));
        } else {
            lemma_sweep_lengths(line.skip(1), id, ids);
        }
    }
}

/// A cancellation loses nobody: whoever leaves the queue or the line of
/// prompts is told so, no row is taken out, and what was asked for is not
/// asked for again.
pub proof fn law_a_cancellation_loses_nobody(
    inbox: &mut AbortInbox,
    carried: &mut IdSet,
    waiting: &mut VecDeque<Job>,
    prefills: &mut VecDeque<Prefill>,
    rows: &mut Rows,
    queue: &mut QueueGate,
    budget: &mut BlockBudget,
    replies: Vec<Reply>,
)
    requires
        call_ensures(apply_aborts, (inbox, carried, waiting, prefills, rows, queue, budget), replies),
    ensures
        final(waiting)@.len() + final(prefills)@.len() + replies@.len() == old(waiting)@.len() + old(prefills)@.len(),
        final(waiting)@.len() <= old(waiting)@.len(),
        final(prefills)@.len() <= old(prefills)@.len(),
        final(rows)@.len() == old(rows)@.len(),
        old(queue).waiting() - final(queue).waiting() == old(waiting)@.len() - final(waiting)@.len(),
        final(queue).refusals() == old(queue).refusals(),
        final(inbox).pending() == Set::<u64>::empty(),
        final(inbox).next() == old(inbox).next(),
        final(carried)@.subset_of(old(carried)@.union(old(inbox).pending())),
{
    let asked = old(carried)@.union(old(inbox).pending());
    let after = unclaimed(old(waiting)@, job_abort(), asked);
    lemma_sweep_lengths(old(waiting)@, job_abort(), asked);
    lemma_sweep_lengths(old(prefills)@, prefill_abort(), after);
    lemma_unclaimed_within(old(waiting)@, job_abort(), asked);
    lemma_unclaimed_within(old(prefills)@, prefill_abort(), after);
}

/// What is left of the ids is some of them.
proof fn lemma_unclaimed_within<T>(line: Seq<T>, id: spec_fn(T) -> u64, ids: Set<u64>)
    ensures
        unclaimed(line, id, ids).subset_of(ids),
    decreases line.len(),
{
    if line.len() > 0 {
        lemma_unclaimed_within(line.skip(1), id, ids.remove(id(line[0])));
    }
}

} // verus!
