//! Jobs that wait, and requests that were asked to stop.
use vstd::prelude::*;

verus! {

/// Bounds the number of jobs waiting for admission.
#[derive(Debug)]
pub struct QueueGate {
    depth: usize,
    cap: usize,
    rejected: u64,
}

impl QueueGate {
    /// Jobs waiting now.
    pub closed spec fn waiting(&self) -> int {
        self.depth as int
    }

    /// Jobs that may wait.
    pub closed spec fn capacity(&self) -> int {
        self.cap as int
    }

    /// Jobs refused so far.
    pub closed spec fn refusals(&self) -> u64 {
        self.rejected
    }

    /// The cap is never exceeded.
    pub closed spec fn wf(&self) -> bool {
        self.depth <= self.cap
    }

    /// Claiming a slot gives `r` and leads to `after`.
    pub open spec fn reserves(&self, r: Result<(), usize>, after: QueueGate) -> bool {
        &&& after.wf()
        &&& after.capacity() == self.capacity()
        &&& r is Ok <==> self.waiting() < self.capacity()
        &&& r is Ok ==> after.waiting() == self.waiting() + 1 && after.refusals() == self.refusals()
        &&& r matches Err(depth) ==> depth == self.waiting() && after.waiting() == self.waiting()
            && after.refusals() == self.refusals().wrapping_add(1)
    }

    /// No more jobs wait than may.
    pub proof fn law_the_cap_is_kept(&self)
        requires
            self.wf(),
        ensures
            0 <= self.waiting() <= self.capacity(),
    {
    }

    /// A gate nobody waits at.
    pub fn new(cap: usize) -> (g: QueueGate)
        ensures
            g.wf(),
            g.waiting() == 0,
            g.capacity() == cap,
            g.refusals() == 0,
    {
        QueueGate { depth: 0, cap, rejected: 0 }
    }

    /// Claims one queue slot, or reports the depth that refused it.
    pub fn try_reserve(&mut self) -> (r: Result<(), usize>)
        requires
            old(self).wf(),
        ensures
            old(self).reserves(r, *final(self)),
    {
        if self.depth >= self.cap {
            self.rejected = self.rejected.wrapping_add(1);
            return Err(self.depth);
        }
        self.depth = self.depth + 1;
        Ok(())
    }

    /// Frees a slot: the job was admitted, cancelled, or never joined.
    pub fn release(&mut self)
        requires
            old(self).wf(),
            old(self).waiting() > 0,
        ensures
            final(self).wf(),
            final(self).capacity() == old(self).capacity(),
            final(self).refusals() == old(self).refusals(),
            final(self).waiting() == old(self).waiting() - 1,
    {
        self.depth = self.depth - 1;
    }

    /// Jobs waiting now.
    pub fn depth(&self) -> (d: usize)
        ensures
            d == self.waiting(),
    {
        self.depth
    }

    /// Jobs that may wait.
    pub fn cap(&self) -> (c: usize)
        ensures
            c == self.capacity(),
    {
        self.cap
    }

    /// Jobs refused so far.
    pub fn rejected(&self) -> (n: u64)
        ensures
            n == self.refusals(),
    {
        self.rejected
    }
}

/// How many of some claims succeeded.
pub open spec fn granted(results: Seq<Result<(), usize>>) -> int
    decreases results.len(),
{
    if results.len() == 0 {
        0
    } else {
        granted(results.drop_last()) + if results.last() is Ok {
            1int
        } else {
            0
        }
    }
}

/// The smaller of a number of claims and a cap.
pub open spec fn at_most(n: int, cap: int) -> int {
    if n < cap {
        n
    } else {
        cap
    }
}

/// Any number of claims on a fresh gate, one after the other in whatever
/// order they come: the first `cap` are granted, every other is told the
/// cap, the depth never passes the cap, and each refusal is counted (in a
/// counter that wraps).
pub proof fn law_a_gate_grants_its_cap(gates: Seq<QueueGate>, results: Seq<Result<(), usize>>)
    requires
        gates.len() == results.len() + 1,
        gates[0].wf(),
        gates[0].waiting() == 0,
        gates[0].refusals() == 0,
        forall|i: int| 0 <= i < results.len() ==> #[trigger] gates[i].reserves(results[i], gates[i + 1]),
    ensures
        granted(results) == at_most(results.len() as int, gates[0].capacity()),
        forall|i: int| 0 <= i < results.len() && i < gates[0].capacity() ==> (#[trigger] results[i]) is Ok,
        forall|i: int|
            0 <= i < results.len() && i >= gates[0].capacity() ==> (#[trigger] results[i]) is Err && results[i]->Err_0
                == gates[0].capacity(),
        forall|k: int|
            0 <= k < gates.len() ==> (#[trigger] gates[k]).waiting() == at_most(k, gates[0].capacity())
                && gates[k].capacity() == gates[0].capacity(),
        gates.last().refusals() as int == (results.len() - granted(results)) % 0x1_0000_0000_0000_0000,
    decreases results.len(),
{
    assert(gates[0].capacity() >= 0);
    if results.len() > 0 {
        let (gs, rs) = (gates.drop_last(), results.drop_last());
        let n = rs.len() as int;
        assert forall|i: int| 0 <= i < rs.len() implies #[trigger] gs[i].reserves(rs[i], gs[i + 1]) by {
            assert(gates[i].reserves(results[i], gates[i + 1]));
        }
        law_a_gate_grants_its_cap(gs, rs);
        assert(gates[n].reserves(results[n], gates[n + 1]));
        assert(gs[n].waiting() == at_most(n, gates[0].capacity()));
        assert forall|i: int| 0 <= i < results.len() && i < gates[0].capacity() implies (#[trigger] results[i]) is Ok by {
            if i < n {
                assert(rs[i] is Ok);
            }
        }
        assert forall|i: int| 0 <= i < results.len() && i >= gates[0].capacity() implies (#[trigger] results[i]) is Err
            && results[i]->Err_0 == gates[0].capacity() by {
            if i < n {
                assert(rs[i] is Err);
            }
        }
        assert forall|k: int| 0 <= k < gates.len() implies (#[trigger] gates[k]).waiting() == at_most(
            k,
            gates[0].capacity(),
        ) && gates[k].capacity() == gates[0].capacity() by {
            if k <= n {
                assert(gs[k] == gates[k]);
            }
        }
    }
}

/// A set of request ids.
#[derive(Debug)]
pub struct IdSet {
    ids: Vec<u64>,
}

impl View for IdSet {
    type V = Set<u64>;

    closed spec fn view(&self) -> Set<u64> {
        Set::new(|id: u64| self.ids@.contains(id))
    }
}

impl IdSet {
    /// Every id is listed once.
    pub closed spec fn wf(&self) -> bool {
        self.ids@.no_duplicates()
    }

    /// The empty set.
    pub fn new() -> (s: IdSet)
        ensures
            s.wf(),
            s@ == Set::<u64>::empty(),
    {
        let s = IdSet { ids: Vec::new() };
        assert(s@ =~= Set::<u64>::empty());
        s
    }

    /// Whether there is nothing in it.
    pub fn is_empty(&self) -> (r: bool)
        ensures
            r == (self@ == Set::<u64>::empty()),
    {
        if self.ids.len() == 0 {
            assert(self@ =~= Set::<u64>::empty());
            true
        } else {
            assert(self.ids@.contains(self.ids@[0]));
            assert(self@.contains(self.ids@[0]));
            false
        }
    }

    fn find(&self, id: u64) -> (r: Option<usize>)
        ensures
            match r {
                Some(i) => i < self.ids@.len() && self.ids@[i as int] == id,
                None => !self.ids@.contains(id),
            },
    {
        for i in 0usize..self.ids.len()
            invariant
                forall|k: int| 0 <= k < i ==> self.ids@[k] != id,
        {
            if self.ids[i] == id {
                return Some(i);
            }
        }
        None
    }

    /// Whether `id` is in it.
    pub fn contains(&self, id: u64) -> (r: bool)
        ensures
            r == self@.contains(id),
    {
        match self.find(id) {
            Some(i) => {
                assert(self.ids@.contains(id));
                true
            },
            None => false,
        }
    }

    /// Adds `id`; adding it twice is the same fact stated twice.
    pub fn insert(&mut self, id: u64)
        requires
            old(self).wf(),
        ensures
            final(self).wf(),
            final(self)@ == old(self)@.insert(id),
    {
        if self.contains(id) {
            assert(self@ =~= old(self)@.insert(id));
        } else {
            self.ids.push(id);
            proof {
                let (was, is) = (old(self).ids@, self.ids@);
                assert(is == was.push(id));
                assert forall|x: u64| is.contains(x) == (was.contains(x) || x == id) by {
                    if was.contains(x) {
                        let k = was.index_of(x);
                        assert(is[k] == x);
                    }
                    if x == id {
                        assert(is[was.len() as int] == id);
                    }
                }
                assert(self@ =~= old(self)@.insert(id));
            }
        }
    }

    /// Takes `id` out; reports whether it was there.
    pub fn remove(&mut self, id: u64) -> (was: bool)
        requires
            old(self).wf(),
        ensures
            final(self).wf(),
            was == old(self)@.contains(id),
            final(self)@ == old(self)@.remove(id),
    {
        match self.find(id) {
            Some(i) => {
                let _gone: u64 = self.ids.remove(i);
                proof {
                    let (was, is) = (old(self).ids@, self.ids@);
                    assert(is =~= was.remove(i as int));
                    assert forall|x: u64| is.contains(x) == (was.contains(x) && x != id) by {
                        if is.contains(x) {
                            let k = is.index_of(x);
                            let j = if k < i { k } else { k + 1 };
                            assert(was[j] == x);
                        }
                        if was.contains(x) && x != id {
                            let j = was.index_of(x);
                            let k = if j < i { j } else { j - 1 };
                            assert(is[k] == x);
                        }
                    }
                    assert(was.contains(id));
                    assert(self@ =~= old(self)@.remove(id));
                }
                true
            },
            None => {
                assert(self@ =~= old(self)@.remove(id));
                false
            },
        }
    }

    /// Adds everything in `other`.
    pub fn extend(&mut self, other: IdSet)
        requires
            old(self).wf(),
        ensures
            final(self).wf(),
            final(self)@ == old(self)@.union(other@),
    {
        let ghost seen = Set::<u64>::empty();
        for i in 0usize..other.ids.len()
            invariant
                self.wf(),
                forall|x: u64|
                    #![trigger self@.contains(x)]
                    self@.contains(x) == (old(self)@.contains(x) || other.ids@.take(i as int).contains(x)),
        {
            let id: u64 = other.ids[i];
            self.insert(id);
            proof {
                let (was, is) = (other.ids@.take(i as int), other.ids@.take(i + 1));
                assert forall|x: u64| is.contains(x) == (was.contains(x) || x == id) by {
                    if was.contains(x) {
                        let k = was.index_of(x);
                        assert(is[k] == x);
                    }
                    if is.contains(x) && x != id {
                        let k = is.index_of(x);
                        assert(k < i);
                        assert(was[k] == x);
                    }
                    assert(is[i as int] == id);
                }
            }
        }
        assert(other.ids@.take(other.ids@.len() as int) =~= other.ids@);
        assert(self@ =~= old(self)@.union(other@));
    }
}

/// Ids whose requests have been asked to stop, waiting for the worker to
/// act on them between forward passes.
#[derive(Debug)]
pub struct AbortInbox {
    pending: IdSet,
    next_id: u64,
    aborted: u64,
}

impl AbortInbox {
    /// The ids waiting to be acted on.
    pub closed spec fn pending(&self) -> Set<u64> {
        self.pending@
    }

    /// The id the next request gets.
    pub closed spec fn next(&self) -> u64 {
        self.next_id
    }

    /// Requests stopped so far.
    pub closed spec fn stopped(&self) -> u64 {
        self.aborted
    }

    /// The pending ids are a set.
    pub closed spec fn wf(&self) -> bool {
        self.pending.wf()
    }

    /// An inbox nothing has been asked of.
    pub fn new() -> (b: AbortInbox)
        ensures
            b.wf(),
            b.pending() == Set::<u64>::empty(),
            b.next() == 0,
            b.stopped() == 0,
    {
        AbortInbox { pending: IdSet::new(), next_id: 0, aborted: 0 }
    }

    /// Hands out an id that names one submitted job.
    pub fn next_id(&mut self) -> (id: u64)
        requires
            old(self).wf(),
        ensures
            final(self).wf(),
            id == old(self).next(),
            final(self).next() == old(self).next().wrapping_add(1),
            final(self).pending() == old(self).pending(),
            final(self).stopped() == old(self).stopped(),
    {
        let id: u64 = self.next_id;
        self.next_id = id.wrapping_add(1);
        id
    }

    /// Records that a request was asked to stop.
    pub fn enqueue(&mut self, id: u64)
        requires
            old(self).wf(),
        ensures
            final(self).wf(),
            final(self).pending() == old(self).pending().insert(id),
            final(self).next() == old(self).next(),
            final(self).stopped() == old(self).stopped(),
    {
        self.pending.insert(id);
    }

    /// Takes everything pending.
    pub fn drain(&mut self) -> (ids: IdSet)
        requires
            old(self).wf(),
        ensures
            final(self).wf(),
            ids.wf(),
            ids@ == old(self).pending(),
            final(self).pending() == Set::<u64>::empty(),
            final(self).next() == old(self).next(),
            final(self).stopped() == old(self).stopped(),
    {
        let mut ids: IdSet = IdSet::new();
        std::mem::swap(&mut ids, &mut self.pending);
        ids
    }

    /// Counts requests that were actually stopped.
    pub fn count_stopped(&mut self, n: u64)
        requires
            old(self).wf(),
        ensures
            final(self).wf(),
            final(self).pending() == old(self).pending(),
            final(self).next() == old(self).next(),
            final(self).stopped() == old(self).stopped().wrapping_add(n),
    {
        self.aborted = self.aborted.wrapping_add(n);
    }

    /// Requests stopped so far.
    pub fn aborted(&self) -> (n: u64)
        ensures
            n == self.stopped(),
    {
        self.aborted
    }
}

/// A slot that was claimed and freed again leaves the queue as deep as it was.
pub proof fn law_a_claimed_slot_comes_back(
    g: &mut QueueGate,
    r: Result<(), usize>,
    h: &mut QueueGate,
    u: (),
    before: usize,
    between: usize,
    after: usize,
)
    requires
        old(g).wf(),
        call_ensures(QueueGate::try_reserve, (g,), r),
        *old(h) == *final(g),
        call_ensures(QueueGate::release, (h,), u),
        call_ensures(QueueGate::depth, (&*old(g),), before),
        call_ensures(QueueGate::depth, (&*final(g),), between),
        call_ensures(QueueGate::depth, (&*final(h),), after),
    ensures
        r is Ok <==> before < old(g).capacity(),
        r is Ok ==> between == before + 1 && after == before,
        r is Err ==> between == before && r->Err_0 == before,
{
}

/// A refused claim is counted, a granted one is not.
pub proof fn law_refusals_are_counted(g: &mut QueueGate, r: Result<(), usize>, before: u64, after: u64)
    requires
        call_ensures(QueueGate::try_reserve, (g,), r),
        call_ensures(QueueGate::rejected, (&*old(g),), before),
        call_ensures(QueueGate::rejected, (&*final(g),), after),
    ensures
        r is Ok ==> after == before,
        r is Err ==> after == (before + 1) % 0x1_0000_0000_0000_0000,
{
}

/// What goes into a set of ids is in it, what is taken out is not, and no
/// other id is touched by either.
pub proof fn law_ids_come_and_go(
    s: &mut IdSet,
    id: u64,
    u: (),
    t: &mut IdSet,
    was: bool,
    other: u64,
    before: bool,
    between: bool,
    after: bool,
)
    requires
        call_ensures(IdSet::insert, (s, id), u),
        *old(t) == *final(s),
        call_ensures(IdSet::remove, (t, id), was),
        call_ensures(IdSet::contains, (&*old(s), other), before),
        call_ensures(IdSet::contains, (&*final(s), other), between),
        call_ensures(IdSet::contains, (&*final(t), other), after),
    ensures
        was,
        between == (before || other == id),
        after == (before && other != id),
{
}

/// Two sets joined hold what either held.
pub proof fn law_joined_sets_hold_both(s: &mut IdSet, other: IdSet, u: (), id: u64, a: bool, b: bool, c: bool)
    requires
        call_ensures(IdSet::extend, (s, other), u),
        call_ensures(IdSet::contains, (&*old(s), id), a),
        call_ensures(IdSet::contains, (&other, id), b),
        call_ensures(IdSet::contains, (&*final(s), id), c),
    ensures
        c == (a || b),
{
}

/// Ids are handed out one after the other, so two handed out in a row differ.
pub proof fn law_ids_are_handed_out_in_turn(a: &mut AbortInbox, one: u64, b: &mut AbortInbox, two: u64)
    requires
        call_ensures(AbortInbox::next_id, (a,), one),
        *old(b) == *final(a),
        call_ensures(AbortInbox::next_id, (b,), two),
    ensures
        two != one,
        one < u64::MAX ==> two == one + 1,
        final(b).pending() == old(a).pending(),
{
}

/// An id that was asked to stop is handed over once: the next drain has it,
/// with all that were asked before it and no other, and the one after that
/// has nothing.
pub proof fn law_a_stop_is_handed_over_once(
    a: &mut AbortInbox,
    id: u64,
    u: (),
    b: &mut AbortInbox,
    ids: IdSet,
    c: &mut AbortInbox,
    more: IdSet,
    x: u64,
)
    requires
        call_ensures(AbortInbox::enqueue, (a, id), u),
        *old(b) == *final(a),
        call_ensures(AbortInbox::drain, (b,), ids),
        *old(c) == *final(b),
        call_ensures(AbortInbox::drain, (c,), more),
    ensures
        ids@.contains(id),
        ids@.contains(x) <==> x == id || old(a).pending().contains(x),
        !more@.contains(x),
        final(c).next() == old(a).next(),
        final(c).stopped() == old(a).stopped(),
{
}

/// Stopped requests are counted by their number.
pub proof fn law_stopped_requests_are_counted(a: &mut AbortInbox, n: u64, u: (), before: u64, after: u64)
    requires
        call_ensures(AbortInbox::count_stopped, (a, n), u),
        call_ensures(AbortInbox::aborted, (&*old(a),), before),
        call_ensures(AbortInbox::aborted, (&*final(a),), after),
    ensures
        after == (before + n) % 0x1_0000_0000_0000_0000,
{
}

} // verus!
