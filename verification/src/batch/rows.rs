//! The in-flight rows, keyed by an identity that is never reused.
use vstd::prelude::*;
use vstd::string::StringExecFns;
use crate::answer::{is_reading, Reading};
use crate::batch::ledger::BlockBudget;
use crate::batch::prefill::{Completion, Prefill, Reply};
use crate::batch::queue::IdSet;
use crate::batch::totals::{lemma_filter_step, lemma_total_nonneg, lemma_total_push, lemma_total_split, total};
use crate::generate::{FinishReason, Usage};
use crate::sample_step::{masks, mode_for, mode_of, SampleMode};
use crate::sampling::SamplingParams;
use crate::stop::{StopMatcher, StopStep};

verus! {

/// One decoding request.
#[derive(Debug)]
pub struct Slot {
    /// The position the next token takes.
    pub pos: usize,
    pub generated_ids: Vec<usize>,
    /// The tokens the prompt was run as, kept so that a finished paged row
    /// can contribute its prefix.
    pub prompt_ids: Vec<usize>,
    /// Whether the row's KV lives in shared pages.
    pub paged: bool,
    /// Text already safe to expose, past the stop hold-back.
    pub visible: String,
    /// Both stop layers for this row.
    pub stops: StopMatcher,
    pub prompt_tokens: usize,
    pub max_tokens: usize,
    pub eos_id: Option<usize>,
    pub sampling: SamplingParams,
    pub seed: u64,
    pub json_object: bool,
    pub grammar: Option<String>,
    pub reply: u64,
    pub finish: Option<FinishReason>,
    pub abort: u64,
    /// KV blocks reserved at admission, returned when the row ends.
    pub blocks: usize,
}

/// The number of tokens a prompt of `prompt_tokens` tokens is run as.
pub open spec fn run_len(prompt_tokens: usize) -> int {
    if prompt_tokens == 0 {
        1
    } else {
        prompt_tokens as int
    }
}

impl Slot {
    /// What a row keeps from admission to its end.
    pub open spec fn same_request(&self, other: &Slot) -> bool {
        &&& self.prompt_tokens == other.prompt_tokens
        &&& self.max_tokens == other.max_tokens
        &&& self.eos_id == other.eos_id
        &&& self.sampling == other.sampling
        &&& self.seed == other.seed
        &&& self.json_object == other.json_object
        &&& self.grammar == other.grammar
        &&& self.reply == other.reply
        &&& self.abort == other.abort
        &&& self.blocks == other.blocks
        &&& self.prompt_ids == other.prompt_ids
        &&& self.paged == other.paged
        &&& self.stops.stops() == other.stops.stops()
        &&& self.stops.stop_token_ids() == other.stops.stop_token_ids()
    }

    /// The stop layers are sound, and the positions and counts of the
    /// answer so far are representable.
    pub open spec fn wf(&self) -> bool {
        &&& self.stops.wf()
        &&& self.pos <= run_len(self.prompt_tokens) + self.generated_ids@.len()
        &&& run_len(self.prompt_tokens) + self.generated_ids@.len() <= usize::MAX
    }

    /// The row should take a decode step.
    pub open spec fn is_ready(&self) -> bool {
        self.finish is None && self.generated_ids@.len() < self.max_tokens
    }

    /// A token was sampled that the model has not run yet.
    pub open spec fn has_unrun_token(&self) -> bool {
        &&& self.generated_ids@.len() > 0
        &&& self.pos + 1 == run_len(self.prompt_tokens) + self.generated_ids@.len()
    }

    /// Every sampled token has been run.
    pub open spec fn is_settled(&self) -> bool {
        self.pos == run_len(self.prompt_tokens) + self.generated_ids@.len()
    }

    /// This token ends the answer without being part of it.
    pub open spec fn ends(&self, next: usize) -> bool {
        self.eos_id == Some(next) || self.stops.stop_token_ids().contains(next)
    }

    /// What sampling `next` turns this row into.
    pub open spec fn sampled(&self, next: usize, after: Slot) -> bool {
        &&& after.same_request(self)
        &&& after.stops == self.stops
        &&& after.visible == self.visible
        &&& after.pos == self.pos
        &&& after.finish == if self.ends(next) { Some(FinishReason::Stop) } else { self.finish }
        &&& after.generated_ids@ == if self.ends(next) {
            self.generated_ids@
        } else {
            self.generated_ids@.push(next)
        }
    }

    /// What the text `piece` turns this row into, and whether a stop matched.
    pub open spec fn fed(&self, piece: Seq<char>, matched: bool, after: Slot) -> bool {
        &&& after.same_request(self)
        &&& after.pos == self.pos
        &&& after.generated_ids == self.generated_ids
        &&& after.finish == if matched { Some(FinishReason::Stop) } else { self.finish }
        &&& exists|text: Seq<char>|
            after.visible@ == self.visible@ + text && #[trigger] is_reading(
                self.stops.stops(),
                self.stops.pending() + piece,
                Reading { matched, text, held: after.stops.pending() },
            )
    }

    /// What running the token sampled last turns this row into.
    pub open spec fn advanced(self) -> Slot {
        Slot {
            pos: (self.pos + 1) as usize,
            finish: if self.generated_ids@.len() >= self.max_tokens {
                Some(FinishReason::Length)
            } else {
                self.finish
            },
            ..self
        }
    }

    /// Whether the row should take a decode step.
    pub fn ready(&self) -> (r: bool)
        ensures
            r == self.is_ready(),
    {
        self.finish.is_none() && self.generated_ids.len() < self.max_tokens
    }

    /// The constraint the row samples under.
    pub fn sample_mode(&self, logits_len: usize) -> (m: SampleMode)
        requires
            self.json_object ==> logits_len > 1,
        ensures
            m == mode_of(self.json_object),
    {
        mode_for(self.json_object, logits_len)
    }

    /// Takes a sampled token. An end of sequence and a token-level stop are
    /// the same fact: the token ends the answer and is not part of it.
    /// True when the token joined the answer.
    pub fn on_sample(&mut self, next: usize) -> (kept: bool)
        requires
            old(self).wf(),
            old(self).is_settled(),
            run_len(old(self).prompt_tokens) + old(self).generated_ids@.len() < usize::MAX,
        ensures
            final(self).wf(),
            kept == !old(self).ends(next),
            old(self).sampled(next, *final(self)),
            kept ==> final(self).has_unrun_token(),
    {
        let is_eos: bool = match self.eos_id {
            Some(e) => e == next,
            None => false,
        };
        if is_eos || self.stops.is_stop_token(next) {
            self.finish = Some(FinishReason::Stop);
            return false;
        }
        self.generated_ids.push(next);
        true
    }

    /// Feeds a token's text through the row's stop matcher. True when a
    /// stop matched and the row leaves the batch.
    pub fn apply_stop_buffer(&mut self, piece: &str) -> (matched: bool)
        requires
            old(self).wf(),
        ensures
            final(self).wf(),
            old(self).fed(piece@, matched, *final(self)),
    {
        match self.stops.push(piece) {
            StopStep::Emit(text) => {
                self.visible.append(text.as_str());
                assert(is_reading(
                    old(self).stops.stops(),
                    old(self).stops.pending() + piece@,
                    Reading { matched: false, text: text@, held: self.stops.pending() },
                ));
                false
            },
            StopStep::Matched(text) => {
                self.visible.append(text.as_str());
                self.finish = Some(FinishReason::Stop);
                assert(is_reading(
                    old(self).stops.stops(),
                    old(self).stops.pending() + piece@,
                    Reading { matched: true, text: text@, held: self.stops.pending() },
                ));
                true
            },
        }
    }

    /// The token sampled last has been run: the next one takes the next
    /// position, unless the budget is spent.
    pub fn advance(&mut self)
        requires
            old(self).wf(),
            old(self).has_unrun_token(),
        ensures
            final(self).wf(),
            final(self).is_settled(),
            *final(self) == old(self).advanced(),
    {
        self.pos = self.pos + 1;
        if self.generated_ids.len() >= self.max_tokens {
            self.finish = Some(FinishReason::Length);
        }
    }

    /// The answer this row's own caller gets. Text withheld against a stop
    /// that never arrived is ordinary output.
    pub fn reply_finished(self) -> (r: Reply)
        requires
            self.wf(),
            self.finish is Some,
        ensures
            answers(r, self),
    {
        let mut stops: StopMatcher = self.stops;
        let mut text: String = self.visible;
        let tail: String = stops.flush();
        text.append(tail.as_str());
        let finish: FinishReason = match self.finish {
            Some(f) => f,
            None => FinishReason::Length,
        };
        let usage: Usage = Usage::new(self.prompt_tokens, self.generated_ids.len());
        let publish: Option<Vec<usize>> = if self.paged {
            let mut whole: Vec<usize> = self.prompt_ids;
            whole.extend_from_slice(self.generated_ids.as_slice());
            assert(whole@ =~= self.prompt_ids@ + self.generated_ids@);
            Some(whole)
        } else {
            None
        };
        Reply { to: self.reply, result: Ok(Completion { finish, ids: self.generated_ids, text, usage }), publish }
    }
}

/// `r` is the answer to the finished row `slot`: its own tokens and all its
/// text, to its own caller, and for a paged row the whole sequence to publish.
pub open spec fn answers(r: Reply, slot: Slot) -> bool {
    &&& r.to == slot.reply
    &&& r.publish is Some <==> slot.paged
    &&& slot.paged ==> r.publish->0@ == slot.prompt_ids@ + slot.generated_ids@
    &&& r.result matches Ok(c) && Some(c.finish) == slot.finish && c.ids@ == slot.generated_ids@ && c.text@
        == slot.visible@ + slot.stops.pending() && c.usage.prompt_tokens == slot.prompt_tokens
        && c.usage.completion_tokens == slot.generated_ids@.len() && c.usage.total_tokens == slot.prompt_tokens
        + slot.generated_ids@.len()
}

impl Prefill {
    /// The row that a finished prefill starts as.
    pub open spec fn hands_over(&self, slot: Slot) -> bool {
        &&& slot.wf()
        &&& slot.is_settled()
        &&& slot.pos == self.state.processed()
        &&& slot.generated_ids@.len() == 0
        &&& slot.prompt_ids@ == self.state.tokens()
        &&& slot.paged == self.state.is_paged()
        &&& slot.visible@.len() == 0
        &&& slot.stops.stops() == self.params.stop@
        &&& slot.stops.stop_token_ids() == self.params.stop_token_ids@
        &&& slot.stops.pending().len() == 0
        &&& slot.prompt_tokens == self.prompt_tokens
        &&& slot.max_tokens == self.params.max_tokens
        &&& slot.eos_id == self.eos_id
        &&& slot.sampling == self.params.sampling
        &&& slot.seed == self.params.seed
        &&& slot.json_object == self.params.json_object
        &&& slot.grammar == self.params.grammar
        &&& slot.reply == self.reply
        &&& slot.finish is None
        &&& slot.abort == self.abort
        &&& slot.blocks == self.blocks
    }

    /// Turns a finished prefill into a decode row. Its reservation goes
    /// with it.
    pub fn into_slot(self) -> (slot: Slot)
        requires
            self.wf(),
            self.state.processed() == self.state.tokens().len(),
        ensures
            self.hands_over(slot),
    {
        let (pos, prompt_ids, paged): (usize, Vec<usize>, bool) = self.state.into_decode_start();
        Slot {
            pos,
            generated_ids: Vec::new(),
            prompt_ids,
            paged,
            visible: String::new(),
            stops: StopMatcher::new(self.params.stop, self.params.stop_token_ids),
            prompt_tokens: self.prompt_tokens,
            max_tokens: self.params.max_tokens,
            eos_id: self.eos_id,
            sampling: self.params.sampling,
            seed: self.params.seed,
            json_object: self.params.json_object,
            grammar: self.params.grammar,
            reply: self.reply,
            finish: None,
            abort: self.abort,
            blocks: self.blocks,
        }
    }
}

/// A request is sampled under the same constraint as a row of the batch and
/// by itself.
pub proof fn law_a_row_samples_as_its_request(prefill: Prefill, slot: Slot)
    requires
        prefill.hands_over(slot),
    ensures
        mode_of(slot.json_object) == mode_of(masks(prefill.params)),
{
}

/// A row and its identity.
#[derive(Debug)]
pub struct Row {
    pub uid: u64,
    pub slot: Slot,
}

/// The in-flight rows in admission order. Removing a row cannot renumber
/// another one.
#[derive(Debug)]
pub struct Rows {
    rows: Vec<Row>,
    next_uid: u64,
}

impl View for Rows {
    type V = Seq<Row>;

    closed spec fn view(&self) -> Seq<Row> {
        self.rows@
    }
}

/// A row's share of the block budget.
pub open spec fn row_blocks() -> spec_fn(Row) -> int {
    |r: Row| r.slot.blocks as int
}

/// A row that has not finished.
pub open spec fn going() -> spec_fn(Row) -> bool {
    |r: Row| r.slot.finish is None
}

/// A row that has finished.
pub open spec fn finished() -> spec_fn(Row) -> bool {
    |r: Row| r.slot.finish is Some
}

/// A row that takes a decode step.
pub open spec fn ready_row() -> spec_fn(Row) -> bool {
    |r: Row| r.slot.is_ready()
}

/// The identities of some rows, in their order.
pub open spec fn uids(rows: Seq<Row>) -> Seq<u64> {
    Seq::new(rows.len(), |i: int| rows[i].uid)
}

/// The row a cancellation of `ids` leaves.
pub open spec fn after_cancel(row: Row, ids: Set<u64>) -> Row {
    if ids.contains(row.slot.abort) && row.slot.finish is None {
        Row { uid: row.uid, slot: Slot { finish: Some(FinishReason::Cancelled), ..row.slot } }
    } else {
        row
    }
}

/// A row that a cancellation of `ids` stops.
pub open spec fn cancels(ids: Set<u64>) -> spec_fn(Row) -> bool {
    |r: Row| ids.contains(r.slot.abort) && r.slot.finish is None
}

/// The cancellation handles of some rows, in their order.
pub open spec fn aborts_of(rows: Seq<Row>) -> Seq<u64> {
    Seq::new(rows.len(), |i: int| rows[i].slot.abort)
}

/// Rows in strictly increasing identity below `next`, each sound.
pub open spec fn rows_wf(rows: Seq<Row>, next: u64) -> bool {
    &&& forall|i: int| 0 <= i < rows.len() ==> (#[trigger] rows[i]).uid < next
    &&& forall|i: int, j: int| 0 <= i < j < rows.len() ==> (#[trigger] rows[i]).uid < (#[trigger] rows[j]).uid
    &&& forall|i: int| 0 <= i < rows.len() ==> (#[trigger] rows[i]).slot.wf()
}

impl Rows {
    /// The next identity to hand out.
    pub closed spec fn next(&self) -> u64 {
        self.next_uid
    }

    /// Identities increase in admission order, and every row is sound.
    pub open spec fn wf(&self) -> bool {
        rows_wf(self@, self.next())
    }

    /// An empty table.
    pub fn new() -> (r: Rows)
        ensures
            r.wf(),
            r@ == Seq::<Row>::empty(),
            r.next() == 0,
    {
        Rows { rows: Vec::new(), next_uid: 0 }
    }

    /// Adds a row under a fresh identity.
    pub fn insert(&mut self, slot: Slot) -> (uid: u64)
        requires
            old(self).wf(),
            slot.wf(),
            old(self).next() < u64::MAX,
        ensures
            final(self).wf(),
            uid == old(self).next(),
            final(self).next() == old(self).next() + 1,
            final(self)@ == old(self)@.push(Row { uid, slot }),
    {
        let uid: u64 = self.next_uid;
        self.next_uid = uid + 1;
        self.rows.push(Row { uid, slot });
        uid
    }

    /// Whether there is an identity left to hand out.
    pub fn has_ids(&self) -> (r: bool)
        ensures
            r == (self.next() < u64::MAX),
    {
        self.next_uid < u64::MAX
    }

    /// The number of rows.
    pub fn len(&self) -> (n: usize)
        ensures
            n == self@.len(),
    {
        self.rows.len()
    }

    /// Whether nothing is decoding.
    pub fn is_empty(&self) -> (r: bool)
        ensures
            r == (self@.len() == 0),
    {
        self.rows.len() == 0
    }

    /// KV blocks the rows hold right now, as far as a count goes.
    pub fn blocks_held(&self) -> (n: usize)
        ensures
            n == if total(self@, row_blocks()) <= usize::MAX { total(self@, row_blocks()) } else { usize::MAX as int },
    {
        let mut n: usize = 0;
        for i in 0usize..self.rows.len()
            invariant
                n == if total(self@.take(i as int), row_blocks()) <= usize::MAX {
                    total(self@.take(i as int), row_blocks())
                } else {
                    usize::MAX as int
                },
        {
            n = n.saturating_add(self.rows[i].slot.blocks);
            proof {
                assert(self@.take(i + 1) =~= self@.take(i as int).push(self@[i as int]));
                lemma_total_push(self@.take(i as int), self@[i as int], row_blocks());
            }
        }
        assert(self@.take(self@.len() as int) =~= self@);
        n
    }

    /// Where the row of `uid` is.
    pub open spec fn at(&self, uid: u64, i: int) -> bool {
        0 <= i < self@.len() && self@[i].uid == uid
    }

    /// A row of this identity is in the table.
    pub open spec fn holds(&self, uid: u64) -> bool {
        exists|i: int| self.at(uid, i)
    }

    fn find(&self, uid: u64) -> (r: Option<usize>)
        ensures
            match r {
                Some(i) => self.at(uid, i as int),
                None => !self.holds(uid),
            },
    {
        for i in 0usize..self.rows.len()
            invariant
                forall|k: int| 0 <= k < i ==> (#[trigger] self@[k]).uid != uid,
        {
            if self.rows[i].uid == uid {
                assert(self.at(uid, i as int));
                return Some(i);
            }
        }
        None
    }

    /// The row of `uid`; nothing for one that has already left, never
    /// whichever row now sits where it used to.
    pub fn get(&self, uid: u64) -> (r: Option<&Slot>)
        ensures
            match r {
                Some(s) => exists|i: int| self.at(uid, i) && self@[i].slot == *s,
                None => !self.holds(uid),
            },
    {
        match self.find(uid) {
            Some(i) => {
                assert(self.at(uid, i as int));
                Some(&self.rows[i].slot)
            },
            None => None,
        }
    }

    /// Takes the row of `uid` out and disturbs no other.
    pub fn remove(&mut self, uid: u64) -> (r: Option<Slot>)
        requires
            old(self).wf(),
        ensures
            final(self).wf(),
            final(self).next() == old(self).next(),
            match r {
                Some(s) => exists|i: int|
                    old(self).at(uid, i) && old(self)@[i].slot == s && final(self)@ == old(self)@.remove(i),
                None => !old(self).holds(uid) && final(self)@ == old(self)@,
            },
            !final(self).holds(uid),
    {
        match self.find(uid) {
            Some(i) => {
                let row: Row = self.rows.remove(i);
                assert(old(self).at(uid, i as int));
                assert(self@ =~= old(self)@.remove(i as int));
                Some(row.slot)
            },
            None => None,
        }
    }

    /// The identities of all rows, in admission order.
    pub fn order(&self) -> (r: Vec<u64>)
        ensures
            r@ == uids(self@),
    {
        let mut r: Vec<u64> = Vec::new();
        for i in 0usize..self.rows.len()
            invariant
                r@.len() == i,
                forall|k: int| 0 <= k < i ==> #[trigger] r@[k] == self@[k].uid,
        {
            r.push(self.rows[i].uid);
        }
        assert(r@ =~= uids(self@));
        r
    }

    /// Rows that should take a decode step, in admission order.
    pub fn ready(&self) -> (r: Vec<u64>)
        ensures
            r@ == uids(self@.filter(ready_row())),
    {
        let mut r: Vec<u64> = Vec::new();
        proof {
            reveal(Seq::filter);
            assert(self@.take(0) =~= Seq::empty());
            assert(r@ =~= uids(self@.take(0).filter(ready_row())));
        }
        for i in 0usize..self.rows.len()
            invariant
                r@ == uids(self@.take(i as int).filter(ready_row())),
        {
            proof {
                lemma_filter_step(self@, i as int, ready_row());
            }
            if self.rows[i].slot.ready() {
                r.push(self.rows[i].uid);
                assert(r@ =~= uids(self@.take(i + 1).filter(ready_row())));
            }
        }
        assert(self@.take(self@.len() as int) =~= self@);
        r
    }

    /// The row of `uid`, to work on in place.
    pub fn get_mut(&mut self, uid: u64) -> (r: Option<&mut Slot>)
        requires
            old(self).wf(),
        ensures
            final(self).next() == old(self).next(),
            match r {
                Some(s) => exists|i: int|
                    old(self).at(uid, i) && old(self)@[i].slot == *s && final(self)@ == old(self)@.update(
                        i,
                        Row { uid, slot: *final(s) },
                    ),
                None => !old(self).holds(uid) && final(self)@ == old(self)@,
            },
    {
        match self.find(uid) {
            Some(i) => {
                assert(old(self).at(uid, i as int));
                Some(&mut self.rows[i].slot)
            },
            None => None,
        }
    }

    /// Marks every unfinished row whose cancellation handle is in `ids`,
    /// and reports the handles that were used. Marking, not removing: the
    /// row leaves the way every finished row does.
    pub fn mark_cancelled(&mut self, ids: &IdSet) -> (consumed: Vec<u64>)
        requires
            old(self).wf(),
        ensures
            final(self).wf(),
            final(self).next() == old(self).next(),
            final(self)@ == old(self)@.map_values(|r: Row| after_cancel(r, ids@)),
            consumed@ == aborts_of(old(self)@.filter(cancels(ids@))),
    {
        let mut consumed: Vec<u64> = Vec::new();
        let ghost all = self@;
        proof {
            reveal(Seq::filter);
            assert(all.take(0) =~= Seq::empty());
            assert(consumed@ =~= aborts_of(all.take(0).filter(cancels(ids@))));
        }
        let n: usize = self.rows.len();
        for i in 0usize..n
            invariant
                n == all.len(),
                self@.len() == all.len(),
                self.next() == old(self).next(),
                rows_wf(all, old(self).next()),
                forall|k: int| 0 <= k < i ==> #[trigger] self@[k] == after_cancel(all[k], ids@),
                forall|k: int| i <= k < all.len() ==> #[trigger] self@[k] == all[k],
                consumed@ == aborts_of(all.take(i as int).filter(cancels(ids@))),
        {
            proof {
                lemma_filter_step(all, i as int, cancels(ids@));
            }
            let abort: u64 = self.rows[i].slot.abort;
            if ids.contains(abort) && self.rows[i].slot.finish.is_none() {
                self.rows[i].slot.finish = Some(FinishReason::Cancelled);
                consumed.push(abort);
                assert(consumed@ =~= aborts_of(all.take(i + 1).filter(cancels(ids@))));
            }
        }
        proof {
            assert(all.take(all.len() as int) =~= all);
            assert(self@ =~= all.map_values(|r: Row| after_cancel(r, ids@)));
        }
        consumed
    }

    /// Answers and removes every row that has finished, returning each
    /// row's blocks as it goes. Every finished row takes this one path, so
    /// none can leave without giving its capacity back.
    pub fn flush_finished(&mut self, budget: &mut BlockBudget) -> (replies: Vec<Reply>)
        requires
            old(self).wf(),
            old(budget).wf(),
        ensures
            final(self).wf(),
            final(self).next() == old(self).next(),
            final(self)@ == old(self)@.filter(going()),
            final(budget).wf(),
            final(budget).same_limits(old(budget)),
            final(budget).too_large() == old(budget).too_large(),
            final(budget).too_long() == old(budget).too_long(),
            final(budget).unreserved() == old(budget).given_back(total(old(self)@.filter(finished()), row_blocks())),
            replies@.len() == old(self)@.filter(finished()).len(),
            forall|k: int|
                0 <= k < replies@.len() ==> answers(#[trigger] replies@[k], old(self)@.filter(finished())[k].slot),
            total(final(self)@, row_blocks()) + total(old(self)@.filter(finished()), row_blocks()) == total(
                old(self)@,
                row_blocks(),
            ),
    {
        let mut replies: Vec<Reply> = Vec::new();
        let mut i: usize = 0;
        let ghost all = self@;
        let ghost mut seen: int = 0;
        proof {
            reveal(Seq::filter);
            budget.law_blocks_are_accounted_for();
            assert(all.take(0) =~= Seq::empty());
            assert(all.skip(0) =~= all);
            assert(all.take(0).filter(going()) + all.skip(0) =~= all);
        }
        while i < self.rows.len()
            invariant
                0 <= seen <= all.len(),
                rows_wf(all, old(self).next()),
                rows_wf(self@, old(self).next()),
                self.next() == old(self).next(),
                i == all.take(seen).filter(going()).len(),
                self@ == all.take(seen).filter(going()) + all.skip(seen),
                budget.wf(),
                budget.same_limits(old(budget)),
                budget.too_large() == old(budget).too_large(),
                budget.too_long() == old(budget).too_long(),
                budget.unreserved() == old(budget).given_back(
                    total(all.take(seen).filter(finished()), row_blocks()),
                ),
                replies@.len() == all.take(seen).filter(finished()).len(),
                forall|k: int|
                    0 <= k < replies@.len() ==> answers(
                        #[trigger] replies@[k],
                        all.take(seen).filter(finished())[k].slot,
                    ),
            decreases all.len() - seen,
        {
            let ghost kept = all.take(seen).filter(going());
            let ghost gone = all.take(seen).filter(finished());
            let ghost row = all[seen];
            proof {
                assert(self@[i as int] == row);
                lemma_filter_step(all, seen, going());
                lemma_filter_step(all, seen, finished());
                lemma_total_push(gone, row, row_blocks());
                lemma_total_nonneg(gone, row_blocks());
            }
            if self.rows[i].slot.finish.is_some() {
                let taken: Row = self.rows.remove(i);
                assert(taken == row);
                assert(self@ =~= kept + all.skip(seen + 1));
                budget.release(taken.slot.blocks);
                let reply: Reply = taken.slot.reply_finished();
                replies.push(reply);
                proof {
                    assert forall|k: int| 0 <= k < replies@.len() implies answers(
                        #[trigger] replies@[k],
                        all.take(seen + 1).filter(finished())[k].slot,
                    ) by {
                        if k < gone.len() {
                            assert(gone.push(row)[k] == gone[k]);
                        } else {
                            assert(gone.push(row)[k] == row);
                        }
                    }
                }
            } else {
                i = i + 1;
                assert(self@ =~= kept.push(row) + all.skip(seen + 1));
            }
            proof {
                seen = seen + 1;
            }
        }
        proof {
            assert(all.skip(seen).len() == 0);
            assert(all.take(seen) =~= all);
            assert(self@ =~= all.filter(going()));
            lemma_total_split(all, going(), finished(), row_blocks());
        }
        replies
    }
}

/// What sampling a token does to a row: one that ends the answer is not part
/// of it and finishes the row, any other joins the answer. Nothing else of
/// the row changes.
pub proof fn law_a_sampled_token_joins_or_ends(one: Slot, next: usize, two: Slot)
    requires
        one.sampled(next, two),
    ensures
        ({
            let ends = one.eos_id == Some(next) || one.stops.stop_token_ids().contains(next);
            &&& ends ==> two.generated_ids@ == one.generated_ids@ && two.finish == Some(FinishReason::Stop)
            &&& !ends ==> two.generated_ids@ == one.generated_ids@.push(next) && two.finish == one.finish
        }),
        two.pos == one.pos,
        two.visible == one.visible,
        two.stops == one.stops,
        two.max_tokens == one.max_tokens,
        two.reply == one.reply,
        two.abort == one.abort,
        two.blocks == one.blocks,
{
}

/// What a piece of text does to a row: without a stop string, what is
/// visible and what is held back are together what they were and the piece;
/// with one, the row has finished, and what is visible ends right in front of
/// it. The tokens and the position stay.
pub proof fn law_a_piece_is_visible_or_held(one: Slot, piece: Seq<char>, matched: bool, two: Slot)
    requires
        one.fed(piece, matched, two),
    ensures
        !matched ==> two.visible@ + two.stops.pending() == one.visible@ + one.stops.pending() + piece,
        !matched ==> two.finish == one.finish,
        matched ==> two.finish == Some(FinishReason::Stop) && two.stops.pending() == Seq::<char>::empty(),
        matched ==> exists|k: int, b: Seq<char>|
            0 <= k < one.stops.stops().len() && one.stops.stops()[k]@.len() > 0 && one.visible@ + one.stops.pending()
                + piece == #[trigger] (two.visible@ + one.stops.stops()[k]@ + b),
        two.pos == one.pos,
        two.generated_ids == one.generated_ids,
{
    let stops = one.stops.stops();
    let all = one.stops.pending() + piece;
    let text = choose|text: Seq<char>|
        two.visible@ == one.visible@ + text && #[trigger] is_reading(
            stops,
            all,
            Reading { matched, text, held: two.stops.pending() },
        );
    let r = Reading { matched, text, held: two.stops.pending() };
    crate::answer::law_reading_stops_at_the_first_stop_string(stops, all, r);
    assert(one.visible@ + one.stops.pending() + piece =~= one.visible@ + all);
    if matched {
        let (k, b) = choose|k: int, b: Seq<char>|
            0 <= k < stops.len() && stops[k]@.len() > 0 && all == #[trigger] (r.text + stops[k]@ + b);
        assert(one.visible@ + all =~= two.visible@ + one.stops.stops()[k]@ + b);
    } else {
        assert(two.visible@ + two.stops.pending() =~= one.visible@ + (text + r.held));
    }
}

/// Running the last token moves a row one position on; the row finishes for
/// its length exactly when its budget is spent.
pub proof fn law_running_a_token_moves_on(one: Slot)
    requires
        one.pos < usize::MAX,
    ensures
        one.advanced().pos == one.pos + 1,
        one.generated_ids@.len() >= one.max_tokens ==> one.advanced().finish == Some(FinishReason::Length),
        one.generated_ids@.len() < one.max_tokens ==> one.advanced().finish == one.finish,
        one.advanced().generated_ids == one.generated_ids,
        one.advanced().visible == one.visible,
        one.advanced().stops == one.stops,
        one.advanced().same_request(&one),
{
}

/// A row decodes exactly while it has not finished and its budget is not
/// spent.
pub proof fn law_a_row_decodes_within_its_budget(s: Slot)
    ensures
        s.finish is Some ==> !s.is_ready(),
        s.generated_ids@.len() >= s.max_tokens ==> !s.is_ready(),
        s.finish is None && s.generated_ids@.len() < s.max_tokens ==> s.is_ready(),
        ready_row()(Row { uid: 0, slot: s }) == s.is_ready(),
{
}

/// A finished row's answer: its own tokens, everything visible and everything
/// still held back, why it ended, and counts of its own prompt and tokens. A
/// paged row also hands over its whole sequence.
pub proof fn law_a_finished_row_is_answered_in_full(r: Reply, slot: Slot)
    requires
        answers(r, slot),
    ensures
        r.to == slot.reply,
        r.result is Ok,
        ({
            let c = r.result->Ok_0;
            &&& Some(c.finish) == slot.finish
            &&& c.ids@ == slot.generated_ids@
            &&& c.text@ == slot.visible@ + slot.stops.pending()
            &&& c.usage.prompt_tokens == slot.prompt_tokens
            &&& c.usage.completion_tokens == slot.generated_ids@.len()
            &&& c.usage.total_tokens == slot.prompt_tokens + slot.generated_ids@.len()
        }),
        slot.paged ==> r.publish is Some && r.publish->0@ == slot.prompt_ids@ + slot.generated_ids@,
        !slot.paged ==> r.publish is None,
{
}

/// A prefilled prompt starts to decode as itself: every setting of its
/// request, its own position, nothing generated, nothing visible.
pub proof fn law_a_row_starts_as_its_request(p: Prefill, slot: Slot)
    requires
        p.hands_over(slot),
    ensures
        slot.pos == p.state.processed(),
        slot.generated_ids@ == Seq::<usize>::empty(),
        slot.visible@ == Seq::<char>::empty(),
        slot.stops.pending() == Seq::<char>::empty(),
        slot.stops.stops() == p.params.stop@,
        slot.stops.stop_token_ids() == p.params.stop_token_ids@,
        slot.prompt_ids@ == p.state.tokens(),
        slot.paged == p.state.is_paged(),
        slot.prompt_tokens == p.prompt_tokens,
        slot.max_tokens == p.params.max_tokens,
        slot.eos_id == p.eos_id,
        slot.sampling == p.params.sampling,
        slot.seed == p.params.seed,
        slot.json_object == p.params.json_object,
        slot.grammar == p.params.grammar,
        slot.reply == p.reply,
        slot.abort == p.abort,
        slot.blocks == p.blocks,
        slot.finish is None,
{
    assert(slot.generated_ids@ =~= Seq::<usize>::empty());
    assert(slot.visible@ =~= Seq::<char>::empty());
    assert(slot.stops.pending() =~= Seq::<char>::empty());
}

/// What belongs to a request stays with it while it decodes.
pub proof fn law_a_row_keeps_its_request(one: Slot, two: Slot)
    requires
        two.same_request(&one),
    ensures
        two.prompt_tokens == one.prompt_tokens,
        two.max_tokens == one.max_tokens,
        two.eos_id == one.eos_id,
        two.sampling == one.sampling,
        two.seed == one.seed,
        two.json_object == one.json_object,
        two.grammar == one.grammar,
        two.reply == one.reply,
        two.abort == one.abort,
        two.blocks == one.blocks,
        two.prompt_ids == one.prompt_ids,
        two.paged == one.paged,
        two.stops.stops() == one.stops.stops(),
        two.stops.stop_token_ids() == one.stops.stop_token_ids(),
{
}

/// A cancellation marks exactly the rows it names that have not finished, as
/// cancelled, and changes nothing else of them or of any other row.
pub proof fn law_a_cancellation_marks_its_rows(row: Row, ids: Set<u64>)
    ensures
        ids.contains(row.slot.abort) && row.slot.finish is None ==> {
            &&& after_cancel(row, ids).slot.finish == Some(FinishReason::Cancelled)
            &&& after_cancel(row, ids).uid == row.uid
            &&& after_cancel(row, ids).slot.same_request(&row.slot)
            &&& after_cancel(row, ids).slot.generated_ids == row.slot.generated_ids
            &&& after_cancel(row, ids).slot.visible == row.slot.visible
            &&& after_cancel(row, ids).slot.stops == row.slot.stops
            &&& after_cancel(row, ids).slot.pos == row.slot.pos
            &&& cancels(ids)(row)
        },
        !ids.contains(row.slot.abort) || row.slot.finish is Some ==> after_cancel(row, ids) == row && !cancels(ids)(
            row,
        ),
{
}

/// A row is going or finished, never both; its share of the blocks and its
/// names are its own.
pub proof fn law_rows_are_going_or_finished(rows: Seq<Row>, i: int)
    requires
        0 <= i < rows.len(),
    ensures
        finished()(rows[i]) <==> rows[i].slot.finish is Some,
        going()(rows[i]) <==> rows[i].slot.finish is None,
        row_blocks()(rows[i]) == rows[i].slot.blocks,
        uids(rows).len() == rows.len(),
        uids(rows)[i] == rows[i].uid,
        aborts_of(rows).len() == rows.len(),
        aborts_of(rows)[i] == rows[i].slot.abort,
{
}

/// No two rows have the same identity, and none has one that is still to be
/// handed out.
pub proof fn law_identities_are_never_shared(rows: Seq<Row>, next: u64, i: int, j: int)
    requires
        rows_wf(rows, next),
        0 <= i < j < rows.len(),
    ensures
        rows[i].uid != rows[j].uid,
        rows[i].uid < next,
        rows[j].uid < next,
{
}

/// A row is found exactly under its identity.
pub proof fn law_rows_are_found_by_identity(rows: &Rows, uid: u64, i: int)
    ensures
        rows.at(uid, i) <==> 0 <= i < rows@.len() && rows@[i].uid == uid,
        0 <= i < rows@.len() ==> rows.holds(rows@[i].uid),
        (forall|k: int| 0 <= k < rows@.len() ==> (#[trigger] rows@[k]).uid != uid) ==> !rows.holds(uid),
{
    if 0 <= i < rows@.len() {
        assert(rows.at(rows@[i].uid, i));
    }
}

/// A prompt is run as its tokens, and an empty one as one; a row that has run
/// everything stands behind its prompt and its answer, and one that has a
/// token to run stands one short of that.
pub proof fn law_where_a_row_stands(s: Slot)
    ensures
        s.prompt_tokens > 0 ==> run_len(s.prompt_tokens) == s.prompt_tokens,
        s.prompt_tokens == 0 ==> run_len(s.prompt_tokens) == 1,
        s.is_settled() <==> s.pos == run_len(s.prompt_tokens) + s.generated_ids@.len(),
        s.has_unrun_token() <==> s.generated_ids@.len() > 0 && s.pos == run_len(s.prompt_tokens)
            + s.generated_ids@.len() - 1,
{
}

/// A row that was added is found under its identity as it was added, stands
/// last, and can be taken out again without disturbing another.
pub proof fn law_a_row_added_is_found(
    rows: &mut Rows,
    slot: Slot,
    uid: u64,
    found: Option<&Slot>,
    after: &mut Rows,
    taken: Option<Slot>,
)
    requires
        old(rows).wf(),
        call_ensures(Rows::insert, (rows, slot), uid),
        call_ensures(Rows::get, (&*final(rows), uid), found),
        *old(after) == *final(rows),
        call_ensures(Rows::remove, (after, uid), taken),
    ensures
        final(rows)@ == old(rows)@.push(Row { uid, slot }),
        found == Some(&slot),
        taken == Some(slot),
        final(after)@ == old(rows)@,
        final(after).next() > uid,
{
    let n = old(rows)@.len() as int;
    assert(final(rows).at(uid, n));
    assert forall|i: int| final(rows).at(uid, i) implies i == n by {}
    assert(final(rows)@.remove(n) =~= old(rows)@);
}

/// Every row is listed once and in order; those that are ready keep that
/// order among themselves.
pub proof fn law_rows_are_listed_in_order(rows: &Rows, all: Vec<u64>, n: usize, none: bool, i: int)
    requires
        call_ensures(Rows::order, (rows,), all),
        call_ensures(Rows::len, (rows,), n),
        call_ensures(Rows::is_empty, (rows,), none),
        0 <= i < rows@.len(),
    ensures
        all@.len() == rows@.len(),
        all@[i] == rows@[i].uid,
        n == rows@.len(),
        !none,
{
}

/// A row is changed where it stands, and no other is.
pub proof fn law_a_row_is_changed_in_place(rows: &mut Rows, uid: u64, r: Option<&mut Slot>, i: int)
    requires
        call_ensures(Rows::get_mut, (rows, uid), r),
        0 <= i < old(rows)@.len(),
    ensures
        final(rows)@.len() == old(rows)@.len(),
        old(rows)@[i].uid != uid ==> final(rows)@[i] == old(rows)@[i],
        final(rows)@[i].uid == old(rows)@[i].uid,
        r is None ==> old(rows)@[i].uid != uid && final(rows)@ == old(rows)@,
{
    if r is None {
        if old(rows)@[i].uid == uid {
            assert(old(rows).at(uid, i));
        }
    }
}

/// Finished rows leave with one answer each, the others stay as they were,
/// and the blocks that the finished ones held come free.
pub proof fn law_finished_rows_leave(
    rows: &mut Rows,
    budget: &mut BlockBudget,
    replies: Vec<Reply>,
    i: int,
)
    requires
        call_ensures(Rows::flush_finished, (rows, budget), replies),
        0 <= i < old(rows)@.len(),
    ensures
        old(rows)@[i].slot.finish is None ==> final(rows)@.contains(old(rows)@[i]),
        final(rows)@.len() + replies@.len() == old(rows)@.len(),
        forall|k: int| 0 <= k < final(rows)@.len() ==> (#[trigger] final(rows)@[k]).slot.finish is None,
        forall|k: int| 0 <= k < final(rows)@.len() ==> old(rows)@.contains(#[trigger] final(rows)@[k]),
        final(budget).same_limits(old(budget)),
{
    lemma_rows_split(old(rows)@);
    lemma_filter_keeps(old(rows)@, going(), i);
    assert forall|k: int| 0 <= k < final(rows)@.len() implies (#[trigger] final(rows)@[k]).slot.finish is None
        && old(rows)@.contains(final(rows)@[k]) by {
        crate::batch::worker::lemma_filter_from(old(rows)@, going(), k);
    }
}

/// Every row is going or finished, so the two parts make up the table.
proof fn lemma_rows_split(rows: Seq<Row>)
    ensures
        rows.filter(going()).len() + rows.filter(finished()).len() == rows.len(),
    decreases rows.len(),
{
    reveal(Seq::filter);
    if rows.len() > 0 {
        lemma_rows_split(rows.drop_last());
    }
}

/// A row that passes a filter is in what it leaves.
proof fn lemma_filter_keeps(rows: Seq<Row>, f: spec_fn(Row) -> bool, i: int)
    requires
        0 <= i < rows.len(),
    ensures
        f(rows[i]) ==> rows.filter(f).contains(rows[i]),
    decreases rows.len(),
{
    reveal(Seq::filter);
    let rest = rows.drop_last();
    if f(rows[i]) {
        if i == rows.len() - 1 {
            assert(rows.filter(f).last() == rows[i]);
        } else {
            lemma_filter_keeps(rest, f, i);
            assert(rest[i] == rows[i]);
            let k = rest.filter(f).index_of(rows[i]);
            assert(rows.filter(f)[k] == rows[i]);
        }
    }
}

} // verus!
