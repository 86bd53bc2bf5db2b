//! One request from its prompt to its answer: which forward passes are run,
//! at which positions, and what is kept of them.
//!
//! A [`Generation`] holds the prompt and says how it is run; a [`Decoding`]
//! is what it becomes once the prompt has been run. The passes themselves,
//! and the sampler, are the caller's.
use vstd::prelude::*;
use crate::answer::{answering, law_an_answer_is_final, lemma_was_read, Answer, Ask, Reading};
use crate::batch::prefill::run_as;
use crate::generate::{
    emitted, first_bad, in_vocab, plan_prefill, prefill_plan, prepare_prompt, prompt_chunks, stores, stores_prefix,
    tile, with_bos, DecodeError, DecodeLoop, FinishReason, PrefillPlan, PrefixMatch, Usage,
};

verus! {

/// One forward pass over some tokens, the first of them at `from`.
#[derive(Debug)]
pub struct Pass {
    pub from: usize,
    pub tokens: Vec<usize>,
}

/// The tokens of some passes, in order.
pub open spec fn pass_tokens(passes: Seq<Pass>) -> Seq<usize>
    decreases passes.len(),
{
    if passes.len() == 0 {
        Seq::empty()
    } else {
        pass_tokens(passes.drop_last()) + passes.last().tokens@
    }
}

/// Every pass starts where the one before it ended, the first one at `from`,
/// and none is empty.
pub open spec fn consecutive(passes: Seq<Pass>, from: int) -> bool
    decreases passes.len(),
{
    if passes.len() == 0 {
        true
    } else {
        &&& consecutive(passes.drop_last(), from)
        &&& passes.last().from == from + pass_tokens(passes.drop_last()).len()
        &&& passes.last().tokens@.len() > 0
    }
}

/// How a prompt is run.
#[derive(Debug)]
pub struct Prompting {
    pub plan: PrefillPlan,
    /// The passes, in order; the last one's distribution is sampled first.
    pub passes: Vec<Pass>,
}

/// A request whose prompt is known and servable.
#[derive(Debug)]
pub struct Generation {
    tokens: Vec<usize>,
    vocab_size: usize,
    max_tokens: usize,
    pooled: bool,
}

/// The position of the first generated token: an empty prompt runs one
/// stand-in.
pub open spec fn first_position(prompt: Seq<usize>) -> int {
    if prompt.len() == 0 {
        1
    } else {
        prompt.len() as int
    }
}

/// A pass over `tokens[a..b]`, each token at its own position.
fn pass_over(tokens: &[usize], a: usize, b: usize) -> (p: Pass)
    requires
        a <= b <= tokens@.len(),
    ensures
        p.from == a,
        p.tokens@ == tokens@.subrange(a as int, b as int),
{
    let mut part: Vec<usize> = Vec::new();
    for i in a..b
        invariant
            a <= b <= tokens@.len(),
            part@.len() == i - a,
            forall|k: int| 0 <= k < i - a ==> #[trigger] part@[k] == tokens@[a + k],
    {
        part.push(tokens[i]);
    }
    assert(part@ =~= tokens@.subrange(a as int, b as int));
    Pass { from: a, tokens: part }
}

/// One more pass at the end keeps passes consecutive.
proof fn lemma_one_more(before: Seq<Pass>, p: Pass, from: int)
    requires
        consecutive(before, from),
        p.from == from + pass_tokens(before).len(),
        p.tokens@.len() > 0,
    ensures
        consecutive(before.push(p), from),
        pass_tokens(before.push(p)) == pass_tokens(before) + p.tokens@,
{
    assert(before.push(p).drop_last() =~= before);
}

/// Where range `k` of a tiling lies.
proof fn lemma_tile(ranges: Seq<(usize, usize)>, n: int, k: int)
    requires
        tile(ranges, n),
        0 <= k < ranges.len(),
    ensures
        ranges[k].0 < ranges[k].1 <= n,
        k == 0 ==> ranges[k].0 == 0,
        k > 0 ==> ranges[k].0 == ranges[k - 1].1,
        k == ranges.len() - 1 ==> ranges[k].1 == n,
    decreases ranges.len(),
{
    reveal_with_fuel(tile, 2);
    let rest = ranges.drop_last();
    if k < ranges.len() - 1 {
        lemma_tile(rest, ranges.last().0 as int, k);
        assert(rest[k] == ranges[k]);
        if k > 0 {
            assert(rest[k - 1] == ranges[k - 1]);
        }
    } else if k > 0 {
        lemma_tile(rest, ranges.last().0 as int, k - 1);
        assert(rest[k - 1] == ranges[k - 1]);
    } else {
        assert(rest.len() == 0);
    }
}

impl Generation {
    /// The prompt, its beginning-of-sequence token included.
    pub closed spec fn prompt(&self) -> Seq<usize> {
        self.tokens@
    }

    /// How many tokens the model has.
    pub closed spec fn vocab_size(&self) -> usize {
        self.vocab_size
    }

    /// The output budget.
    pub closed spec fn budget(&self) -> int {
        self.max_tokens as int
    }

    /// The caches come out of a shared pool.
    pub closed spec fn pooled(&self) -> bool {
        self.pooled
    }

    /// The prompt is servable, and its positions can be counted.
    pub closed spec fn wf(&self) -> bool {
        &&& in_vocab(self.tokens@, self.vocab_size)
        &&& first_position(self.tokens@) + self.max_tokens <= usize::MAX
    }

    /// Takes an encoded prompt, or refuses the first token the model does not
    /// have.
    pub fn start(
        encoded: Vec<usize>,
        bos: Option<usize>,
        vocab_size: usize,
        max_tokens: usize,
        pooled: bool,
    ) -> (r: Result<Generation, DecodeError>)
        requires
            encoded@.len() + 1 + max_tokens <= usize::MAX,
        ensures
            r is Ok <==> in_vocab(with_bos(encoded@, bos), vocab_size),
            match r {
                Ok(g) => {
                    &&& g.wf()
                    &&& g.prompt() == with_bos(encoded@, bos)
                    &&& g.vocab_size() == vocab_size
                    &&& g.budget() == max_tokens
                    &&& g.pooled() == pooled
                },
                Err(e) => exists|i: int|
                    first_bad(with_bos(encoded@, bos), vocab_size, i) && e == (DecodeError::TokenOutOfVocab {
                        token: with_bos(encoded@, bos)[i],
                        vocab_size,
                    }),
            },
    {
        match prepare_prompt(encoded, bos, vocab_size) {
            Ok(tokens) => Ok(Generation { tokens, vocab_size, max_tokens, pooled }),
            Err(e) => Err(e),
        }
    }

    /// The prompt.
    pub fn tokens(&self) -> (t: &[usize])
        ensures
            t@ == self.prompt(),
    {
        self.tokens.as_slice()
    }

    /// The most positions the request can come to hold: what is taken from
    /// a pool up front, so that decoding never runs out.
    pub fn positions(&self) -> (n: usize)
        requires
            self.wf(),
        ensures
            n == self.prompt().len() + self.budget(),
    {
        self.tokens.len() + self.max_tokens
    }

    /// Whether stored prefixes are consulted: never beside a pool.
    pub fn restores(&self) -> (r: bool)
        ensures
            r == !self.pooled(),
    {
        !self.pooled
    }

    /// How the prompt is run, given the stored prefix that was found. A
    /// prompt run from the start goes in chunks of the size asked for; what
    /// follows a stored prefix goes token by token.
    pub fn prompting(&self, found: Option<PrefixMatch>, chunk: Option<usize>) -> (p: Prompting)
        requires
            self.wf(),
            found is Some ==> found->0.matched_len <= self.prompt().len(),
            chunk is Some ==> chunk->0 > 0,
        ensures
            p.plan == prefill_plan(self.prompt(), self.pooled(), found),
            consecutive(p.passes@, p.plan.kept(self.prompt().len() as int)),
            pass_tokens(p.passes@) == p.plan.runs(self.prompt()),
            p.plan.kept(self.prompt().len() as int) + pass_tokens(p.passes@).len() == first_position(self.prompt()),
            p.plan is Fresh && chunk is None ==> p.passes@.len() == 1,
            p.plan is Fresh && chunk is Some ==> forall|i: int|
                0 <= i < p.passes@.len() ==> (#[trigger] p.passes@[i]).tokens@.len() <= chunk->0,
            p.plan is Fresh && chunk is Some ==> forall|i: int|
                0 <= i < p.passes@.len() - 1 ==> (#[trigger] p.passes@[i]).tokens@.len() == chunk->0,
            p.plan is Suffix ==> forall|i: int|
                0 <= i < p.passes@.len() ==> (#[trigger] p.passes@[i]).tokens@.len() == 1,
    {
        let tokens: &[usize] = self.tokens.as_slice();
        let plan: PrefillPlan = plan_prefill(tokens, self.pooled, found);
        let mut passes: Vec<Pass> = Vec::new();
        match plan {
            PrefillPlan::Pending => {
                assert(pass_tokens(passes@) =~= plan.runs(self.prompt()));
            },
            PrefillPlan::StandIn => {
                let mut stand_in: Vec<usize> = Vec::new();
                stand_in.push(0);
                let p: Pass = Pass { from: 0, tokens: stand_in };
                proof {
                    lemma_one_more(passes@, p, 0);
                }
                passes.push(p);
                assert(pass_tokens(passes@) =~= plan.runs(self.prompt()));
            },
            PrefillPlan::BackOff { to } => {
                let p: Pass = pass_over(tokens, to, to + 1);
                proof {
                    lemma_one_more(passes@, p, to as int);
                }
                passes.push(p);
                assert(pass_tokens(passes@) =~= plan.runs(self.prompt()));
            },
            PrefillPlan::Suffix { from } => {
                assert(pass_tokens(passes@) =~= tokens@.subrange(from as int, from as int));
                for i in from..tokens.len()
                    invariant
                        tokens@ == self.prompt(),
                        from <= tokens@.len(),
                        consecutive(passes@, from as int),
                        pass_tokens(passes@) == tokens@.subrange(from as int, i as int),
                        forall|k: int| 0 <= k < passes@.len() ==> (#[trigger] passes@[k]).tokens@.len() == 1,
                {
                    let p: Pass = pass_over(tokens, i, i + 1);
                    proof {
                        lemma_one_more(passes@, p, from as int);
                        assert(tokens@.subrange(from as int, i as int) + p.tokens@ =~= tokens@.subrange(
                            from as int,
                            i + 1,
                        ));
                    }
                    passes.push(p);
                }
            },
            PrefillPlan::Fresh => {
                let ranges: Vec<(usize, usize)> = prompt_chunks(tokens.len(), chunk);
                assert(pass_tokens(passes@) =~= tokens@.subrange(0, 0));
                let ghost mut done: int = 0;
                for k in 0usize..ranges.len()
                    invariant
                        tokens@ == self.prompt(),
                        tile(ranges@, tokens@.len() as int),
                        chunk is Some ==> forall|i: int|
                            0 <= i < ranges@.len() ==> (#[trigger] ranges@[i]).1 - ranges@[i].0 <= chunk->0,
                        passes@.len() == k,
                        done == if k == 0 { 0 } else { ranges@[k - 1].1 as int },
                        0 <= done <= tokens@.len(),
                        consecutive(passes@, 0),
                        pass_tokens(passes@) == tokens@.subrange(0, done),
                        chunk is Some ==> forall|i: int|
                            0 <= i < ranges@.len() - 1 ==> (#[trigger] ranges@[i]).1 - ranges@[i].0 == chunk->0,
                        chunk is Some ==> forall|i: int|
                            0 <= i < passes@.len() ==> (#[trigger] passes@[i]).tokens@.len() <= chunk->0,
                        chunk is Some ==> forall|i: int|
                            0 <= i < passes@.len() && i < ranges@.len() - 1 ==> (#[trigger] passes@[i]).tokens@.len()
                                == chunk->0,
                {
                    proof {
                        lemma_tile(ranges@, tokens@.len() as int, k as int);
                    }
                    let (a, b): (usize, usize) = ranges[k];
                    let p: Pass = pass_over(tokens, a, b);
                    proof {
                        lemma_one_more(passes@, p, 0);
                        assert(tokens@.subrange(0, done) + p.tokens@ =~= tokens@.subrange(0, b as int));
                        done = b as int;
                    }
                    passes.push(p);
                }
                proof {
                    assert(ranges@.len() > 0);
                    lemma_tile(ranges@, tokens@.len() as int, ranges@.len() - 1);
                    assert(tokens@.subrange(0, tokens@.len() as int) =~= tokens@);
                }
            },
        }
        Prompting { plan, passes }
    }

    /// The prompt has been run: the loop that samples the answer.
    pub fn decoding(self, eos_id: Option<usize>, stop: Vec<String>, stop_token_ids: Vec<usize>) -> (d: Decoding)
        requires
            self.wf(),
        ensures
            d.wf(),
            d.tokens@ == self.prompt(),
            d.vocab_size == self.vocab_size(),
            d.pooled == self.pooled(),
            d.sampling.max_tokens() == self.budget(),
            d.sampling.eos_id() == eos_id,
            d.sampling.pos() == first_position(self.prompt()),
            d.sampling.generated() == Seq::<usize>::empty(),
            d.sampling.stops().stops() == stop@,
            d.sampling.stops().stop_token_ids() == stop_token_ids@,
            d.sampling.stops().pending() == Seq::<char>::empty(),
            d.sampling.finish() is None,
    {
        let first: usize = if self.tokens.len() == 0 {
            1
        } else {
            self.tokens.len()
        };
        let sampling: DecodeLoop = DecodeLoop::new(self.max_tokens, eos_id, first, stop, stop_token_ids);
        Decoding { tokens: self.tokens, vocab_size: self.vocab_size, pooled: self.pooled, sampling }
    }
}

/// A request whose answer is being sampled.
#[derive(Debug)]
pub struct Decoding {
    /// The prompt that was run.
    pub tokens: Vec<usize>,
    /// How many tokens the model has.
    pub vocab_size: usize,
    /// Whether the caches come out of a shared pool.
    pub pooled: bool,
    pub sampling: DecodeLoop,
}

/// What a finished request leaves.
#[derive(Debug)]
pub struct Finished {
    pub finish: FinishReason,
    pub usage: Usage,
    /// Held-back text that is still to be emitted.
    pub tail: String,
    /// The sequence to store with its caches, where it is stored.
    pub stored: Option<Vec<usize>>,
}

impl Decoding {
    /// The loop is sound, and the next token takes the position after
    /// everything that has been run.
    pub open spec fn wf(&self) -> bool {
        &&& self.sampling.wf()
        &&& self.sampling.pos() == first_position(self.tokens@) + self.sampling.generated().len()
    }

    /// Ends the request. With `has_cache` there is somewhere to store its
    /// sequence, and `logits_len` is the length of the last distribution.
    pub fn finish(self, has_cache: bool, logits_len: usize) -> (f: Finished)
        requires
            self.wf(),
        ensures
            f.finish == (match self.sampling.finish() {
                Some(r) => r,
                None => FinishReason::Length,
            }),
            f.usage.prompt_tokens == self.tokens@.len(),
            f.usage.completion_tokens == self.sampling.generated().len(),
            f.usage.total_tokens == self.tokens@.len() + self.sampling.generated().len(),
            f.tail@ == self.sampling.stops().pending(),
            f.stored is Some <==> stores(self.pooled, has_cache, logits_len, self.vocab_size),
            f.stored is Some ==> f.stored->0@ == self.tokens@ + self.sampling.generated(),
    {
        let prompt_tokens: usize = self.tokens.len();
        let ghost prompt = self.tokens@;
        let ghost generated = self.sampling.generated();
        proof {
            self.sampling.lemma_positions_exist();
        }
        let (finish, ids, tail) = self.sampling.end();
        let usage: Usage = Usage::new(prompt_tokens, ids.len());
        let stored: Option<Vec<usize>> = if stores_prefix(self.pooled, has_cache, logits_len, self.vocab_size) {
            let mut all: Vec<usize> = self.tokens;
            for i in 0usize..ids.len()
                invariant
                    ids@ == generated,
                    all@ == prompt + ids@.take(i as int),
            {
                all.push(ids[i]);
                assert(prompt + ids@.take(i + 1) =~= (prompt + ids@.take(i as int)).push(ids@[i as int]));
            }
            assert(ids@.take(ids@.len() as int) =~= ids@);
            Some(all)
        } else {
            None
        };
        Finished { finish, usage, tail, stored }
    }
}

/// Every position of a request is run exactly once and with its own token:
/// what was restored, then the passes over the prompt, then the generated
/// tokens one by one are together the prompt followed by the answer.
pub proof fn law_a_request_runs_its_sequence(
    prompt: Seq<usize>,
    pooled: bool,
    found: Option<PrefixMatch>,
    passes: Seq<Pass>,
    generated: Seq<usize>,
)
    requires
        prompt.len() > 0,
        found is Some ==> found->0.matched_len <= prompt.len(),
        pass_tokens(passes) == prefill_plan(prompt, pooled, found).runs(prompt),
    ensures
        prompt.take(prefill_plan(prompt, pooled, found).kept(prompt.len() as int)) + pass_tokens(passes) + generated
            == prompt + generated,
{
    crate::generate::law_every_position_is_filled_once(prompt, pooled, found);
    let kept = prefill_plan(prompt, pooled, found).kept(prompt.len() as int);
    assert(prompt.take(kept) =~= prompt.subrange(0, kept));
}

/// What the caches hold once a prompt has been run: what was restored of it,
/// then the tokens of the passes.
pub open spec fn held_after(prompt: Seq<usize>, plan: PrefillPlan, passes: Seq<Pass>) -> Seq<usize> {
    prompt.take(plan.kept(prompt.len() as int)) + pass_tokens(passes)
}

/// One turn of an answer: the loop once its token was taken, the loop once
/// the token's text was read, and what was emitted.
pub struct Turn {
    pub at: Option<usize>,
    pub taken: DecodeLoop,
    pub read: DecodeLoop,
    pub emitted: Option<String>,
}

/// A loop takes one turn from `before`. The token is the one that `next`
/// gives for the tokens the caches hold, the prompt's `held` and those
/// generated since; its text is the one that `piece` gives for the answer so
/// far.
pub open spec fn is_turn(
    before: DecodeLoop,
    turn: Turn,
    held: Seq<usize>,
    next: spec_fn(Seq<usize>) -> usize,
    piece: spec_fn(Seq<usize>) -> Seq<char>,
) -> bool {
    let token = next(held + before.generated());
    &&& before.goes_on()
    &&& before.takes(token, turn.at, turn.taken)
    &&& if before.ends(token) {
        turn.read == turn.taken && turn.emitted is None
    } else {
        turn.taken.reads(piece(turn.taken.generated()), turn.emitted, turn.read)
    }
}

/// The loop after `k` turns.
pub open spec fn reached(start: DecodeLoop, turns: Seq<Turn>, k: int) -> DecodeLoop {
    if k == 0 {
        start
    } else {
        turns[k - 1].read
    }
}

/// The turns of one answer, from the first to the last.
pub open spec fn is_answer(
    start: DecodeLoop,
    turns: Seq<Turn>,
    held: Seq<usize>,
    next: spec_fn(Seq<usize>) -> usize,
    piece: spec_fn(Seq<usize>) -> Seq<char>,
) -> bool {
    &&& forall|k: int|
        0 <= k < turns.len() ==> is_turn(reached(start, turns, k), #[trigger] turns[k], held, next, piece)
    &&& !reached(start, turns, turns.len() as int).goes_on()
}

/// The text that some turns emitted.
pub open spec fn said(turns: Seq<Turn>) -> Seq<char>
    decreases turns.len(),
{
    if turns.len() == 0 {
        Seq::empty()
    } else {
        said(turns.drop_last()) + emitted(turns.last().emitted)
    }
}

/// What a loop is asked, over a prompt run as `run`.
pub open spec fn asked(start: DecodeLoop, run: Seq<usize>) -> Ask {
    Ask {
        run,
        max_tokens: start.max_tokens(),
        eos_id: start.eos_id(),
        stops: start.stops().stops(),
        stop_token_ids: start.stops().stop_token_ids(),
    }
}

/// How a loop that samples no more has ended.
pub open spec fn outcome(l: DecodeLoop) -> Option<FinishReason> {
    if l.goes_on() {
        None
    } else if l.finish() is Some {
        l.finish()
    } else {
        Some(FinishReason::Length)
    }
}

/// A loop that has sampled nothing and shown nothing.
pub open spec fn is_new(l: DecodeLoop) -> bool {
    &&& l.generated() == Seq::<usize>::empty()
    &&& l.stops().pending() == Seq::<char>::empty()
    &&& l.finish() is None
}

/// After `k` turns a loop stands where the answer alone stands.
proof fn lemma_turns_follow(
    start: DecodeLoop,
    turns: Seq<Turn>,
    held: Seq<usize>,
    next: spec_fn(Seq<usize>) -> usize,
    piece: spec_fn(Seq<usize>) -> Seq<char>,
    k: int,
)
    requires
        is_new(start),
        is_answer(start, turns, held, next, piece),
        0 <= k <= turns.len(),
    ensures
        ({
            let l = reached(start, turns, k);
            asked(l, held) == asked(start, held) && answering(asked(start, held), next, piece, k as nat) == (Answer {
                ids: l.generated(),
                shown: said(turns.take(k)),
                held: l.stops().pending(),
                finish: outcome(l),
            })
        }),
    decreases k,
{
    let ask = asked(start, held);
    if k > 0 {
        lemma_turns_follow(start, turns, held, next, piece, k - 1);
        let turn = turns[k - 1];
        let before = reached(start, turns, k - 1);
        assert(is_turn(before, turn, held, next, piece));
        let token = next(held + before.generated());
        assert(ask.ends(token) == before.ends(token));
        assert(turns.take(k).drop_last() =~= turns.take(k - 1));
        if !before.ends(token) {
            lemma_was_read(
                ask.stops,
                before.stops().pending() + piece(turn.taken.generated()),
                Reading {
                    matched: turn.read.finish() is Some,
                    text: emitted(turn.emitted),
                    held: turn.read.stops().pending(),
                },
            );
        } else {
            assert(said(turns.take(k)) =~= said(turns.take(k - 1)));
        }
    } else {
        assert(turns.take(0) =~= Seq::empty());
    }
}

/// A request is answered as a function of itself alone. Where a distribution
/// depends only on the tokens that the caches hold (`next` is what is sampled
/// from it, `piece` how the answer reads), the tokens, the text and the reason
/// of the end are those of [`answering`], however much of the prompt was
/// restored, in whatever passes the rest was run, and beside a pool or not.
pub proof fn law_a_request_is_answered_by_itself(
    prompt: Seq<usize>,
    pooled: bool,
    found: Option<PrefixMatch>,
    passes: Seq<Pass>,
    start: DecodeLoop,
    turns: Seq<Turn>,
    next: spec_fn(Seq<usize>) -> usize,
    piece: spec_fn(Seq<usize>) -> Seq<char>,
)
    requires
        found is Some ==> found->0.matched_len <= prompt.len(),
        pass_tokens(passes) == prefill_plan(prompt, pooled, found).runs(prompt),
        is_new(start),
        is_answer(start, turns, held_after(prompt, prefill_plan(prompt, pooled, found), passes), next, piece),
    ensures
        ({
            let l = reached(start, turns, turns.len() as int);
            let a = answering(asked(start, run_as(prompt)), next, piece, turns.len());
            &&& a.finish is Some
            &&& a.ids == l.generated()
            &&& a.shown == said(turns)
            &&& a.held == l.stops().pending()
            &&& a.finish == outcome(l)
        }),
{
    let held = held_after(prompt, prefill_plan(prompt, pooled, found), passes);
    if prompt.len() > 0 {
        law_a_request_runs_its_sequence(prompt, pooled, found, passes, Seq::empty());
        assert(held + Seq::<usize>::empty() =~= held);
        assert(prompt + Seq::<usize>::empty() =~= prompt);
    } else {
        assert(held =~= seq![0usize]);
    }
    lemma_turns_follow(start, turns, held, next, piece, turns.len() as int);
    assert(turns.take(turns.len() as int) =~= turns);
}

/// A restored prefix changes no token: a prompt whose prefix was restored and
/// the same prompt without it are answered with the same tokens and the same
/// text, and end for the same reason.
pub proof fn law_a_restored_prefix_changes_no_token(
    prompt: Seq<usize>,
    found: PrefixMatch,
    passes: Seq<Pass>,
    start: DecodeLoop,
    turns: Seq<Turn>,
    fresh_passes: Seq<Pass>,
    fresh_start: DecodeLoop,
    fresh_turns: Seq<Turn>,
    next: spec_fn(Seq<usize>) -> usize,
    piece: spec_fn(Seq<usize>) -> Seq<char>,
)
    requires
        found.matched_len <= prompt.len(),
        pass_tokens(passes) == prefill_plan(prompt, false, Some(found)).runs(prompt),
        pass_tokens(fresh_passes) == prefill_plan(prompt, false, None).runs(prompt),
        is_new(start),
        is_new(fresh_start),
        asked(start, run_as(prompt)) == asked(fresh_start, run_as(prompt)),
        is_answer(start, turns, held_after(prompt, prefill_plan(prompt, false, Some(found)), passes), next, piece),
        is_answer(
            fresh_start,
            fresh_turns,
            held_after(prompt, prefill_plan(prompt, false, None), fresh_passes),
            next,
            piece,
        ),
    ensures
        ({
            let l = reached(start, turns, turns.len() as int);
            let fresh = reached(fresh_start, fresh_turns, fresh_turns.len() as int);
            &&& l.generated() == fresh.generated()
            &&& said(turns) + l.stops().pending() == said(fresh_turns) + fresh.stops().pending()
            &&& outcome(l) == outcome(fresh)
        }),
{
    law_a_request_is_answered_by_itself(prompt, false, Some(found), passes, start, turns, next, piece);
    law_a_request_is_answered_by_itself(prompt, false, None, fresh_passes, fresh_start, fresh_turns, next, piece);
    law_an_answer_is_final(asked(start, run_as(prompt)), next, piece, turns.len(), fresh_turns.len());
}

/// The first generated token takes the position behind the prompt, and behind
/// the stand-in of an empty one.
pub proof fn law_the_answer_starts_behind_the_prompt(prompt: Seq<usize>)
    ensures
        prompt.len() > 0 ==> first_position(prompt) == prompt.len(),
        prompt.len() == 0 ==> first_position(prompt) == 1,
        first_position(prompt) == run_as(prompt).len(),
{
}

/// Consecutive passes run every token at its own position: token `j` of pass
/// `i` is the one that many places behind the first, and no pass is empty.
pub proof fn law_a_pass_runs_at_its_place(passes: Seq<Pass>, from: int, i: int, j: int)
    requires
        consecutive(passes, from),
        0 <= i < passes.len(),
        0 <= j < passes[i].tokens@.len(),
    ensures
        passes[i].from >= from,
        passes[i].from - from + j < pass_tokens(passes).len(),
        pass_tokens(passes)[passes[i].from - from + j] == passes[i].tokens@[j],
        i > 0 ==> passes[i].from == passes[i - 1].from + passes[i - 1].tokens@.len(),
        passes[0].from == from,
        passes[i].tokens@.len() > 0,
    decreases passes.len(),
{
    let rest = passes.drop_last();
    if i < rest.len() {
        assert(rest[i] == passes[i]);
        law_a_pass_runs_at_its_place(rest, from, i, j);
        if i > 0 {
            assert(rest[i - 1] == passes[i - 1]);
        }
        assert(rest[0] == passes[0]);
    } else if rest.len() > 0 {
        reveal_with_fuel(consecutive, 2);
        reveal_with_fuel(pass_tokens, 2);
        let last = rest.last();
        assert(last.tokens@.len() > 0);
        law_a_pass_runs_at_its_place(rest, from, rest.len() - 1, 0);
        assert(rest[rest.len() - 1] == passes[i - 1]);
        assert(rest[0] == passes[0]);
        assert(pass_tokens(rest) == pass_tokens(rest.drop_last()) + last.tokens@);
    } else {
        assert(pass_tokens(rest).len() == 0);
    }
}

/// A request is carried through its stages unchanged: what is decoded is the
/// prompt that was made ready, under the limits that were asked for, and what
/// is reported counts the prompt and the answer.
pub proof fn law_a_request_is_carried_through(
    encoded: Vec<usize>,
    bos: Option<usize>,
    vocab: usize,
    max_tokens: usize,
    pooled: bool,
    g: Generation,
    eos: Option<usize>,
    stop: Vec<String>,
    ids: Vec<usize>,
    d: Decoding,
    has_cache: bool,
    logits_len: usize,
    f: Finished,
)
    requires
        call_ensures(
            Generation::start,
            (encoded, bos, vocab, max_tokens, pooled),
            Ok::<Generation, DecodeError>(g),
        ),
        call_ensures(Generation::decoding, (g, eos, stop, ids), d),
        call_ensures(Decoding::finish, (d, has_cache, logits_len), f),
    ensures
        bos is None ==> d.tokens@ == encoded@,
        bos is Some ==> d.tokens@.len() > 0 && d.tokens@[0] == bos->0,
        bos is Some && encoded@.len() > 0 && encoded@[0] == bos->0 ==> d.tokens@ == encoded@,
        bos is Some && (encoded@.len() == 0 || encoded@[0] != bos->0) ==> d.tokens@ == seq![bos->0] + encoded@,
        forall|i: int| 0 <= i < d.tokens@.len() ==> (#[trigger] d.tokens@[i]) < vocab,
        d.sampling.max_tokens() == max_tokens,
        d.sampling.eos_id() == eos,
        d.sampling.stops().stops() == stop@,
        d.sampling.stops().stop_token_ids() == ids@,
        d.sampling.generated().len() == 0 && d.sampling.finish() is None,
        d.tokens@.len() > 0 ==> d.sampling.pos() == d.tokens@.len(),
        f.finish == FinishReason::Length,
        f.usage.prompt_tokens == d.tokens@.len(),
        f.usage.completion_tokens == 0,
        f.usage.total_tokens == d.tokens@.len(),
        f.stored is Some <==> !pooled && has_cache && logits_len == vocab,
        f.stored is Some ==> f.stored->0@ == d.tokens@,
{
    assert(d.tokens@ + d.sampling.generated() =~= d.tokens@);
}

/// An answer is reported whole: its tokens are counted behind the prompt's,
/// its reason is the loop's own, and what is stored is prompt and answer.
pub proof fn law_an_answer_is_reported_whole(d: Decoding, has_cache: bool, logits_len: usize, f: Finished)
    requires
        call_ensures(Decoding::finish, (d, has_cache, logits_len), f),
    ensures
        f.usage.prompt_tokens == d.tokens@.len(),
        f.usage.completion_tokens == d.sampling.generated().len(),
        f.usage.total_tokens == f.usage.prompt_tokens + f.usage.completion_tokens,
        d.sampling.finish() is Some ==> f.finish == d.sampling.finish()->0,
        d.sampling.finish() is None ==> f.finish == FinishReason::Length,
        f.tail@ == d.sampling.stops().pending(),
        f.stored is Some <==> !d.pooled && has_cache && logits_len == d.vocab_size,
        f.stored is Some ==> f.stored->0@ == d.tokens@ + d.sampling.generated(),
{
}

/// A request asks for its prompt and its whole budget, and looks for a stored
/// prefix only outside a shared pool.
pub proof fn law_what_a_request_asks_for(g: &Generation, t: &[usize], n: usize, r: bool)
    requires
        call_ensures(Generation::tokens, (g,), t),
        call_ensures(Generation::positions, (g,), n),
        call_ensures(Generation::restores, (g,), r),
    ensures
        t@ == g.prompt(),
        n == t@.len() + g.budget(),
        r <==> !g.pooled(),
{
}

/// A fresh prompt is run whole and in order, in chunks of the asked size.
pub proof fn law_a_fresh_prompt_is_run_whole(g: &Generation, chunk: Option<usize>, p: Prompting)
    requires
        call_ensures(Generation::prompting, (g, None::<PrefixMatch>, chunk), p),
        g.prompt().len() > 0,
    ensures
        pass_tokens(p.passes@) == g.prompt(),
        consecutive(p.passes@, 0),
        chunk is None ==> p.passes@.len() == 1,
        chunk is Some ==> forall|i: int|
            0 <= i < p.passes@.len() - 1 ==> (#[trigger] p.passes@[i]).tokens@.len() == chunk->0,
        chunk is Some ==> forall|i: int|
            0 <= i < p.passes@.len() ==> (#[trigger] p.passes@[i]).tokens@.len() <= chunk->0,
{
}

} // verus!
