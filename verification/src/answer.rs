//! What one request is answered, as a function of the request alone.
//!
//! A request served by itself and a request served among others both follow
//! [`answering`]: it names neither caches nor passes nor other requests.
use vstd::prelude::*;
use vstd::utf8::encode_utf8;
use crate::generate::FinishReason;
use crate::stop::{held_back, is_earliest_stop, is_release_point, stop_at};
use crate::text::{lemma_encode_concat, lemma_encode_injective};

verus! {

/// What decides an answer, beside the model: the tokens the prompt is run as,
/// the budget, and what ends the answer early.
pub struct Ask {
    pub run: Seq<usize>,
    pub max_tokens: int,
    pub eos_id: Option<usize>,
    pub stops: Seq<String>,
    pub stop_token_ids: Seq<usize>,
}

impl Ask {
    /// This token ends the answer without being part of it.
    pub open spec fn ends(&self, token: usize) -> bool {
        self.eos_id == Some(token) || self.stop_token_ids.contains(token)
    }
}

/// An answer so far: its tokens, the text that is out, the text that is held
/// back, and how it ended once it has.
pub struct Answer {
    pub ids: Seq<usize>,
    pub shown: Seq<char>,
    pub held: Seq<char>,
    pub finish: Option<FinishReason>,
}

/// What reading the text `all` comes to.
pub struct Reading {
    /// A stop string occurs in it.
    pub matched: bool,
    /// What goes out, and what is held back.
    pub text: Seq<char>,
    pub held: Seq<char>,
}

/// How held-back text and a new piece, together `all`, are read. Where a stop
/// string occurs, what stands before the earliest one goes out. Where none
/// does, everything goes out that no stop string can begin in any more.
pub open spec fn is_reading(stops: Seq<String>, all: Seq<char>, r: Reading) -> bool {
    let bytes = encode_utf8(all);
    if r.matched {
        &&& exists|c: usize|
            #![trigger bytes.subrange(0, c as int)]
            is_earliest_stop(bytes, stops, Some(c)) && encode_utf8(r.text) == bytes.subrange(0, c as int)
        &&& r.held == Seq::<char>::empty()
    } else {
        &&& is_earliest_stop(bytes, stops, None)
        &&& r.text + r.held == all
        &&& is_release_point(bytes, held_back(stops), encode_utf8(r.text).len() as int)
    }
}

/// The one way to read a text.
pub open spec fn reading(stops: Seq<String>, all: Seq<char>) -> Reading {
    choose|r: Reading| is_reading(stops, all, r)
}

/// A text can be read in one way only.
pub proof fn lemma_one_reading(stops: Seq<String>, all: Seq<char>, a: Reading, b: Reading)
    requires
        is_reading(stops, all, a),
        is_reading(stops, all, b),
    ensures
        a == b,
{
    let bytes = encode_utf8(all);
    if a.matched && b.matched {
        let c = choose|c: usize|
            #![trigger bytes.subrange(0, c as int)]
            is_earliest_stop(bytes, stops, Some(c)) && encode_utf8(a.text) == bytes.subrange(0, c as int);
        let d = choose|d: usize|
            #![trigger bytes.subrange(0, d as int)]
            is_earliest_stop(bytes, stops, Some(d)) && encode_utf8(b.text) == bytes.subrange(0, d as int);
        assert(stop_at(bytes, stops, c as int) && stop_at(bytes, stops, d as int));
        lemma_encode_injective(a.text, b.text);
    } else if !a.matched && !b.matched {
        lemma_encode_concat(a.text, a.held);
        lemma_encode_concat(b.text, b.held);
        let cut = encode_utf8(a.text).len() as int;
        assert(encode_utf8(b.text).len() == cut);
        assert(encode_utf8(a.text) =~= bytes.take(cut));
        assert(encode_utf8(b.text) =~= bytes.take(cut));
        lemma_encode_injective(a.text, b.text);
        assert(a.held =~= all.skip(a.text.len() as int));
        assert(b.held =~= all.skip(a.text.len() as int));
    } else {
        let m = if a.matched {
            a
        } else {
            b
        };
        let c = choose|c: usize|
            #![trigger bytes.subrange(0, c as int)]
            is_earliest_stop(bytes, stops, Some(c)) && encode_utf8(m.text) == bytes.subrange(0, c as int);
        assert(stop_at(bytes, stops, c as int));
    }
}

/// How a text was read is how it is read.
pub proof fn lemma_was_read(stops: Seq<String>, all: Seq<char>, r: Reading)
    requires
        is_reading(stops, all, r),
    ensures
        reading(stops, all) == r,
{
    lemma_one_reading(stops, all, reading(stops, all), r);
}

/// The answer one token further on.
pub open spec fn taken(ask: Ask, a: Answer, token: usize, piece: spec_fn(Seq<usize>) -> Seq<char>) -> Answer {
    if ask.ends(token) {
        Answer { finish: Some(FinishReason::Stop), ..a }
    } else {
        let ids = a.ids.push(token);
        let r = reading(ask.stops, a.held + piece(ids));
        Answer {
            ids,
            shown: a.shown + r.text,
            held: r.held,
            finish: if r.matched {
                Some(FinishReason::Stop)
            } else if ids.len() >= ask.max_tokens {
                Some(FinishReason::Length)
            } else {
                None
            },
        }
    }
}

/// What `ask` has been answered after `n` tokens were sampled, or after fewer
/// if it ended before. `next` is the token sampled after everything that was
/// run, `piece` the text that the last token of an answer adds to it.
pub open spec fn answering(
    ask: Ask,
    next: spec_fn(Seq<usize>) -> usize,
    piece: spec_fn(Seq<usize>) -> Seq<char>,
    n: nat,
) -> Answer
    decreases n,
{
    if n == 0 {
        Answer {
            ids: Seq::empty(),
            shown: Seq::empty(),
            held: Seq::empty(),
            finish: if ask.max_tokens > 0 {
                None
            } else {
                Some(FinishReason::Length)
            },
        }
    } else {
        let a = answering(ask, next, piece, (n - 1) as nat);
        if a.finish is Some {
            a
        } else {
            taken(ask, a, next(ask.run + a.ids), piece)
        }
    }
}

/// A request has one answer: however many tokens it takes to come to an end,
/// the end is the same.
pub proof fn law_an_answer_is_final(
    ask: Ask,
    next: spec_fn(Seq<usize>) -> usize,
    piece: spec_fn(Seq<usize>) -> Seq<char>,
    n: nat,
    m: nat,
)
    requires
        answering(ask, next, piece, n).finish is Some,
        answering(ask, next, piece, m).finish is Some,
    ensures
        answering(ask, next, piece, n) == answering(ask, next, piece, m),
{
    if n <= m {
        lemma_ended(ask, next, piece, n, m);
    } else {
        lemma_ended(ask, next, piece, m, n);
    }
}

/// An answer that has ended stays as it is.
proof fn lemma_ended(
    ask: Ask,
    next: spec_fn(Seq<usize>) -> usize,
    piece: spec_fn(Seq<usize>) -> Seq<char>,
    n: nat,
    m: nat,
)
    requires
        answering(ask, next, piece, n).finish is Some,
        n <= m,
    ensures
        answering(ask, next, piece, m) == answering(ask, next, piece, n),
    decreases m,
{
    if n < m {
        lemma_ended(ask, next, piece, n, (m - 1) as nat);
    }
}

/// A request that nothing stops early is answered with exactly its budget of
/// tokens, and ends for its length.
pub proof fn law_an_unstopped_answer_spends_its_budget(
    ask: Ask,
    next: spec_fn(Seq<usize>) -> usize,
    piece: spec_fn(Seq<usize>) -> Seq<char>,
    n: nat,
)
    requires
        ask.max_tokens >= 0,
        ask.eos_id is None,
        ask.stops.len() == 0,
        ask.stop_token_ids.len() == 0,
        answering(ask, next, piece, n).finish is Some,
    ensures
        answering(ask, next, piece, n).ids.len() == ask.max_tokens,
        answering(ask, next, piece, n).finish == Some(FinishReason::Length),
{
    lemma_unstopped(ask, next, piece, n);
}

/// An answer that nothing stops early gets longer by one token at a time.
proof fn lemma_unstopped(
    ask: Ask,
    next: spec_fn(Seq<usize>) -> usize,
    piece: spec_fn(Seq<usize>) -> Seq<char>,
    n: nat,
)
    requires
        ask.max_tokens >= 0,
        ask.eos_id is None,
        ask.stops.len() == 0,
        ask.stop_token_ids.len() == 0,
    ensures
        ({
            let a = answering(ask, next, piece, n);
            &&& a.ids.len() == if n < ask.max_tokens { n as int } else { ask.max_tokens }
            &&& a.finish == if n < ask.max_tokens { None } else { Some(FinishReason::Length) }
        }),
    decreases n,
{
    if n > 0 {
        lemma_unstopped(ask, next, piece, (n - 1) as nat);
        let a = answering(ask, next, piece, (n - 1) as nat);
        if a.finish is None {
            let token = next(ask.run + a.ids);
            assert(!ask.ends(token));
            let all = a.held + piece(a.ids.push(token));
            lemma_nothing_stops(ask.stops, all);
        }
    }
}

/// Without stop strings all text goes out at once.
proof fn lemma_nothing_stops(stops: Seq<String>, all: Seq<char>)
    requires
        stops.len() == 0,
    ensures
        reading(stops, all) == (Reading { matched: false, text: all, held: Seq::empty() }),
{
    let r = Reading { matched: false, text: all, held: Seq::empty() };
    assert(r.text + r.held =~= all);
    vstd::utf8::encode_utf8_valid_utf8(all);
    vstd::utf8::is_char_boundary_start_end_of_seq(encode_utf8(all));
    lemma_was_read(stops, all, r);
}

/// What one more token does to an answer. A token that ends it adds nothing
/// and changes no text. Any other is added to the tokens, and the held-back
/// text and its piece are read: up to the stop string if there is one, which
/// ends the answer; all of it, let go or held back, if there is none, and
/// then only the budget can end the answer.
pub proof fn law_one_token_more(
    ask: Ask,
    a: Answer,
    token: usize,
    piece: spec_fn(Seq<usize>) -> Seq<char>,
    r: Reading,
)
    requires
        is_reading(ask.stops, a.held + piece(a.ids.push(token)), r),
    ensures
        ({
            let b = taken(ask, a, token, piece);
            let ends = ask.eos_id == Some(token) || ask.stop_token_ids.contains(token);
            let all = a.held + piece(a.ids.push(token));
            &&& ends ==> b.ids == a.ids && b.shown == a.shown && b.held == a.held && b.finish == Some(
                FinishReason::Stop,
            )
            &&& !ends ==> b.ids == a.ids.push(token)
            &&& !ends && r.matched ==> b.shown == a.shown + r.text && b.held == Seq::<char>::empty() && b.finish
                == Some(FinishReason::Stop)
            &&& !ends && !r.matched ==> b.shown + b.held == a.shown + all && b.shown == a.shown + r.text
            &&& !ends && !r.matched && a.ids.len() + 1 >= ask.max_tokens ==> b.finish == Some(FinishReason::Length)
            &&& !ends && !r.matched && a.ids.len() + 1 < ask.max_tokens ==> b.finish is None
        }),
{
    let all = a.held + piece(a.ids.push(token));
    lemma_was_read(ask.stops, all, r);
    assert((a.shown + r.text) + r.held =~= a.shown + (r.text + r.held));
}

/// Reading finds a stop string exactly where the text holds one, and gives
/// the text in front of the first one; a text without any is given whole.
pub proof fn law_reading_stops_at_the_first_stop_string(stops: Seq<String>, all: Seq<char>, r: Reading)
    requires
        is_reading(stops, all, r),
    ensures
        forall|k: int, a: Seq<char>, b: Seq<char>|
            0 <= k < stops.len() && stops[k]@.len() > 0 && all == #[trigger] (a + stops[k]@ + b) ==> r.matched
                && encode_utf8(r.text).len() <= encode_utf8(a).len(),
        r.matched ==> exists|k: int, b: Seq<char>|
            0 <= k < stops.len() && stops[k]@.len() > 0 && all == #[trigger] (r.text + stops[k]@ + b),
        !r.matched ==> r.text + r.held == all,
        r.matched ==> r.held == Seq::<char>::empty(),
{
    let bytes = encode_utf8(all);
    if r.matched {
        let c = choose|c: usize|
            #![trigger bytes.subrange(0, c as int)]
            is_earliest_stop(bytes, stops, Some(c)) && encode_utf8(r.text) == bytes.subrange(0, c as int);
        crate::stop::law_a_stop_is_a_stop_string_in_the_text(all, stops, Some(c));
        let (k, a, b) = choose|k: int, a: Seq<char>, b: Seq<char>|
            0 <= k < stops.len() && stops[k]@.len() > 0 && all == #[trigger] (a + stops[k]@ + b) && encode_utf8(a).len()
                == c;
        lemma_encode_concat(a, stops[k]@);
        lemma_encode_concat(a + stops[k]@, b);
        assert(encode_utf8(a) =~= bytes.subrange(0, c as int));
        lemma_encode_injective(a, r.text);
        assert(all == r.text + stops[k]@ + b);
    } else {
        crate::stop::law_a_stop_is_a_stop_string_in_the_text(all, stops, None);
    }
}

/// An answer begins empty and open, unless there is no budget at all; each
/// further token is the one sampled after the prompt and the answer so far,
/// until the answer has ended.
pub proof fn law_an_answer_grows_token_by_token(
    ask: Ask,
    next: spec_fn(Seq<usize>) -> usize,
    piece: spec_fn(Seq<usize>) -> Seq<char>,
    n: nat,
)
    ensures
        ({
            let a = answering(ask, next, piece, 0);
            &&& a.ids.len() == 0 && a.shown.len() == 0 && a.held.len() == 0
            &&& ask.max_tokens > 0 ==> a.finish is None
            &&& ask.max_tokens <= 0 ==> a.finish == Some(FinishReason::Length)
        }),
        ({
            let (a, b) = (answering(ask, next, piece, n), answering(ask, next, piece, n + 1));
            let token = next(ask.run + a.ids);
            &&& a.finish is Some ==> b == a
            &&& a.finish is None ==> b == taken(ask, a, token, piece)
            &&& a.finish is None && ask.eos_id != Some(token) && !ask.stop_token_ids.contains(token) ==> b.ids
                == a.ids.push(token)
            &&& a.finish is None && (ask.eos_id == Some(token) || ask.stop_token_ids.contains(token)) ==> b.ids == a.ids
        }),
{
}

} // verus!
