//! Where an answer ends: stop tokens and stop strings.
//!
//! A stop string can span more than one generated token, so text is not
//! exposed as soon as it is decoded: the last bytes that could still turn
//! out to begin a stop string are held back until they are known not to.
use vstd::prelude::*;
use vstd::string::{StringExecFns, StringSliceAdditionalSpecFns};
use vstd::utf8::{encode_utf8, encode_utf8_valid_utf8, is_char_boundary, is_char_boundary_start_end_of_seq};
use crate::text::{
    find_bytes, floor_char_boundary, lemma_encode_concat, lemma_match_is_boundary, occurs, occurs_at, split_text,
};

verus! {

/// Some non-empty stop string occurs in `text` at byte `i`.
pub open spec fn stop_at(text: Seq<u8>, stops: Seq<String>, i: int) -> bool {
    exists|k: int|
        0 <= k < stops.len() && (#[trigger] stops[k])@.len() > 0 && occurs_at(text, encode_utf8(stops[k]@), i)
}

/// `r` is the first byte at which any stop string begins, if any does.
pub open spec fn is_earliest_stop(text: Seq<u8>, stops: Seq<String>, r: Option<usize>) -> bool {
    match r {
        Some(c) => stop_at(text, stops, c as int) && forall|i: int| i < c ==> !stop_at(text, stops, i),
        None => forall|i: int| !stop_at(text, stops, i),
    }
}

/// The earliest byte offset in `text` at which any of `stops` begins, or
/// `None` if none match yet.
pub fn earliest_stop_match(text: &str, stops: &[String]) -> (r: Option<usize>)
    ensures
        is_earliest_stop(text.spec_bytes(), stops@, r),
{
    let mut best: Option<usize> = None;
    for k in 0usize..stops.len()
        invariant
            is_earliest_stop(text.spec_bytes(), stops@.take(k as int), best),
    {
        let ghost t = text.spec_bytes();
        let ghost prev = stops@.take(k as int);
        let ghost next = stops@.take(k + 1);
        proof {
            assert forall|i: int| stop_at(t, prev, i) implies stop_at(t, next, i) by {
                let m = choose|m: int|
                    0 <= m < prev.len() && (#[trigger] prev[m])@.len() > 0 && occurs_at(t, encode_utf8(prev[m]@), i);
                assert(next[m] == prev[m]);
            }
            assert forall|i: int|
                #![trigger stop_at(t, next, i)]
                stop_at(t, next, i) implies stop_at(t, prev, i) || (stops@[k as int]@.len() > 0 && occurs_at(
                t,
                encode_utf8(stops@[k as int]@),
                i,
            )) by {
                let m = choose|m: int|
                    0 <= m < next.len() && (#[trigger] next[m])@.len() > 0 && occurs_at(t, encode_utf8(next[m]@), i);
                if m < k {
                    assert(prev[m] == next[m]);
                }
            }
        }
        let stop: &str = stops[k].as_str();
        if !stop.is_empty() {
            match find_bytes(text.as_bytes(), stop.as_bytes()) {
                Some(i) => {
                    proof {
                        assert(next[k as int]@ == stop@);
                        assert(stop_at(t, next, i as int));
                    }
                    match best {
                        Some(b) => {
                            if i < b {
                                best = Some(i);
                            }
                        },
                        None => {
                            best = Some(i);
                        },
                    }
                },
                None => {},
            }
        }
    }
    assert(stops@.take(stops@.len() as int) =~= stops@);
    best
}

/// The length in bytes of the longest stop string.
pub open spec fn longest(stops: Seq<String>) -> int
    decreases stops.len(),
{
    if stops.len() == 0 {
        0
    } else {
        let rest = longest(stops.drop_last());
        let last = encode_utf8(stops.last()@).len() as int;
        if last > rest {
            last
        } else {
            rest
        }
    }
}

/// How many bytes have to be held back: one short of the longest stop.
pub open spec fn held_back(stops: Seq<String>) -> int {
    if longest(stops) > 0 {
        longest(stops) - 1
    } else {
        0
    }
}

/// No stop string is longer than the longest.
pub proof fn lemma_longest(stops: Seq<String>, k: int)
    requires
        0 <= k < stops.len(),
    ensures
        encode_utf8(stops[k]@).len() <= longest(stops),
    decreases stops.len(),
{
    if k < stops.len() - 1 {
        lemma_longest(stops.drop_last(), k);
        assert(stops.drop_last()[k] == stops[k]);
    }
}

/// What came of feeding one more piece of text.
#[derive(Clone, Debug)]
pub enum StopStep {
    /// No stop yet; this much text is safe to expose.
    Emit(String),
    /// A stop string began right after this text.
    Matched(String),
}

/// Both stop layers of one generation: token ids that end it, and strings
/// that end it wherever their pieces fall.
#[derive(Debug)]
pub struct StopMatcher {
    stops: Vec<String>,
    stop_token_ids: Vec<usize>,
    hold_back: usize,
    pending: String,
}

impl StopMatcher {
    /// The stop strings.
    pub closed spec fn stops(&self) -> Seq<String> {
        self.stops@
    }

    /// The stop token ids.
    pub closed spec fn stop_token_ids(&self) -> Seq<usize> {
        self.stop_token_ids@
    }

    /// The text held back so far.
    pub closed spec fn pending(&self) -> Seq<char> {
        self.pending@
    }

    /// The hold-back is the one the stop strings call for.
    pub closed spec fn wf(&self) -> bool {
        self.hold_back == held_back(self.stops@)
    }

    /// A matcher with nothing held back.
    pub fn new(stops: Vec<String>, stop_token_ids: Vec<usize>) -> (m: StopMatcher)
        ensures
            m.wf(),
            m.stops() == stops@,
            m.stop_token_ids() == stop_token_ids@,
            m.pending() == Seq::<char>::empty(),
    {
        let mut max: usize = 0;
        assert(stops@.take(0) =~= Seq::empty());
        for k in 0usize..stops.len()
            invariant
                max == longest(stops@.take(k as int)),
        {
            let len: usize = stops[k].as_str().as_bytes().len();
            proof {
                assert(stops@.take(k + 1).drop_last() =~= stops@.take(k as int));
                assert(stops@.take(k + 1).last() == stops@[k as int]);
            }
            if len > max {
                max = len;
            }
        }
        assert(stops@.take(stops@.len() as int) =~= stops@);
        let hold_back: usize = if max > 0 {
            max - 1
        } else {
            0
        };
        StopMatcher { stops, stop_token_ids, hold_back, pending: String::new() }
    }

    /// Whether this token ends the answer without being part of it.
    pub fn is_stop_token(&self, id: usize) -> (r: bool)
        ensures
            r == self.stop_token_ids().contains(id),
    {
        for k in 0usize..self.stop_token_ids.len()
            invariant
                forall|i: int| 0 <= i < k ==> self.stop_token_ids@[i] != id,
        {
            if self.stop_token_ids[k] == id {
                return true;
            }
        }
        false
    }

    /// Feeds one more piece of text. A stop that now matches ends the
    /// answer right before it; otherwise everything but the held-back tail
    /// is released, cut at a character boundary.
    pub fn push(&mut self, piece: &str) -> (r: StopStep)
        requires
            old(self).wf(),
        ensures
            final(self).wf(),
            final(self).stops() == old(self).stops(),
            final(self).stop_token_ids() == old(self).stop_token_ids(),
            ({
                let all = old(self).pending() + piece@;
                let bytes = encode_utf8(all);
                match r {
                    StopStep::Matched(text) => {
                        &&& exists|c: usize|
                            #![trigger bytes.subrange(0, c as int)]
                            is_earliest_stop(bytes, old(self).stops(), Some(c)) && encode_utf8(text@)
                                == bytes.subrange(0, c as int)
                        &&& final(self).pending() == Seq::<char>::empty()
                    },
                    StopStep::Emit(text) => {
                        &&& is_earliest_stop(bytes, old(self).stops(), None)
                        &&& text@ + final(self).pending() == all
                        &&& is_release_point(bytes, held_back(old(self).stops()), encode_utf8(text@).len() as int)
                    },
                }
            }),
    {
        self.pending.append(piece);
        let ghost all = old(self).pending() + piece@;
        let ghost bytes = encode_utf8(all);
        assert(self.pending@ == all);
        let found: Option<usize> = earliest_stop_match(self.pending.as_str(), self.stops.as_slice());
        let mut taken: String = String::new();
        std::mem::swap(&mut taken, &mut self.pending);
        match found {
            Some(cut) => {
                proof {
                    let k = choose|k: int|
                        0 <= k < self.stops@.len() && (#[trigger] self.stops@[k])@.len() > 0 && occurs_at(
                            bytes,
                            encode_utf8(self.stops@[k]@),
                            cut as int,
                        );
                    lemma_match_is_boundary(all, self.stops@[k]@, cut as int);
                }
                let (text, _rest): (String, String) = split_text(taken, cut);
                assert(encode_utf8(text@) == bytes.subrange(0, cut as int));
                StopStep::Matched(text)
            },
            None => {
                let len: usize = taken.as_str().as_bytes().len();
                if len > self.hold_back {
                    let cut: usize = floor_char_boundary(taken.as_str(), len - self.hold_back);
                    let (text, rest): (String, String) = split_text(taken, cut);
                    self.pending = rest;
                    assert(encode_utf8(text@).len() == cut);
                    StopStep::Emit(text)
                } else {
                    self.pending = taken;
                    let text: String = String::new();
                    proof {
                        assert(text@ + self.pending@ =~= all);
                        assert(encode_utf8(text@).len() == 0);
                        encode_utf8_valid_utf8(all);
                        is_char_boundary_start_end_of_seq(bytes);
                    }
                    StopStep::Emit(text)
                }
            },
        }
    }

    /// Gives back the held-back text: withheld against a stop that never
    /// arrived, it is ordinary output.
    pub fn flush(&mut self) -> (tail: String)
        requires
            old(self).wf(),
        ensures
            final(self).wf(),
            final(self).stops() == old(self).stops(),
            final(self).stop_token_ids() == old(self).stop_token_ids(),
            tail@ == old(self).pending(),
            final(self).pending() == Seq::<char>::empty(),
    {
        let mut tail: String = String::new();
        std::mem::swap(&mut tail, &mut self.pending);
        tail
    }
}

/// `cut` is the last character boundary that leaves at least `hold` bytes
/// behind it; nothing is released while there are no more bytes than that.
pub open spec fn is_release_point(bytes: Seq<u8>, hold: int, cut: int) -> bool {
    if bytes.len() > hold {
        &&& 0 <= cut <= bytes.len() - hold
        &&& is_char_boundary(bytes, cut)
        &&& forall|k: int| cut < k <= bytes.len() - hold ==> !is_char_boundary(bytes, k)
    } else {
        cut == 0
    }
}

/// What holds between pieces: no stop string occurs in the text so far,
/// and once anything has been released the held-back tail is long enough.
pub open spec fn stream_inv(stops: Seq<String>, released: Seq<char>, pending: Seq<char>) -> bool {
    &&& forall|i: int| !stop_at(encode_utf8(released + pending), stops, i)
    &&& released.len() == 0 || encode_utf8(pending).len() >= held_back(stops)
}

/// An occurrence behind a prefix is an occurrence in what follows it.
proof fn lemma_occurs_shift(a: Seq<u8>, b: Seq<u8>, pat: Seq<u8>, i: int)
    requires
        0 <= i,
    ensures
        occurs_at(a + b, pat, a.len() + i) == occurs_at(b, pat, i),
{
    if i + pat.len() <= b.len() {
        assert((a + b).subrange(a.len() + i, a.len() + i + pat.len()) =~= b.subrange(i, i + pat.len()));
    }
}

/// An occurrence within a prefix does not depend on what follows it.
proof fn lemma_occurs_prefix(a: Seq<u8>, b: Seq<u8>, pat: Seq<u8>, i: int)
    requires
        i + pat.len() <= a.len(),
    ensures
        occurs_at(a + b, pat, i) == occurs_at(a, pat, i),
{
    if 0 <= i {
        assert((a + b).subrange(i, i + pat.len()) =~= a.subrange(i, i + pat.len()));
    }
}

proof fn lemma_stop_shift(a: Seq<u8>, b: Seq<u8>, stops: Seq<String>, i: int)
    requires
        0 <= i,
    ensures
        stop_at(a + b, stops, a.len() + i) == stop_at(b, stops, i),
{
    if stop_at(a + b, stops, a.len() + i) {
        let k = choose|k: int|
            0 <= k < stops.len() && (#[trigger] stops[k])@.len() > 0 && occurs_at(
                a + b,
                encode_utf8(stops[k]@),
                a.len() + i,
            );
        lemma_occurs_shift(a, b, encode_utf8(stops[k]@), i);
    }
    if stop_at(b, stops, i) {
        let k = choose|k: int|
            0 <= k < stops.len() && (#[trigger] stops[k])@.len() > 0 && occurs_at(b, encode_utf8(stops[k]@), i);
        lemma_occurs_shift(a, b, encode_utf8(stops[k]@), i);
    }
}

/// No stop can begin in text that was already released.
proof fn lemma_no_stop_in_released(
    stops: Seq<String>,
    released: Seq<char>,
    pending: Seq<char>,
    piece: Seq<char>,
    i: int,
)
    requires
        stream_inv(stops, released, pending),
        i < encode_utf8(released).len(),
    ensures
        !stop_at(encode_utf8(released + pending + piece), stops, i),
{
    let (r, p, n) = (encode_utf8(released), encode_utf8(pending), encode_utf8(piece));
    lemma_encode_concat(released, pending);
    lemma_encode_concat(released + pending, piece);
    let whole = encode_utf8(released + pending + piece);
    assert(whole == (r + p) + n);
    if stop_at(whole, stops, i) {
        let k = choose|k: int|
            0 <= k < stops.len() && (#[trigger] stops[k])@.len() > 0 && occurs_at(whole, encode_utf8(stops[k]@), i);
        let pat = encode_utf8(stops[k]@);
        lemma_longest(stops, k);
        assert(released.len() > 0) by {
            if released.len() == 0 {
                assert(released =~= Seq::empty());
                assert(r.len() == 0);
            }
        }
        assert(i + pat.len() <= (r + p).len());
        lemma_occurs_prefix(r + p, n, pat, i);
        assert(stop_at(r + p, stops, i));
        assert(false);
    }
}

/// Looking only at the held-back text finds the stop that looking at the
/// whole answer would find: a stop string is recognised however its bytes
/// are spread over the pieces, and nothing before it is cut off.
pub proof fn law_buffering_finds_the_earliest_stop(
    stops: Seq<String>,
    released: Seq<char>,
    pending: Seq<char>,
    piece: Seq<char>,
    r: Option<usize>,
)
    requires
        stream_inv(stops, released, pending),
        is_earliest_stop(encode_utf8(pending + piece), stops, r),
    ensures
        ({
            let whole = encode_utf8(released + pending + piece);
            let before = encode_utf8(released).len();
            match r {
                Some(c) => stop_at(whole, stops, before + c) && forall|i: int|
                    i < before + c ==> !stop_at(whole, stops, i),
                None => forall|i: int| !stop_at(whole, stops, i),
            }
        }),
{
    let whole = encode_utf8(released + pending + piece);
    let a = encode_utf8(released);
    let b = encode_utf8(pending + piece);
    assert(released + pending + piece =~= released + (pending + piece));
    lemma_encode_concat(released, pending + piece);
    assert(whole == a + b);
    assert forall|i: int| i < a.len() implies !stop_at(whole, stops, i) by {
        lemma_no_stop_in_released(stops, released, pending, piece, i);
    }
    assert forall|i: int| i >= a.len() && !stop_at(b, stops, i - a.len()) implies !stop_at(whole, stops, i) by {
        lemma_stop_shift(a, b, stops, i - a.len());
        assert(a.len() + (i - a.len()) == i);
    }
    match r {
        Some(c) => {
            lemma_stop_shift(a, b, stops, c as int);
            assert forall|i: int| i < a.len() + c implies !stop_at(whole, stops, i) by {
                if i >= a.len() {
                    assert(!stop_at(b, stops, i - a.len()));
                }
            }
        },
        None => {
            assert forall|i: int| !stop_at(whole, stops, i) by {
                if i >= a.len() {
                    assert(!stop_at(b, stops, i - a.len()));
                }
            }
        },
    }
}

/// Releasing text keeps what the next piece relies on, and moves text from
/// the held-back side to the released side without losing any of it.
pub proof fn law_release_keeps_the_stream(
    stops: Seq<String>,
    released: Seq<char>,
    pending: Seq<char>,
    piece: Seq<char>,
    text: Seq<char>,
    rest: Seq<char>,
)
    requires
        stream_inv(stops, released, pending),
        is_earliest_stop(encode_utf8(pending + piece), stops, None),
        text + rest == pending + piece,
        is_release_point(encode_utf8(pending + piece), held_back(stops), encode_utf8(text).len() as int),
    ensures
        stream_inv(stops, released + text, rest),
        (released + text) + rest == released + pending + piece,
{
    law_buffering_finds_the_earliest_stop(stops, released, pending, piece, None);
    assert((released + text) + rest =~= released + (text + rest));
    assert(released + pending + piece =~= released + (pending + piece));
    lemma_encode_concat(text, rest);
    let b = encode_utf8(pending + piece);
    if b.len() > held_back(stops) {
    } else {
        lemma_encode_concat(pending, piece);
        assert(encode_utf8(text).len() == 0);
        crate::text::lemma_encode_injective(text, Seq::empty());
        assert(released + text =~= released);
        assert(encode_utf8(rest).len() == b.len());
    }
}

/// A fresh stream satisfies what the first piece relies on.
pub proof fn law_fresh_stream(stops: Seq<String>)
    ensures
        stream_inv(stops, Seq::empty(), Seq::empty()),
{
    let none = Seq::<char>::empty();
    assert(none + none =~= none);
    let t = encode_utf8(none);
    assert(t.len() == 0);
    assert forall|i: int| !stop_at(t, stops, i) by {
        if stop_at(t, stops, i) {
            let k = choose|k: int|
                0 <= k < stops.len() && (#[trigger] stops[k])@.len() > 0 && occurs_at(t, encode_utf8(stops[k]@), i);
            vstd::utf8::encode_utf8_first_scalar(stops[k]@);
            assert(encode_utf8(stops[k]@).len() > 0);
        }
    }
}

/// Pieces of text end to end.
pub open spec fn joined(pieces: Seq<Seq<char>>) -> Seq<char>
    decreases pieces.len(),
{
    if pieces.len() == 0 {
        Seq::empty()
    } else {
        joined(pieces.drop_last()) + pieces.last()
    }
}

/// Holding text back is about when it is released, never whether: while no
/// stop matches, what was released and what is still held back are together
/// exactly the pieces that were fed.
pub proof fn law_no_text_is_lost(pieces: Seq<Seq<char>>, texts: Seq<Seq<char>>, pendings: Seq<Seq<char>>)
    requires
        texts.len() == pieces.len(),
        pendings.len() == pieces.len() + 1,
        pendings[0] == Seq::<char>::empty(),
        forall|i: int|
            #![trigger texts[i]]
            0 <= i < pieces.len() ==> texts[i] + pendings[i + 1] == pendings[i] + pieces[i],
    ensures
        joined(texts) + pendings.last() == joined(pieces),
    decreases pieces.len(),
{
    let n = pieces.len();
    if n == 0 {
        assert(joined(texts) + pendings.last() =~= joined(pieces));
    } else {
        law_no_text_is_lost(pieces.drop_last(), texts.drop_last(), pendings.drop_last());
        assert(pendings.drop_last().last() == pendings[n - 1]);
        assert(texts[n - 1] + pendings[n as int] == pendings[n - 1] + pieces[n - 1]);
        let (a, b) = (joined(texts.drop_last()), joined(pieces.drop_last()));
        assert((a + texts.last()) + pendings.last() =~= a + (texts.last() + pendings.last()));
        assert(a + (pendings[n - 1] + pieces.last()) =~= (a + pendings[n - 1]) + pieces.last());
    }
}

/// When a stop matches, the answer is the text before it and nothing else:
/// what had been released plus what the match releases is the whole text up
/// to the first byte of the earliest stop.
pub proof fn law_answer_ends_at_the_earliest_stop(
    stops: Seq<String>,
    released: Seq<char>,
    pending: Seq<char>,
    piece: Seq<char>,
    c: usize,
    text: Seq<char>,
)
    requires
        stream_inv(stops, released, pending),
        is_earliest_stop(encode_utf8(pending + piece), stops, Some(c)),
        encode_utf8(text) == encode_utf8(pending + piece).subrange(0, c as int),
    ensures
        ({
            let whole = encode_utf8(released + pending + piece);
            let end = encode_utf8(released).len() + c;
            &&& stop_at(whole, stops, end)
            &&& forall|i: int| i < end ==> !stop_at(whole, stops, i)
            &&& encode_utf8(released + text) == whole.subrange(0, end)
        }),
{
    law_buffering_finds_the_earliest_stop(stops, released, pending, piece, Some(c));
    lemma_encode_concat(released, text);
    assert(released + pending + piece =~= released + (pending + piece));
    lemma_encode_concat(released, pending + piece);
    let (a, b) = (encode_utf8(released), encode_utf8(pending + piece));
    assert(stop_at(b, stops, c as int));
    assert((a + b).subrange(0, a.len() + c) =~= a + b.subrange(0, c as int));
}

/// The earliest stop of a text: there is one exactly where the text is some
/// text, a stop string and some more text, and no stop string stands
/// earlier. Empty stop strings stop nothing.
pub proof fn law_a_stop_is_a_stop_string_in_the_text(all: Seq<char>, stops: Seq<String>, r: Option<usize>)
    requires
        is_earliest_stop(encode_utf8(all), stops, r),
    ensures
        forall|k: int, a: Seq<char>, b: Seq<char>|
            0 <= k < stops.len() && stops[k]@.len() > 0 && all == #[trigger] (a + stops[k]@ + b) ==> r is Some && r->0
                <= encode_utf8(a).len(),
        r is Some ==> exists|k: int, a: Seq<char>, b: Seq<char>|
            0 <= k < stops.len() && stops[k]@.len() > 0 && all == #[trigger] (a + stops[k]@ + b) && encode_utf8(a).len()
                == r->0,
{
    let bytes = encode_utf8(all);
    assert forall|k: int, a: Seq<char>, b: Seq<char>|
        0 <= k < stops.len() && stops[k]@.len() > 0 && all == #[trigger] (a + stops[k]@ + b) implies r is Some && r->0
        <= encode_utf8(a).len() by {
        let pat = encode_utf8(stops[k]@);
        let i = encode_utf8(a).len() as int;
        lemma_encode_concat(a, stops[k]@);
        lemma_encode_concat(a + stops[k]@, b);
        assert(bytes.subrange(i, i + pat.len()) =~= pat);
        assert(stop_at(bytes, stops, i));
    }
    if let Some(c) = r {
        assert(stop_at(bytes, stops, c as int));
        let k = choose|k: int|
            0 <= k < stops.len() && (#[trigger] stops[k])@.len() > 0 && occurs_at(
                bytes,
                encode_utf8(stops[k]@),
                c as int,
            );
        let (a, b) = crate::text::lemma_occurs_behind(all, stops[k]@, c as int);
        assert(all == a + stops[k]@ + b);
    }
}

/// As much is held back as the longest stop string calls for and no more:
/// one byte short of it, and nothing where there is none.
pub proof fn law_the_longest_stop_decides_the_hold(stops: Seq<String>)
    ensures
        held_back(stops) >= 0,
        forall|k: int| 0 <= k < stops.len() ==> encode_utf8((#[trigger] stops[k])@).len() <= held_back(stops) + 1,
        held_back(stops) > 0 ==> exists|k: int|
            0 <= k < stops.len() && encode_utf8((#[trigger] stops[k])@).len() == held_back(stops) + 1,
{
    assert forall|k: int| 0 <= k < stops.len() implies encode_utf8((#[trigger] stops[k])@).len() <= held_back(stops)
        + 1 by {
        lemma_longest(stops, k);
    }
    lemma_longest_is_one(stops);
}

proof fn lemma_longest_is_one(stops: Seq<String>)
    ensures
        longest(stops) >= 0,
        longest(stops) > 0 ==> exists|k: int|
            0 <= k < stops.len() && encode_utf8((#[trigger] stops[k])@).len() == longest(stops),
    decreases stops.len(),
{
    if stops.len() > 0 {
        let rest = stops.drop_last();
        lemma_longest_is_one(rest);
        if longest(stops) == longest(rest) && longest(rest) > 0 {
            let k = choose|k: int|
                0 <= k < rest.len() && encode_utf8((#[trigger] rest[k])@).len() == longest(rest);
            assert(stops[k] == rest[k]);
        } else {
            assert(encode_utf8(stops[stops.len() - 1]@).len() == longest(stops));
        }
    }
}

/// Text is let go as early as it may be: what stays behind is at least the
/// hold, or nothing is let go, and nothing more could be let go with the
/// hold still kept.
pub proof fn law_text_is_let_go_as_early_as_it_may(
    text: Seq<char>,
    rest: Seq<char>,
    hold: int,
    more: Seq<char>,
    less: Seq<char>,
)
    requires
        0 <= hold,
        is_release_point(encode_utf8(text + rest), hold, encode_utf8(text).len() as int),
        more + less == text + rest,
        encode_utf8(less).len() >= hold,
    ensures
        text.len() == 0 || encode_utf8(rest).len() >= hold,
        encode_utf8(more).len() <= encode_utf8(text).len(),
{
    let bytes = encode_utf8(text + rest);
    lemma_encode_concat(text, rest);
    lemma_encode_concat(more, less);
    crate::text::lemma_seam_is_boundary(more, less);
    if bytes.len() <= hold && text.len() > 0 {
        vstd::utf8::encode_utf8_first_scalar(text);
        assert(encode_utf8(text).len() > 0);
    }
}

/// While no stop string is found, what was held and what arrives is emitted
/// or held, in order, and a flush then hands over all that is held.
pub proof fn law_pieces_come_out_in_order(
    m: &mut StopMatcher,
    piece: &str,
    text: String,
    n: &mut StopMatcher,
    tail: String,
)
    requires
        call_ensures(StopMatcher::push, (m, piece), StopStep::Emit(text)),
        *old(n) == *final(m),
        call_ensures(StopMatcher::flush, (n,), tail),
    ensures
        text@ + tail@ == old(m).pending() + piece@,
        final(n).pending().len() == 0,
        final(n).stops() == old(m).stops(),
        final(n).stop_token_ids() == old(m).stop_token_ids(),
{
}

/// A stop token is one of the ids that were given.
pub proof fn law_stop_tokens_are_the_given_ones(
    stops: Vec<String>,
    ids: Vec<usize>,
    m: StopMatcher,
    id: usize,
    r: bool,
    i: int,
)
    requires
        call_ensures(StopMatcher::new, (stops, ids), m),
        call_ensures(StopMatcher::is_stop_token, (&m, id), r),
        0 <= i < ids@.len(),
    ensures
        id == ids@[i] ==> r,
        (forall|k: int| 0 <= k < ids@.len() ==> ids@[k] != id) ==> !r,
        m.pending().len() == 0,
        m.stops() == stops@,
{
}

} // verus!
