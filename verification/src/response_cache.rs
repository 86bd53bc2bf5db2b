//! A whole-response cache: an exact repeat of a recent request is answered
//! with the completion computed then. Bounded, expiring, least recently used
//! first out.
use std::collections::hash_map::DefaultHasher;
use std::hash::Hasher;
use vstd::prelude::*;
use vstd::std_specs::hash::DefaultHasherAdditionalSpecFns;
use vstd::string::{StringExecFns, StringSliceAdditionalSpecFns};
use vstd::utf8::{
    encode_utf8, encode_utf8_valid_utf8, is_char_boundary_iff_is_leading_byte,
    is_char_boundary_iff_not_is_continuation_byte,
};
use crate::generate::{FinishReason, GenerationParams, Usage};
use crate::sampling::{OrderView, SamplerOrder, SamplingParams};
use crate::text::{hex16, hex_chars, lemma_encode_injective, same_text, text_of, texts};

verus! {

/// Every setting of a resolved sampling configuration, in a form that can
/// be compared for exact equality. A setting outside the key would let two
/// requests that differ in it share one answer.
#[derive(Debug)]
pub struct SamplingKey {
    pub temperature_bits: u32,
    pub top_p_bits: u32,
    pub min_p_bits: u32,
    pub top_k: usize,
    pub repetition_penalty_bits: u32,
    pub penalty_last_n: usize,
    pub presence_penalty_bits: u32,
    pub frequency_penalty_bits: u32,
    pub sampler_order: SamplerOrder,
}

/// A compiled grammar by its full rendering: two grammars are the same
/// constraint exactly when every rule of theirs is.
#[derive(Debug)]
pub struct GrammarKey(pub String);

/// Every generation parameter that can change the answer.
#[derive(Debug)]
pub struct GenerationKey {
    pub max_tokens: usize,
    pub sampling: SamplingKey,
    pub stop: Vec<String>,
    pub stop_token_ids: Vec<usize>,
    pub json_object: bool,
    pub grammar: Option<GrammarKey>,
    pub ignore_eos: bool,
}

/// What an answer is cached under.
#[derive(Debug)]
pub struct CacheKey {
    pub model: String,
    pub prompt: String,
    pub generation: GenerationKey,
    /// The seed as the request spelled it. A resolved seed is a clock
    /// reading for a request that named none.
    pub seed: Option<u64>,
}

/// A [`SamplingKey`] by value.
pub struct SamplingView {
    pub temperature_bits: u32,
    pub top_p_bits: u32,
    pub min_p_bits: u32,
    pub top_k: usize,
    pub repetition_penalty_bits: u32,
    pub penalty_last_n: usize,
    pub presence_penalty_bits: u32,
    pub frequency_penalty_bits: u32,
    pub sampler_order: OrderView,
}

/// A [`GenerationKey`] by value.
#[verifier::ext_equal]
pub struct GenerationView {
    pub max_tokens: usize,
    pub sampling: SamplingView,
    pub stop: Seq<Seq<char>>,
    pub stop_token_ids: Seq<usize>,
    pub json_object: bool,
    pub grammar: Option<Seq<char>>,
    pub ignore_eos: bool,
}

/// A [`CacheKey`] by value.
#[verifier::ext_equal]
pub struct KeyView {
    pub model: Seq<char>,
    pub prompt: Seq<char>,
    pub generation: GenerationView,
    pub seed: Option<u64>,
}

impl View for SamplingKey {
    type V = SamplingView;

    open spec fn view(&self) -> SamplingView {
        SamplingView {
            temperature_bits: self.temperature_bits,
            top_p_bits: self.top_p_bits,
            min_p_bits: self.min_p_bits,
            top_k: self.top_k,
            repetition_penalty_bits: self.repetition_penalty_bits,
            penalty_last_n: self.penalty_last_n,
            presence_penalty_bits: self.presence_penalty_bits,
            frequency_penalty_bits: self.frequency_penalty_bits,
            sampler_order: self.sampler_order@,
        }
    }
}

impl View for GenerationKey {
    type V = GenerationView;

    open spec fn view(&self) -> GenerationView {
        GenerationView {
            max_tokens: self.max_tokens,
            sampling: self.sampling@,
            stop: texts(self.stop@),
            stop_token_ids: self.stop_token_ids@,
            json_object: self.json_object,
            grammar: match self.grammar {
                Some(g) => Some(g.0@),
                None => None,
            },
            ignore_eos: self.ignore_eos,
        }
    }
}

impl View for CacheKey {
    type V = KeyView;

    open spec fn view(&self) -> KeyView {
        KeyView { model: self.model@, prompt: self.prompt@, generation: self.generation@, seed: self.seed }
    }
}

/// A list of strings again.
fn copied_strings(v: &Vec<String>) -> (r: Vec<String>)
    ensures
        texts(r@) == texts(v@),
{
    let mut r: Vec<String> = Vec::new();
    for i in 0usize..v.len()
        invariant
            r@.len() == i,
            forall|k: int| 0 <= k < i ==> (#[trigger] r@[k])@ == v@[k]@,
    {
        r.push(v[i].clone());
    }
    assert(texts(r@) =~= texts(v@));
    r
}

/// A list of token ids again.
fn copied_ids(v: &Vec<usize>) -> (r: Vec<usize>)
    ensures
        r@ == v@,
{
    let mut r: Vec<usize> = Vec::new();
    for i in 0usize..v.len()
        invariant
            r@ == v@.take(i as int),
    {
        r.push(v[i]);
        assert(v@.take(i + 1) =~= v@.take(i as int).push(v@[i as int]));
    }
    assert(v@.take(v@.len() as int) =~= v@);
    r
}

/// Whether two lists of strings say the same.
fn same_strings(a: &Vec<String>, b: &Vec<String>) -> (r: bool)
    ensures
        r == (texts(a@) == texts(b@)),
{
    if a.len() != b.len() {
        assert(texts(a@).len() != texts(b@).len());
        return false;
    }
    for i in 0usize..a.len()
        invariant
            a@.len() == b@.len(),
            forall|k: int| 0 <= k < i ==> (#[trigger] a@[k])@ == b@[k]@,
    {
        if !same_text(a[i].as_str(), b[i].as_str()) {
            assert(texts(a@)[i as int] != texts(b@)[i as int]);
            return false;
        }
    }
    assert(texts(a@) =~= texts(b@));
    true
}

/// Whether two lists of token ids are the same.
fn same_ids(a: &Vec<usize>, b: &Vec<usize>) -> (r: bool)
    ensures
        r == (a@ == b@),
{
    if a.len() != b.len() {
        return false;
    }
    for i in 0usize..a.len()
        invariant
            a@.len() == b@.len(),
            forall|k: int| 0 <= k < i ==> a@[k] == b@[k],
    {
        if a[i] != b[i] {
            return false;
        }
    }
    assert(a@ =~= b@);
    true
}

/// The sampling configuration that a key stands for.
pub open spec fn sampling_of(p: SamplingParams) -> SamplingView {
    SamplingView {
        temperature_bits: p.temperature_bits,
        top_p_bits: p.top_p_bits,
        min_p_bits: p.min_p_bits,
        top_k: p.top_k,
        repetition_penalty_bits: p.repetition_penalty_bits,
        penalty_last_n: p.penalty_last_n,
        presence_penalty_bits: p.presence_penalty_bits,
        frequency_penalty_bits: p.frequency_penalty_bits,
        sampler_order: p.sampler_order@,
    }
}

/// The generation parameters that a key stands for. Two are left out: the
/// resolved seed, which the key carries as the request spelled it, and the
/// cancellation handle, which is the request's own and no parameter of the
/// answer.
pub open spec fn generation_of(p: GenerationParams) -> GenerationView {
    GenerationView {
        max_tokens: p.max_tokens,
        sampling: sampling_of(p.sampling),
        stop: texts(p.stop@),
        stop_token_ids: p.stop_token_ids@,
        json_object: p.json_object,
        grammar: text_of(p.grammar),
        ignore_eos: p.ignore_eos,
    }
}

/// The cache-key form of a resolved sampling configuration.
pub fn sampling_key(params: &SamplingParams) -> (k: SamplingKey)
    ensures
        k@ == sampling_of(*params),
{
    SamplingKey {
        temperature_bits: params.temperature_bits,
        top_p_bits: params.top_p_bits,
        min_p_bits: params.min_p_bits,
        top_k: params.top_k,
        repetition_penalty_bits: params.repetition_penalty_bits,
        penalty_last_n: params.penalty_last_n,
        presence_penalty_bits: params.presence_penalty_bits,
        frequency_penalty_bits: params.frequency_penalty_bits,
        sampler_order: params.sampler_order.copied(),
    }
}

/// The cache-key form of a resolved generation configuration.
pub fn generation_key(params: &GenerationParams) -> (k: GenerationKey)
    ensures
        k@ == generation_of(*params),
{
    GenerationKey {
        max_tokens: params.max_tokens,
        sampling: sampling_key(&params.sampling),
        stop: copied_strings(&params.stop),
        stop_token_ids: copied_ids(&params.stop_token_ids),
        json_object: params.json_object,
        grammar: match &params.grammar {
            Some(g) => Some(GrammarKey(g.clone())),
            None => None,
        },
        ignore_eos: params.ignore_eos,
    }
}

impl SamplingKey {
    /// The same key again.
    pub fn copied(&self) -> (k: SamplingKey)
        ensures
            k@ == self@,
    {
        SamplingKey {
            temperature_bits: self.temperature_bits,
            top_p_bits: self.top_p_bits,
            min_p_bits: self.min_p_bits,
            top_k: self.top_k,
            repetition_penalty_bits: self.repetition_penalty_bits,
            penalty_last_n: self.penalty_last_n,
            presence_penalty_bits: self.presence_penalty_bits,
            frequency_penalty_bits: self.frequency_penalty_bits,
            sampler_order: self.sampler_order.copied(),
        }
    }

    /// Whether both stand for the same configuration.
    pub fn same(&self, other: &SamplingKey) -> (r: bool)
        ensures
            r == (self@ == other@),
    {
        self.temperature_bits == other.temperature_bits && self.top_p_bits == other.top_p_bits && self.min_p_bits
            == other.min_p_bits && self.top_k == other.top_k && self.repetition_penalty_bits
            == other.repetition_penalty_bits && self.penalty_last_n == other.penalty_last_n
            && self.presence_penalty_bits == other.presence_penalty_bits && self.frequency_penalty_bits
            == other.frequency_penalty_bits && self.sampler_order.same(&other.sampler_order)
    }
}

impl GenerationKey {
    /// The same key again.
    pub fn copied(&self) -> (k: GenerationKey)
        ensures
            k@ == self@,
    {
        GenerationKey {
            max_tokens: self.max_tokens,
            sampling: self.sampling.copied(),
            stop: copied_strings(&self.stop),
            stop_token_ids: copied_ids(&self.stop_token_ids),
            json_object: self.json_object,
            grammar: match &self.grammar {
                Some(g) => Some(GrammarKey(g.0.clone())),
                None => None,
            },
            ignore_eos: self.ignore_eos,
        }
    }

    /// Whether both stand for the same parameters.
    pub fn same(&self, other: &GenerationKey) -> (r: bool)
        ensures
            r == (self@ == other@),
    {
        let grammar: bool = match (&self.grammar, &other.grammar) {
            (Some(a), Some(b)) => same_text(a.0.as_str(), b.0.as_str()),
            (None, None) => true,
            _ => false,
        };
        assert(grammar == (self@.grammar == other@.grammar));
        self.max_tokens == other.max_tokens && self.sampling.same(&other.sampling) && same_strings(
            &self.stop,
            &other.stop,
        ) && same_ids(&self.stop_token_ids, &other.stop_token_ids) && self.json_object == other.json_object
            && grammar && self.ignore_eos == other.ignore_eos
    }
}

/// A number's bytes, the lowest first.
pub open spec fn low_first(n: nat, width: nat) -> Seq<u8>
    decreases width,
{
    if width == 0 {
        Seq::empty()
    } else {
        seq![(n % 256) as u8] + low_first(n / 256, (width - 1) as nat)
    }
}

/// What a number feeds a digest: a whole word, whatever its type's width.
pub open spec fn number(n: u64) -> Seq<u8> {
    low_first(n as nat, 8)
}

/// What the raw bits of a setting feed a digest.
pub open spec fn bits(n: u32) -> Seq<u8> {
    low_first(n as nat, 4)
}

/// What a text feeds a digest: its bytes, and one that no text holds.
pub open spec fn ended(t: Seq<char>) -> Seq<u8> {
    encode_utf8(t) + seq![0xffu8]
}

/// What a flag feeds a digest.
pub open spec fn flag(b: bool) -> Seq<u8> {
    if b {
        seq![1u8]
    } else {
        seq![0u8]
    }
}

/// What an optional text feeds a digest: one or zero, then the text.
pub open spec fn optional(t: Option<Seq<char>>) -> Seq<u8> {
    match t {
        Some(s) => number(1) + ended(s),
        None => number(0),
    }
}

/// What an optional number feeds a digest: one or zero, then the number.
pub open spec fn optional_number(n: Option<u64>) -> Seq<u8> {
    match n {
        Some(v) => number(1) + number(v),
        None => number(0),
    }
}

/// The texts of a list, each ended.
pub open spec fn each_ended(l: Seq<Seq<char>>) -> Seq<u8>
    decreases l.len(),
{
    if l.len() == 0 {
        Seq::empty()
    } else {
        ended(l[0]) + each_ended(l.skip(1))
    }
}

/// The numbers of a list.
pub open spec fn each_number(l: Seq<usize>) -> Seq<u8>
    decreases l.len(),
{
    if l.len() == 0 {
        Seq::empty()
    } else {
        number(l[0] as u64) + each_number(l.skip(1))
    }
}

/// What a sampler chain feeds a digest: nothing unless one was spelled out.
pub open spec fn chain_fed(order: OrderView) -> Seq<u8> {
    match order {
        OrderView::Default => Seq::empty(),
        OrderView::Chain(c) => ended(c),
    }
}

/// What the settings of a sampling configuration feed a digest, in front of
/// `rest`.
pub open spec fn sampling_fed(s: SamplingView, rest: Seq<u8>) -> Seq<u8> {
    bits(s.temperature_bits) + (bits(s.top_p_bits) + (bits(s.min_p_bits) + (number(s.top_k as u64) + (bits(
        s.repetition_penalty_bits,
    ) + (number(s.penalty_last_n as u64) + (bits(s.presence_penalty_bits) + (bits(s.frequency_penalty_bits)
        + rest)))))))
}

/// What the two lists of stops feed a digest, in front of `rest`: each list
/// has its length before it.
pub open spec fn stops_fed(g: GenerationView, rest: Seq<u8>) -> Seq<u8> {
    number(g.stop.len() as u64) + (each_ended(g.stop) + (number(g.stop_token_ids.len() as u64) + (each_number(
        g.stop_token_ids,
    ) + rest)))
}

/// What a key feeds its digest: its fields in their order, as `Hash` derived
/// for them feeds a hasher on a 64-bit machine that stores the lowest byte
/// first. A sampler chain that was spelled out comes last, so that the default
/// one leaves no trace. Every piece tells where it ends.
pub open spec fn fed(k: KeyView) -> Seq<u8> {
    let g = k.generation;
    let last = flag(g.json_object) + (optional(g.grammar) + (flag(g.ignore_eos) + (optional_number(k.seed)
        + chain_fed(g.sampling.sampler_order))));
    ended(k.model) + (ended(k.prompt) + (number(g.max_tokens as u64) + sampling_fed(g.sampling, stops_fed(g, last))))
}

/// Pieces may be put together from either end.
broadcast proof fn lemma_put_together(a: Seq<u8>, b: Seq<u8>, c: Seq<u8>)
    ensures
        #[trigger] ((a + b) + c) == a + (b + c),
{
    assert((a + b) + c =~= a + (b + c));
}

/// Appends the `width` lowest bytes of a number.
fn push_low_first(out: &mut Vec<u8>, n: u64, width: usize)
    ensures
        final(out)@ == old(out)@ + low_first(n as nat, width as nat),
{
    broadcast use lemma_put_together;

    let mut left: u64 = n;
    let ghost whole = old(out)@ + low_first(n as nat, width as nat);
    for i in 0usize..width
        invariant
            out@ + low_first(left as nat, (width - i) as nat) == whole,
    {
        let ghost before = out@;
        out.push((left % 256) as u8);
        assert(out@ =~= before + seq![(left as nat % 256) as u8]);
        left = left / 256;
    }
    assert(out@ + low_first(left as nat, 0) =~= out@);
}

fn push_number(out: &mut Vec<u8>, n: u64)
    ensures
        final(out)@ == old(out)@ + number(n),
{
    push_low_first(out, n, 8);
}

fn push_bits(out: &mut Vec<u8>, n: u32)
    ensures
        final(out)@ == old(out)@ + bits(n),
{
    push_low_first(out, n as u64, 4);
}

fn push_ended(out: &mut Vec<u8>, t: &str)
    ensures
        final(out)@ == old(out)@ + ended(t@),
{
    out.extend_from_slice(t.as_bytes());
    out.push(0xff);
    assert(out@ =~= old(out)@ + ended(t@));
}

fn push_flag(out: &mut Vec<u8>, b: bool)
    ensures
        final(out)@ == old(out)@ + flag(b),
{
    out.push(if b { 1u8 } else { 0u8 });
    assert(out@ =~= old(out)@ + flag(b));
}

fn push_optional(out: &mut Vec<u8>, t: Option<&String>)
    ensures
        final(out)@ == old(out)@ + optional(
            match t {
                Some(s) => Some(s@),
                None => None,
            },
        ),
{
    broadcast use lemma_put_together;

    match t {
        Some(s) => {
            push_number(out, 1);
            push_ended(out, s.as_str());
        },
        None => {
            push_number(out, 0);
        },
    }
}

fn push_optional_number(out: &mut Vec<u8>, n: Option<u64>)
    ensures
        final(out)@ == old(out)@ + optional_number(n),
{
    broadcast use lemma_put_together;

    match n {
        Some(v) => {
            push_number(out, 1);
            push_number(out, v);
        },
        None => {
            push_number(out, 0);
        },
    }
}

impl SamplingKey {
    /// Appends what the settings feed a digest.
    fn push_fed(&self, out: &mut Vec<u8>)
        ensures
            forall|rest: Seq<u8>| #[trigger] (final(out)@ + rest) == old(out)@ + sampling_fed(self@, rest),
    {
        broadcast use lemma_put_together;

        push_bits(out, self.temperature_bits);
        push_bits(out, self.top_p_bits);
        push_bits(out, self.min_p_bits);
        push_number(out, self.top_k as u64);
        push_bits(out, self.repetition_penalty_bits);
        push_number(out, self.penalty_last_n as u64);
        push_bits(out, self.presence_penalty_bits);
        push_bits(out, self.frequency_penalty_bits);
    }
}

impl GenerationKey {
    /// Appends what the lists of stops feed a digest.
    fn push_stops(&self, out: &mut Vec<u8>)
        ensures
            forall|rest: Seq<u8>| #[trigger] (final(out)@ + rest) == old(out)@ + stops_fed(self@, rest),
    {
        broadcast use lemma_put_together;

        let ghost stop = self@.stop;
        let ghost ids = self.stop_token_ids@;
        push_number(out, self.stop.len() as u64);
        let ghost first = out@;
        assert(stop.skip(0) =~= stop);
        for i in 0usize..self.stop.len()
            invariant
                stop == texts(self.stop@),
                out@ + each_ended(stop.skip(i as int)) == first + each_ended(stop),
        {
            assert(stop.skip(i as int)[0] == self.stop@[i as int]@);
            assert(stop.skip(i as int).skip(1) =~= stop.skip(i + 1));
            push_ended(out, self.stop[i].as_str());
        }
        assert(out@ + each_ended(stop.skip(stop.len() as int)) =~= out@);
        push_number(out, self.stop_token_ids.len() as u64);
        let ghost second = out@;
        assert(ids.skip(0) =~= ids);
        for i in 0usize..self.stop_token_ids.len()
            invariant
                ids == self.stop_token_ids@,
                out@ + each_number(ids.skip(i as int)) == second + each_number(ids),
        {
            assert(ids.skip(i as int).skip(1) =~= ids.skip(i + 1));
            push_number(out, self.stop_token_ids[i] as u64);
        }
        assert(out@ + each_number(ids.skip(ids.len() as int)) =~= out@);
    }
}

impl CacheKey {
    /// The same key again.
    pub fn copied(&self) -> (k: CacheKey)
        ensures
            k@ == self@,
    {
        CacheKey {
            model: self.model.clone(),
            prompt: self.prompt.clone(),
            generation: self.generation.copied(),
            seed: self.seed,
        }
    }

    /// Whether both stand for the same request.
    pub fn same(&self, other: &CacheKey) -> (r: bool)
        ensures
            r == (self@ == other@),
    {
        let seed: bool = match (self.seed, other.seed) {
            (Some(a), Some(b)) => a == b,
            (None, None) => true,
            _ => false,
        };
        same_text(self.model.as_str(), other.model.as_str()) && same_text(
            self.prompt.as_str(),
            other.prompt.as_str(),
        ) && self.generation.same(&other.generation) && seed
    }

    /// What this key feeds its digest.
    fn fed_bytes(&self) -> (out: Vec<u8>)
        ensures
            out@ == fed(self@),
    {
        broadcast use lemma_put_together;

        let g: &GenerationKey = &self.generation;
        let grammar: Option<&String> = match &g.grammar {
            Some(k) => Some(&k.0),
            None => None,
        };
        let mut out: Vec<u8> = Vec::new();
        push_ended(&mut out, self.model.as_str());
        assert(out@ =~= ended(self@.model));
        push_ended(&mut out, self.prompt.as_str());
        push_number(&mut out, g.max_tokens as u64);
        let ghost before = out@;
        g.sampling.push_fed(&mut out);
        let ghost sampled = out@;
        g.push_stops(&mut out);
        let ghost stopped = out@;
        push_flag(&mut out, g.json_object);
        push_optional(&mut out, grammar);
        push_flag(&mut out, g.ignore_eos);
        push_optional_number(&mut out, self.seed);
        match &g.sampling.sampler_order {
            SamplerOrder::Default => {
                assert(out@ + chain_fed(OrderView::Default) =~= out@);
            },
            SamplerOrder::Chain(c) => {
                push_ended(&mut out, c.as_str());
            },
        }
        proof {
            let v = self@.generation;
            let last = flag(v.json_object) + (optional(v.grammar) + (flag(v.ignore_eos) + (optional_number(self@.seed)
                + chain_fed(v.sampling.sampler_order))));
            assert(out@ == stopped + last);
            assert(stopped + last == sampled + stops_fed(v, last));
            assert(sampled + stops_fed(v, last) == before + sampling_fed(v.sampling, stops_fed(v, last)));
        }
        out
    }

    /// A short hex digest of this key, for logs that should not print a
    /// whole prompt.
    pub fn digest(&self) -> (d: String)
        ensures
            d@ == hex_chars(DefaultHasher::spec_finish(seq![fed(self@)]) as nat, 16),
    {
        let mut h: DefaultHasher = DefaultHasher::new();
        let bytes: Vec<u8> = self.fed_bytes();
        h.write(bytes.as_slice());
        assert(h@ =~= seq![fed(self@)]);
        hex16(h.finish())
    }
}

/// A number that `width` bytes hold.
spec fn held_in(n: nat, width: nat) -> bool
    decreases width,
{
    if width == 0 {
        n == 0
    } else {
        held_in(n / 256, (width - 1) as nat)
    }
}

/// Equal starts that begin with a number begin with the same number.
proof fn lemma_low_first_cut(a: nat, b: nat, width: nat, x: Seq<u8>, y: Seq<u8>)
    requires
        held_in(a, width),
        held_in(b, width),
        low_first(a, width) + x == low_first(b, width) + y,
    ensures
        a == b,
        x == y,
    decreases width,
{
    let (s, t) = (low_first(a, width) + x, low_first(b, width) + y);
    if width == 0 {
        assert(s =~= x);
        assert(t =~= y);
    } else {
        let w = (width - 1) as nat;
        assert(s[0] == (a % 256) as u8);
        assert(t[0] == (b % 256) as u8);
        assert(s.skip(1) =~= low_first(a / 256, w) + x);
        assert(t.skip(1) =~= low_first(b / 256, w) + y);
        lemma_low_first_cut(a / 256, b / 256, w, x, y);
    }
}

proof fn lemma_number_cut(a: u64, b: u64, x: Seq<u8>, y: Seq<u8>)
    requires
        number(a) + x == number(b) + y,
    ensures
        a == b,
        x == y,
{
    reveal_with_fuel(held_in, 9);
    assert(held_in(a as nat, 8));
    assert(held_in(b as nat, 8));
    lemma_low_first_cut(a as nat, b as nat, 8, x, y);
}

proof fn lemma_bits_cut(a: u32, b: u32, x: Seq<u8>, y: Seq<u8>)
    requires
        bits(a) + x == bits(b) + y,
    ensures
        a == b,
        x == y,
{
    reveal_with_fuel(held_in, 5);
    assert(held_in(a as nat, 4));
    assert(held_in(b as nat, 4));
    lemma_low_first_cut(a as nat, b as nat, 4, x, y);
}

/// No text holds the byte that ends one.
proof fn lemma_end_is_no_text(t: Seq<char>, i: int)
    requires
        0 <= i < encode_utf8(t).len(),
    ensures
        encode_utf8(t)[i] != 0xff,
{
    let bytes = encode_utf8(t);
    encode_utf8_valid_utf8(t);
    is_char_boundary_iff_not_is_continuation_byte(bytes, i);
    is_char_boundary_iff_is_leading_byte(bytes, i);
}

proof fn lemma_ended_cut(a: Seq<char>, b: Seq<char>, x: Seq<u8>, y: Seq<u8>)
    requires
        ended(a) + x == ended(b) + y,
    ensures
        a == b,
        x == y,
{
    let (s, t) = (ended(a) + x, ended(b) + y);
    let (p, q) = (encode_utf8(a), encode_utf8(b));
    assert(s[p.len() as int] == 0xff);
    assert(t[q.len() as int] == 0xff);
    if p.len() < q.len() {
        lemma_end_is_no_text(b, p.len() as int);
        assert(t[p.len() as int] == q[p.len() as int]);
    }
    if q.len() < p.len() {
        lemma_end_is_no_text(a, q.len() as int);
        assert(s[q.len() as int] == p[q.len() as int]);
    }
    assert(p =~= s.take(p.len() as int));
    assert(q =~= t.take(q.len() as int));
    assert(x =~= s.skip(p.len() as int + 1));
    assert(y =~= t.skip(q.len() as int + 1));
    lemma_encode_injective(a, b);
}

proof fn lemma_flag_cut(a: bool, b: bool, x: Seq<u8>, y: Seq<u8>)
    requires
        flag(a) + x == flag(b) + y,
    ensures
        a == b,
        x == y,
{
    let (s, t) = (flag(a) + x, flag(b) + y);
    assert(s[0] == flag(a)[0] && t[0] == flag(b)[0]);
    assert(x =~= s.skip(1));
    assert(y =~= t.skip(1));
}

/// One for something, zero for nothing.
spec fn presence(some: bool) -> u64 {
    if some {
        1
    } else {
        0
    }
}

proof fn lemma_optional_cut(a: Option<Seq<char>>, b: Option<Seq<char>>, x: Seq<u8>, y: Seq<u8>)
    requires
        optional(a) + x == optional(b) + y,
    ensures
        a == b,
        x == y,
{
    broadcast use lemma_put_together;

    let (p, q) = (
        if a is Some { ended(a->0) + x } else { x },
        if b is Some { ended(b->0) + y } else { y },
    );
    lemma_number_cut(presence(a is Some), presence(b is Some), p, q);
    if a is Some {
        lemma_ended_cut(a->0, b->0, x, y);
    }
}

proof fn lemma_optional_number_cut(a: Option<u64>, b: Option<u64>, x: Seq<u8>, y: Seq<u8>)
    requires
        optional_number(a) + x == optional_number(b) + y,
    ensures
        a == b,
        x == y,
{
    broadcast use lemma_put_together;

    let (p, q) = (
        if a is Some { number(a->0) + x } else { x },
        if b is Some { number(b->0) + y } else { y },
    );
    lemma_number_cut(presence(a is Some), presence(b is Some), p, q);
    if a is Some {
        lemma_number_cut(a->0, b->0, x, y);
    }
}

proof fn lemma_chain_is_told(a: OrderView, b: OrderView)
    requires
        chain_fed(a) == chain_fed(b),
    ensures
        a == b,
{
    match (a, b) {
        (OrderView::Chain(c), OrderView::Chain(d)) => {
            assert(ended(c) + Seq::empty() =~= ended(c));
            assert(ended(d) + Seq::empty() =~= ended(d));
            lemma_ended_cut(c, d, Seq::empty(), Seq::empty());
        },
        _ => {
            assert(chain_fed(a).len() == chain_fed(b).len());
        },
    }
}

proof fn lemma_each_ended_cut(a: Seq<Seq<char>>, b: Seq<Seq<char>>, x: Seq<u8>, y: Seq<u8>)
    requires
        a.len() == b.len(),
        each_ended(a) + x == each_ended(b) + y,
    ensures
        a == b,
        x == y,
    decreases a.len(),
{
    broadcast use lemma_put_together;

    if a.len() == 0 {
        assert(each_ended(a) + x =~= x);
        assert(each_ended(b) + y =~= y);
        assert(a =~= b);
    } else {
        lemma_ended_cut(a[0], b[0], each_ended(a.skip(1)) + x, each_ended(b.skip(1)) + y);
        lemma_each_ended_cut(a.skip(1), b.skip(1), x, y);
        assert(a =~= seq![a[0]] + a.skip(1));
        assert(b =~= seq![b[0]] + b.skip(1));
    }
}

proof fn lemma_each_number_cut(a: Seq<usize>, b: Seq<usize>, x: Seq<u8>, y: Seq<u8>)
    requires
        a.len() == b.len(),
        each_number(a) + x == each_number(b) + y,
    ensures
        a == b,
        x == y,
    decreases a.len(),
{
    broadcast use lemma_put_together;

    if a.len() == 0 {
        assert(each_number(a) + x =~= x);
        assert(each_number(b) + y =~= y);
        assert(a =~= b);
    } else {
        lemma_number_cut(a[0] as u64, b[0] as u64, each_number(a.skip(1)) + x, each_number(b.skip(1)) + y);
        lemma_each_number_cut(a.skip(1), b.skip(1), x, y);
        assert(a =~= seq![a[0]] + a.skip(1));
        assert(b =~= seq![b[0]] + b.skip(1));
    }
}

proof fn lemma_sampling_cut(a: SamplingView, b: SamplingView, x: Seq<u8>, y: Seq<u8>)
    requires
        sampling_fed(a, x) == sampling_fed(b, y),
    ensures
        a.sampler_order == b.sampler_order ==> a == b,
        x == y,
{
    let (a8, b8) = (bits(a.frequency_penalty_bits) + x, bits(b.frequency_penalty_bits) + y);
    let (a7, b7) = (bits(a.presence_penalty_bits) + a8, bits(b.presence_penalty_bits) + b8);
    let (a6, b6) = (number(a.penalty_last_n as u64) + a7, number(b.penalty_last_n as u64) + b7);
    let (a5, b5) = (bits(a.repetition_penalty_bits) + a6, bits(b.repetition_penalty_bits) + b6);
    let (a4, b4) = (number(a.top_k as u64) + a5, number(b.top_k as u64) + b5);
    let (a3, b3) = (bits(a.min_p_bits) + a4, bits(b.min_p_bits) + b4);
    let (a2, b2) = (bits(a.top_p_bits) + a3, bits(b.top_p_bits) + b3);
    lemma_bits_cut(a.temperature_bits, b.temperature_bits, a2, b2);
    lemma_bits_cut(a.top_p_bits, b.top_p_bits, a3, b3);
    lemma_bits_cut(a.min_p_bits, b.min_p_bits, a4, b4);
    lemma_number_cut(a.top_k as u64, b.top_k as u64, a5, b5);
    lemma_bits_cut(a.repetition_penalty_bits, b.repetition_penalty_bits, a6, b6);
    lemma_number_cut(a.penalty_last_n as u64, b.penalty_last_n as u64, a7, b7);
    lemma_bits_cut(a.presence_penalty_bits, b.presence_penalty_bits, a8, b8);
    lemma_bits_cut(a.frequency_penalty_bits, b.frequency_penalty_bits, x, y);
}

proof fn lemma_stops_cut(a: GenerationView, b: GenerationView, x: Seq<u8>, y: Seq<u8>)
    requires
        a.stop.len() <= u64::MAX,
        b.stop.len() <= u64::MAX,
        a.stop_token_ids.len() <= u64::MAX,
        b.stop_token_ids.len() <= u64::MAX,
        stops_fed(a, x) == stops_fed(b, y),
    ensures
        a.stop == b.stop,
        a.stop_token_ids == b.stop_token_ids,
        x == y,
{
    let (a4, b4) = (each_number(a.stop_token_ids) + x, each_number(b.stop_token_ids) + y);
    let (a3, b3) = (number(a.stop_token_ids.len() as u64) + a4, number(b.stop_token_ids.len() as u64) + b4);
    lemma_number_cut(a.stop.len() as u64, b.stop.len() as u64, each_ended(a.stop) + a3, each_ended(b.stop) + b3);
    lemma_each_ended_cut(a.stop, b.stop, a3, b3);
    lemma_number_cut(a.stop_token_ids.len() as u64, b.stop_token_ids.len() as u64, a4, b4);
    lemma_each_number_cut(a.stop_token_ids, b.stop_token_ids, x, y);
}

/// Different keys feed their digests different bytes, and equal keys the
/// same: nothing runs together, wherever one piece ends and the next begins.
pub proof fn law_different_keys_feed_different_bytes(a: CacheKey, b: CacheKey)
    ensures
        fed(a@) == fed(b@) <==> a@ == b@,
{
    if fed(a@) == fed(b@) {
        let (g, h) = (a@.generation, b@.generation);
        let (g6, h6) = (chain_fed(g.sampling.sampler_order), chain_fed(h.sampling.sampler_order));
        let (g5, h5) = (optional_number(a@.seed) + g6, optional_number(b@.seed) + h6);
        let (g4, h4) = (flag(g.ignore_eos) + g5, flag(h.ignore_eos) + h5);
        let (g3, h3) = (optional(g.grammar) + g4, optional(h.grammar) + h4);
        let (g2, h2) = (flag(g.json_object) + g3, flag(h.json_object) + h3);
        let (g1, h1) = (sampling_fed(g.sampling, stops_fed(g, g2)), sampling_fed(h.sampling, stops_fed(h, h2)));
        let (g0, h0) = (number(g.max_tokens as u64) + g1, number(h.max_tokens as u64) + h1);
        lemma_ended_cut(a@.model, b@.model, ended(a@.prompt) + g0, ended(b@.prompt) + h0);
        lemma_ended_cut(a@.prompt, b@.prompt, g0, h0);
        lemma_number_cut(g.max_tokens as u64, h.max_tokens as u64, g1, h1);
        lemma_sampling_cut(g.sampling, h.sampling, stops_fed(g, g2), stops_fed(h, h2));
        assert(g.stop.len() == a.generation.stop.len() && h.stop.len() == b.generation.stop.len());
        assert(g.stop_token_ids.len() == a.generation.stop_token_ids.len());
        assert(h.stop_token_ids.len() == b.generation.stop_token_ids.len());
        lemma_stops_cut(g, h, g2, h2);
        lemma_flag_cut(g.json_object, h.json_object, g3, h3);
        lemma_optional_cut(g.grammar, h.grammar, g4, h4);
        lemma_flag_cut(g.ignore_eos, h.ignore_eos, g5, h5);
        lemma_optional_number_cut(a@.seed, b@.seed, g6, h6);
        lemma_chain_is_told(g.sampling.sampler_order, h.sampling.sampler_order);
    }
}

/// Two requests that differ in any parameter that can change the answer
/// have different keys, and two that differ only in the resolved seed or
/// the cancellation handle have the same one.
pub proof fn law_nothing_that_decides_the_answer_is_left_out(a: GenerationParams, b: GenerationParams)
    ensures
        generation_of(a) == generation_of(b) <==> a.max_tokens == b.max_tokens && sampling_of(a.sampling)
            == sampling_of(b.sampling) && texts(a.stop@) == texts(b.stop@) && a.stop_token_ids@ == b.stop_token_ids@
            && a.json_object == b.json_object && text_of(a.grammar) == text_of(b.grammar) && a.ignore_eos
            == b.ignore_eos,
        sampling_of(a.sampling) == sampling_of(b.sampling) <==> a.sampling.temperature_bits
            == b.sampling.temperature_bits && a.sampling.top_p_bits == b.sampling.top_p_bits && a.sampling.min_p_bits
            == b.sampling.min_p_bits && a.sampling.top_k == b.sampling.top_k && a.sampling.repetition_penalty_bits
            == b.sampling.repetition_penalty_bits && a.sampling.penalty_last_n == b.sampling.penalty_last_n
            && a.sampling.presence_penalty_bits == b.sampling.presence_penalty_bits
            && a.sampling.frequency_penalty_bits == b.sampling.frequency_penalty_bits && a.sampling.sampler_order@
            == b.sampling.sampler_order@,
{
}

/// The complete outcome of a request, so that a hit is indistinguishable
/// from recomputing it.
#[derive(Debug)]
pub struct CachedCompletion {
    pub content: String,
    pub finish: FinishReason,
    pub usage: Usage,
}

/// A [`CachedCompletion`] by value.
pub struct CompletionView {
    pub content: Seq<char>,
    pub finish: FinishReason,
    pub usage: Usage,
}

impl View for CachedCompletion {
    type V = CompletionView;

    open spec fn view(&self) -> CompletionView {
        CompletionView { content: self.content@, finish: self.finish, usage: self.usage }
    }
}

impl CachedCompletion {
    /// The same completion again.
    pub fn copied(&self) -> (c: CachedCompletion)
        ensures
            c@ == self@,
    {
        CachedCompletion { content: self.content.clone(), finish: self.finish, usage: self.usage }
    }
}

/// Hit and miss counters.
#[derive(Clone, Copy, Debug, PartialEq, Eq, Structural)]
pub struct CacheStats {
    pub hits: u64,
    pub misses: u64,
    pub entries: usize,
}

impl Default for CacheStats {
    fn default() -> (s: CacheStats)
        ensures
            s == (CacheStats { hits: 0, misses: 0, entries: 0 }),
    {
        CacheStats { hits: 0, misses: 0, entries: 0 }
    }
}

#[derive(Debug)]
struct Entry {
    key: CacheKey,
    completion: CachedCompletion,
    inserted_at: u128,
}

/// A cached answer by value: what it is filed under, what it is, and when
/// it was filed.
pub struct EntryView {
    pub key: KeyView,
    pub completion: CompletionView,
    pub inserted_at: u128,
}

/// The cache. Times are nanoseconds on one monotonic clock.
#[derive(Debug)]
pub struct ResponseCache {
    /// Least recently used first.
    entries: Vec<Entry>,
    max_entries: usize,
    ttl: u128,
    hits: u64,
    misses: u64,
}

/// An answer older than the time to live.
pub open spec fn is_expired(e: EntryView, ttl: u128, now: u128) -> bool {
    now > e.inserted_at && now - e.inserted_at > ttl
}

/// The answer for `key` is at `i`.
pub open spec fn filed_at(entries: Seq<EntryView>, key: KeyView, i: int) -> bool {
    0 <= i < entries.len() && entries[i].key == key
}

/// There is an answer for `key`.
pub open spec fn is_filed(entries: Seq<EntryView>, key: KeyView) -> bool {
    exists|i: int| filed_at(entries, key, i)
}

/// No key is filed twice.
pub open spec fn filed_once(entries: Seq<EntryView>) -> bool {
    forall|i: int, j: int| 0 <= i < j < entries.len() ==> (#[trigger] entries[i]).key != (#[trigger] entries[j]).key
}

/// How many answers are kept: always room for one.
pub open spec fn room(max_entries: int) -> int {
    if max_entries == 0 {
        1
    } else {
        max_entries
    }
}

/// What a lookup at time `now` finds, and what it leaves: an expired answer
/// goes, and one that is found becomes the most recently used.
pub open spec fn lookup(entries: Seq<EntryView>, key: KeyView, ttl: u128, now: u128) -> (
    Option<CompletionView>,
    Seq<EntryView>,
) {
    if !is_filed(entries, key) {
        (None, entries)
    } else {
        let i = choose|i: int| filed_at(entries, key, i);
        if is_expired(entries[i], ttl, now) {
            (None, entries.remove(i))
        } else {
            (Some(entries[i].completion), entries.remove(i).push(entries[i]))
        }
    }
}

/// What filing `e` makes of the answers.
pub open spec fn filing(entries: Seq<EntryView>, e: EntryView, capacity: int) -> Seq<EntryView> {
    if is_filed(entries, e.key) {
        entries.remove(choose|i: int| filed_at(entries, e.key, i)).push(e)
    } else if entries.len() >= capacity && entries.len() > 0 {
        entries.remove(0).push(e)
    } else {
        entries.push(e)
    }
}

impl View for ResponseCache {
    type V = Seq<EntryView>;

    /// The answers, least recently used first.
    closed spec fn view(&self) -> Seq<EntryView> {
        Seq::new(
            self.entries@.len(),
            |i: int|
                EntryView {
                    key: self.entries@[i].key@,
                    completion: self.entries@[i].completion@,
                    inserted_at: self.entries@[i].inserted_at,
                },
        )
    }
}

impl ResponseCache {
    /// Answers kept at most.
    pub closed spec fn capacity(&self) -> int {
        self.max_entries as int
    }

    /// How long an answer stays good.
    pub closed spec fn time_to_live(&self) -> u128 {
        self.ttl
    }

    /// Lookups answered from the cache.
    pub closed spec fn hit_count(&self) -> u64 {
        self.hits
    }

    /// Lookups that found nothing usable.
    pub closed spec fn miss_count(&self) -> u64 {
        self.misses
    }

    /// No key is filed twice, and the bound is kept.
    pub open spec fn wf(&self) -> bool {
        filed_once(self@) && self@.len() <= room(self.capacity())
    }

    /// The limits are the same.
    pub open spec fn same_limits(&self, other: &ResponseCache) -> bool {
        self.capacity() == other.capacity() && self.time_to_live() == other.time_to_live()
    }

    /// An empty cache.
    pub fn new(max_entries: usize, ttl: u128) -> (c: ResponseCache)
        ensures
            c.wf(),
            c@.len() == 0,
            c.capacity() == max_entries,
            c.time_to_live() == ttl,
            c.hit_count() == 0,
            c.miss_count() == 0,
    {
        ResponseCache { entries: Vec::new(), max_entries, ttl, hits: 0, misses: 0 }
    }

    fn find(&self, key: &CacheKey) -> (r: Option<usize>)
        ensures
            match r {
                Some(i) => filed_at(self@, key@, i as int),
                None => !is_filed(self@, key@),
            },
    {
        for i in 0usize..self.entries.len()
            invariant
                forall|k: int| 0 <= k < i ==> (#[trigger] self@[k]).key != key@,
        {
            if self.entries[i].key.same(key) {
                assert(filed_at(self@, key@, i as int));
                return Some(i);
            }
        }
        None
    }

    /// Looks `key` up at time `now`. An expired answer is evicted, not just
    /// skipped; a hit becomes the most recently used.
    pub fn get(&mut self, key: &CacheKey, now: u128) -> (r: Option<CachedCompletion>)
        requires
            old(self).wf(),
        ensures
            final(self).wf(),
            final(self).same_limits(old(self)),
            lookup(old(self)@, key@, old(self).time_to_live(), now) == (
                match r {
                    Some(c) => Some(c@),
                    None => None,
                },
                final(self)@,
            ),
            final(self).hit_count() == if r is Some {
                old(self).hit_count().wrapping_add(1)
            } else {
                old(self).hit_count()
            },
            final(self).miss_count() == if r is Some {
                old(self).miss_count()
            } else {
                old(self).miss_count().wrapping_add(1)
            },
    {
        let ghost before = self@;
        match self.find(key) {
            Some(i) => {
                proof {
                    assert forall|j: int| #[trigger] filed_at(before, key@, j) implies j == i by {
                        if j < i {
                            assert(before[j].key != before[i as int].key);
                        } else if i < j {
                            assert(before[i as int].key != before[j].key);
                        }
                    }
                }
                let entry: Entry = self.entries.remove(i);
                assert(self@ =~= before.remove(i as int));
                if now > entry.inserted_at && now - entry.inserted_at > self.ttl {
                    self.misses = self.misses.wrapping_add(1);
                    return None;
                }
                let found: CachedCompletion = entry.completion.copied();
                self.entries.push(entry);
                assert(self@ =~= before.remove(i as int).push(before[i as int]));
                self.hits = self.hits.wrapping_add(1);
                Some(found)
            },
            None => {
                self.misses = self.misses.wrapping_add(1);
                None
            },
        }
    }

    /// Files an answer at time `now`, in place of an earlier one for the
    /// same key. A full cache drops the least recently used answer first.
    pub fn put(&mut self, key: CacheKey, completion: CachedCompletion, now: u128)
        requires
            old(self).wf(),
        ensures
            final(self).wf(),
            final(self).same_limits(old(self)),
            final(self).hit_count() == old(self).hit_count(),
            final(self).miss_count() == old(self).miss_count(),
            final(self)@ == filing(
                old(self)@,
                EntryView { key: key@, completion: completion@, inserted_at: now },
                old(self).capacity(),
            ),
    {
        let ghost before = self@;
        let ghost e = EntryView { key: key@, completion: completion@, inserted_at: now };
        match self.find(&key) {
            Some(i) => {
                proof {
                    assert forall|j: int| #[trigger] filed_at(before, key@, j) implies j == i by {
                        if j < i {
                            assert(before[j].key != before[i as int].key);
                        } else if i < j {
                            assert(before[i as int].key != before[j].key);
                        }
                    }
                    assert forall|k: int| 0 <= k < before.len() && k != i implies (#[trigger] before[k]).key != key@ by {
                        assert(!filed_at(before, key@, k) || k == i);
                    }
                }
                let _old: Entry = self.entries.remove(i);
                assert(self@ =~= before.remove(i as int));
                self.entries.push(Entry { key, completion, inserted_at: now });
                assert(self@ =~= before.remove(i as int).push(e));
            },
            None => {
                proof {
                    assert forall|k: int| 0 <= k < before.len() implies (#[trigger] before[k]).key != key@ by {
                        assert(!filed_at(before, key@, k));
                    }
                }
                if self.entries.len() >= self.max_entries && self.entries.len() > 0 {
                    let _oldest: Entry = self.entries.remove(0);
                    assert(self@ =~= before.remove(0));
                    self.entries.push(Entry { key, completion, inserted_at: now });
                    assert(self@ =~= before.remove(0).push(e));
                } else {
                    self.entries.push(Entry { key, completion, inserted_at: now });
                    assert(self@ =~= before.push(e));
                }
            },
        }
    }

    /// The counters.
    pub fn stats(&self) -> (s: CacheStats)
        ensures
            s.hits == self.hit_count(),
            s.misses == self.miss_count(),
            s.entries == self@.len(),
    {
        CacheStats { hits: self.hits, misses: self.misses, entries: self.entries.len() }
    }
}

/// What was filed is found again until its time is up.
pub proof fn law_a_filed_answer_is_found(entries: Seq<EntryView>, e: EntryView, capacity: int, ttl: u128, now: u128)
    requires
        filed_once(entries),
    ensures
        lookup(filing(entries, e, capacity), e.key, ttl, now).0 == if is_expired(e, ttl, now) {
            None
        } else {
            Some(e.completion)
        },
{
    let after = filing(entries, e, capacity);
    let cut = choose|i: int| filed_at(entries, e.key, i);
    assert(filed_at(after, e.key, after.len() - 1));
    assert forall|j: int| #[trigger] filed_at(after, e.key, j) implies j == after.len() - 1 by {
        if j < after.len() - 1 {
            if is_filed(entries, e.key) {
                let k = if j < cut { j } else { j + 1 };
                assert(after[j] == entries[k]);
                if k < cut {
                    assert(entries[k].key != entries[cut].key);
                } else {
                    assert(entries[cut].key != entries[k].key);
                }
            } else {
                let k = if after == entries.push(e) { j } else { j + 1 };
                assert(after[j] == entries[k]);
                assert(filed_at(entries, e.key, k));
            }
        }
    }
}

/// Filing drops no answer but an earlier one for the same key or, where a
/// new key finds the cache full, the least recently used one.
pub proof fn law_filing_drops_only_the_least_recently_used(
    entries: Seq<EntryView>,
    e: EntryView,
    capacity: int,
    k: int,
)
    requires
        filed_once(entries),
        0 <= k < entries.len(),
        entries[k].key != e.key,
        k > 0 || is_filed(entries, e.key) || entries.len() < capacity,
    ensures
        filing(entries, e, capacity).contains(entries[k]),
{
    let after = filing(entries, e, capacity);
    if is_filed(entries, e.key) {
        let cut = choose|i: int| filed_at(entries, e.key, i);
        assert(after[if k < cut { k } else { k - 1 }] == entries[k]);
    } else if entries.len() >= capacity && entries.len() > 0 {
        assert(after[k - 1] == entries[k]);
    } else {
        assert(after[k] == entries[k]);
    }
}

/// A lookup disturbs no answer but the one it is for.
pub proof fn law_a_lookup_disturbs_no_other(entries: Seq<EntryView>, key: KeyView, ttl: u128, now: u128, k: int)
    requires
        filed_once(entries),
        0 <= k < entries.len(),
        entries[k].key != key,
    ensures
        lookup(entries, key, ttl, now).1.contains(entries[k]),
{
    let after = lookup(entries, key, ttl, now).1;
    if is_filed(entries, key) {
        let cut = choose|i: int| filed_at(entries, key, i);
        assert(after[if k < cut { k } else { k - 1 }] == entries[k]);
    } else {
        assert(after[k] == entries[k]);
    }
}

/// A lookup changes no answer: every one that is left is one that was there,
/// with its key, its completion and the time it was filed; and it takes away
/// none but the one it is for.
pub proof fn law_a_lookup_changes_no_answer(entries: Seq<EntryView>, key: KeyView, ttl: u128, now: u128, k: int)
    requires
        filed_once(entries),
        0 <= k < lookup(entries, key, ttl, now).1.len(),
    ensures
        exists|i: int|
            0 <= i < entries.len() && #[trigger] entries[i] == lookup(entries, key, ttl, now).1[k],
        lookup(entries, key, ttl, now).1.len() <= entries.len() <= lookup(entries, key, ttl, now).1.len() + 1,
{
    let after = lookup(entries, key, ttl, now).1;
    if is_filed(entries, key) {
        let cut = choose|i: int| filed_at(entries, key, i);
        if is_expired(entries[cut], ttl, now) || k < after.len() - 1 {
            let i = if k < cut { k } else { k + 1 };
            assert(entries[i] == after[k]);
        } else {
            assert(entries[cut] == after[k]);
        }
    } else {
        assert(entries[k] == after[k]);
    }
}

/// An answer is given exactly while it is no older than the time to live,
/// counted from when it was filed; an older one is gone afterwards.
pub proof fn law_an_answer_is_given_while_it_is_fresh(entries: Seq<EntryView>, i: int, ttl: u128, now: u128)
    requires
        filed_once(entries),
        0 <= i < entries.len(),
        now >= entries[i].inserted_at,
    ensures
        ({
            let e = entries[i];
            let (found, after) = lookup(entries, e.key, ttl, now);
            if now - e.inserted_at <= ttl {
                found == Some(e.completion) && after.len() == entries.len() && after.last() == e
            } else {
                found is None && after.len() == entries.len() - 1 && forall|k: int|
                    0 <= k < after.len() ==> (#[trigger] after[k]).key != e.key
            }
        }),
{
    let e = entries[i];
    assert(filed_at(entries, e.key, i));
    let cut = choose|j: int| filed_at(entries, e.key, j);
    assert(cut == i) by {
        if cut < i {
            assert(entries[cut].key != entries[i].key);
        } else if i < cut {
            assert(entries[i].key != entries[cut].key);
        }
    }
    let after = lookup(entries, e.key, ttl, now).1;
    if now - e.inserted_at > ttl {
        assert forall|k: int| 0 <= k < after.len() implies (#[trigger] after[k]).key != e.key by {
            if k < i {
                assert(entries[k].key != entries[i].key);
            } else {
                assert(entries[i].key != entries[k + 1].key);
            }
        }
    }
}

/// A key that nobody filed is answered with nothing, and nothing changes.
pub proof fn law_an_unknown_key_finds_nothing(entries: Seq<EntryView>, key: KeyView, ttl: u128, now: u128)
    requires
        forall|k: int| 0 <= k < entries.len() ==> (#[trigger] entries[k]).key != key,
    ensures
        lookup(entries, key, ttl, now).0 is None,
        lookup(entries, key, ttl, now).1 == entries,
{
    if is_filed(entries, key) {
        let i = choose|i: int| filed_at(entries, key, i);
        assert(entries[i].key == key);
    }
}

/// The answers of a cache after some lookups, one after the other.
pub open spec fn after_lookups(entries: Seq<EntryView>, asked: Seq<(KeyView, u128)>, ttl: u128) -> Seq<EntryView>
    decreases asked.len(),
{
    if asked.len() == 0 {
        entries
    } else {
        lookup(after_lookups(entries, asked.drop_last(), ttl), asked.last().0, ttl, asked.last().1).1
    }
}

/// However often an answer is asked for, it does not get younger: after any
/// lookups whatever is found was filed under that key, with that completion,
/// no longer ago than the time to live.
pub proof fn law_asking_does_not_keep_an_answer_alive(
    entries: Seq<EntryView>,
    asked: Seq<(KeyView, u128)>,
    key: KeyView,
    ttl: u128,
    now: u128,
)
    requires
        filed_once(entries),
    ensures
        filed_once(after_lookups(entries, asked, ttl)),
        forall|k: int|
            0 <= k < after_lookups(entries, asked, ttl).len() ==> entries.contains(
                #[trigger] after_lookups(entries, asked, ttl)[k],
            ),
        lookup(after_lookups(entries, asked, ttl), key, ttl, now).0 matches Some(c) ==> exists|i: int|
            0 <= i < entries.len() && (#[trigger] entries[i]).key == key && entries[i].completion == c && now
                - entries[i].inserted_at <= ttl,
    decreases asked.len(),
{
    let after = after_lookups(entries, asked, ttl);
    if asked.len() > 0 {
        law_asking_does_not_keep_an_answer_alive(entries, asked.drop_last(), key, ttl, now);
        let before = after_lookups(entries, asked.drop_last(), ttl);
        let (other, then) = asked.last();
        assert forall|k: int| 0 <= k < after.len() implies entries.contains(#[trigger] after[k]) by {
            law_a_lookup_changes_no_answer(before, other, ttl, then, k);
            let i = choose|i: int| 0 <= i < before.len() && #[trigger] before[i] == after[k];
            assert(entries.contains(before[i]));
        }
        lemma_lookup_files_once(before, other, ttl, then);
    } else {
        assert forall|k: int| 0 <= k < after.len() implies entries.contains(#[trigger] after[k]) by {
            assert(entries[k] == after[k]);
        }
    }
    if lookup(after, key, ttl, now).0 is Some {
        let j = choose|j: int| filed_at(after, key, j);
        let e = after[j];
        assert(entries.contains(e));
        let i = entries.index_of(e);
        assert(entries[i] == e);
    }
}

/// A lookup files nothing twice.
proof fn lemma_lookup_files_once(entries: Seq<EntryView>, key: KeyView, ttl: u128, now: u128)
    requires
        filed_once(entries),
    ensures
        filed_once(lookup(entries, key, ttl, now).1),
{
    let after = lookup(entries, key, ttl, now).1;
    if is_filed(entries, key) {
        let cut = choose|i: int| filed_at(entries, key, i);
        let n = entries.len() as int;
        assert forall|i: int, j: int| 0 <= i < j < after.len() implies (#[trigger] after[i]).key
            != (#[trigger] after[j]).key by {
            let p = if i < cut { i } else { i + 1 };
            let q = if j == n - 1 { cut } else if j < cut { j } else { j + 1 };
            assert(after[i] == entries[p]);
            assert(after[j] == entries[q]);
            if p < q {
                assert(entries[p].key != entries[q].key);
            } else {
                assert(entries[q].key != entries[p].key);
            }
        }
    }
}

/// Filing puts the answer in, exactly as it was handed over, as the most
/// recently used; every other answer that is left is one that was there.
pub proof fn law_filing_changes_no_other_answer(entries: Seq<EntryView>, e: EntryView, capacity: int, k: int)
    requires
        filed_once(entries),
        0 <= k < filing(entries, e, capacity).len() - 1,
    ensures
        filing(entries, e, capacity).last() == e,
        exists|i: int| 0 <= i < entries.len() && #[trigger] entries[i] == filing(entries, e, capacity)[k],
        filing(entries, e, capacity)[k].key != e.key,
{
    let after = filing(entries, e, capacity);
    if is_filed(entries, e.key) {
        let cut = choose|i: int| filed_at(entries, e.key, i);
        let i = if k < cut { k } else { k + 1 };
        assert(entries[i] == after[k]);
        if i < cut {
            assert(entries[i].key != entries[cut].key);
        } else {
            assert(entries[cut].key != entries[i].key);
        }
    } else {
        let i = if after.len() == entries.len() + 1 { k } else { k + 1 };
        assert(entries[i] == after[k]);
        assert(!filed_at(entries, e.key, i));
    }
}

/// A new key makes a cache with room one longer, and leaves a full one as
/// long as it was; filing under a known key changes no count.
pub proof fn law_filing_keeps_to_the_bound(entries: Seq<EntryView>, e: EntryView, max_entries: int)
    requires
        filed_once(entries),
        0 <= max_entries,
        entries.len() <= if max_entries > 1 { max_entries } else { 1 },
    ensures
        ({
            let n = filing(entries, e, max_entries).len();
            let known = exists|i: int| 0 <= i < entries.len() && (#[trigger] entries[i]).key == e.key;
            &&& n <= if max_entries > 1 { max_entries } else { 1 }
            &&& known ==> n == entries.len()
            &&& !known && entries.len() < max_entries ==> n == entries.len() + 1
            &&& !known && entries.len() >= max_entries && entries.len() > 0 ==> n == entries.len()
            &&& room(max_entries) == if max_entries > 1 { max_entries } else { 1 }
        }),
{
    if is_filed(entries, e.key) {
        let i = choose|i: int| filed_at(entries, e.key, i);
        assert(entries[i].key == e.key);
    } else {
        assert forall|i: int| 0 <= i < entries.len() implies (#[trigger] entries[i]).key != e.key by {
            assert(!filed_at(entries, e.key, i));
        }
    }
}

/// Two keys are the same exactly when every part of them is: the model, the
/// prompt, the seed as it was asked for, and every setting of the generation.
pub proof fn law_keys_are_the_same_part_by_part(a: CacheKey, b: CacheKey)
    ensures
        a@ == b@ <==> {
            let (g, h) = (a.generation, b.generation);
            let (s, t) = (g.sampling, h.sampling);
            &&& a.model@ == b.model@
            &&& a.prompt@ == b.prompt@
            &&& a.seed == b.seed
            &&& g.max_tokens == h.max_tokens
            &&& g.stop@.len() == h.stop@.len()
            &&& forall|i: int| 0 <= i < g.stop@.len() ==> (#[trigger] g.stop@[i])@ == h.stop@[i]@
            &&& g.stop_token_ids@ == h.stop_token_ids@
            &&& g.json_object == h.json_object
            &&& match (g.grammar, h.grammar) {
                (Some(x), Some(y)) => x.0@ == y.0@,
                (None, None) => true,
                _ => false,
            }
            &&& g.ignore_eos == h.ignore_eos
            &&& s.temperature_bits == t.temperature_bits
            &&& s.top_p_bits == t.top_p_bits
            &&& s.min_p_bits == t.min_p_bits
            &&& s.top_k == t.top_k
            &&& s.repetition_penalty_bits == t.repetition_penalty_bits
            &&& s.penalty_last_n == t.penalty_last_n
            &&& s.presence_penalty_bits == t.presence_penalty_bits
            &&& s.frequency_penalty_bits == t.frequency_penalty_bits
            &&& s.sampler_order@ == t.sampler_order@
        },
{
    let (g, h) = (a.generation, b.generation);
    if a@ == b@ {
        assert(texts(g.stop@) == texts(h.stop@));
        assert(texts(g.stop@).len() == g.stop@.len() && texts(h.stop@).len() == h.stop@.len());
        assert forall|i: int| 0 <= i < g.stop@.len() implies (#[trigger] g.stop@[i])@ == h.stop@[i]@ by {
            assert(texts(g.stop@)[i] == texts(h.stop@)[i]);
        }
    }
    if g.stop@.len() == h.stop@.len() && forall|i: int|
        0 <= i < g.stop@.len() ==> (#[trigger] g.stop@[i])@ == h.stop@[i]@ {
        assert(texts(g.stop@) =~= texts(h.stop@));
    }
}

/// A key carries a generation's settings as they are.
pub proof fn law_a_key_carries_its_settings(p: GenerationParams)
    ensures
        ({
            let g = generation_of(p);
            &&& g.max_tokens == p.max_tokens
            &&& g.stop == texts(p.stop@)
            &&& g.stop_token_ids == p.stop_token_ids@
            &&& g.json_object == p.json_object
            &&& g.grammar == text_of(p.grammar)
            &&& g.ignore_eos == p.ignore_eos
            &&& g.sampling.temperature_bits == p.sampling.temperature_bits
            &&& g.sampling.top_p_bits == p.sampling.top_p_bits
            &&& g.sampling.min_p_bits == p.sampling.min_p_bits
            &&& g.sampling.top_k == p.sampling.top_k
            &&& g.sampling.repetition_penalty_bits == p.sampling.repetition_penalty_bits
            &&& g.sampling.penalty_last_n == p.sampling.penalty_last_n
            &&& g.sampling.presence_penalty_bits == p.sampling.presence_penalty_bits
            &&& g.sampling.frequency_penalty_bits == p.sampling.frequency_penalty_bits
            &&& g.sampling.sampler_order == p.sampling.sampler_order@
        }),
{
}

/// A cached completion is seen as it is.
pub proof fn law_a_completion_is_seen_whole(c: CachedCompletion)
    ensures
        c@.content == c.content@,
        c@.finish == c.finish,
        c@.usage == c.usage,
{
}

/// A clock that reads earlier than an answer was filed finds it too.
pub proof fn law_an_answer_from_later_is_found(entries: Seq<EntryView>, i: int, ttl: u128, now: u128)
    requires
        filed_once(entries),
        0 <= i < entries.len(),
        now < entries[i].inserted_at,
    ensures
        lookup(entries, entries[i].key, ttl, now).0 == Some(entries[i].completion),
{
    let e = entries[i];
    assert(filed_at(entries, e.key, i));
    let cut = choose|j: int| filed_at(entries, e.key, j);
    if cut < i {
        assert(entries[cut].key != entries[i].key);
    } else if i < cut {
        assert(entries[i].key != entries[cut].key);
    }
}

/// What is filed is the most recently used, and those that stay keep their
/// order; a lookup keeps the order of all the others.
pub proof fn law_the_order_of_use_is_kept(
    entries: Seq<EntryView>,
    e: EntryView,
    capacity: int,
    ttl: u128,
    now: u128,
    i: int,
    j: int,
)
    requires
        filed_once(entries),
        0 <= i < j < entries.len(),
        entries[i].key != e.key,
        entries[j].key != e.key,
    ensures
        filing(entries, e, capacity).last() == e,
        exists|p: int, q: int|
            #![trigger lookup(entries, e.key, ttl, now).1[p], lookup(entries, e.key, ttl, now).1[q]]
            0 <= p < q < lookup(entries, e.key, ttl, now).1.len() && lookup(entries, e.key, ttl, now).1[p] == entries[i]
                && lookup(entries, e.key, ttl, now).1[q] == entries[j],
        i > 0 || is_filed(entries, e.key) || entries.len() < capacity ==> exists|p: int, q: int|
            #![trigger filing(entries, e, capacity)[p], filing(entries, e, capacity)[q]]
            0 <= p < q < filing(entries, e, capacity).len() && filing(entries, e, capacity)[p] == entries[i] && filing(
                entries,
                e,
                capacity,
            )[q] == entries[j],
{
    let (looked, filed) = (lookup(entries, e.key, ttl, now).1, filing(entries, e, capacity));
    if is_filed(entries, e.key) {
        let cut = choose|k: int| filed_at(entries, e.key, k);
        let p = if i < cut { i } else { i - 1 };
        let q = if j < cut { j } else { j - 1 };
        assert(looked[p] == entries[i] && looked[q] == entries[j]);
        assert(filed[p] == entries[i] && filed[q] == entries[j]);
    } else {
        assert(looked[i] == entries[i] && looked[j] == entries[j]);
        if entries.len() >= capacity {
            if i > 0 {
                assert(filed[i - 1] == entries[i] && filed[j - 1] == entries[j]);
            }
        } else {
            assert(filed[i] == entries[i] && filed[j] == entries[j]);
        }
    }
}

/// A full cache that takes a new key lets go of the least recently used
/// answer, and an answer that is filed is always the last.
pub proof fn law_a_full_cache_lets_the_oldest_go(entries: Seq<EntryView>, e: EntryView, capacity: int)
    ensures
        filing(entries, e, capacity).len() > 0,
        filing(entries, e, capacity).last() == e,
        entries.len() >= capacity && entries.len() > 0 && (forall|k: int|
            0 <= k < entries.len() ==> (#[trigger] entries[k]).key != e.key) ==> filing(entries, e, capacity)
            == entries.skip(1).push(e),
        entries.len() < capacity && (forall|k: int|
            0 <= k < entries.len() ==> (#[trigger] entries[k]).key != e.key) ==> filing(entries, e, capacity)
            == entries.push(e),
{
    if is_filed(entries, e.key) {
        let i = choose|i: int| filed_at(entries, e.key, i);
        assert(entries[i].key == e.key);
    }
    if entries.len() > 0 {
        assert(entries.remove(0) =~= entries.skip(1));
    }
}

/// A number is fed as eight bytes and raw bits as four, the lowest byte
/// first; a text as its bytes and one more that no text holds.
pub proof fn law_pieces_are_fed_low_byte_first(n: u64, m: u32, t: Seq<char>)
    ensures
        number(n).len() == 8,
        number(n)[0] == n % 256,
        number(n)[1] == (n / 256) % 256,
        number(n)[2] == (n / 256 / 256) % 256,
        number(n)[3] == (n / 256 / 256 / 256) % 256,
        number(n)[4] == (n / 256 / 256 / 256 / 256) % 256,
        number(n)[5] == (n / 256 / 256 / 256 / 256 / 256) % 256,
        number(n)[6] == (n / 256 / 256 / 256 / 256 / 256 / 256) % 256,
        number(n)[7] == (n / 256 / 256 / 256 / 256 / 256 / 256 / 256) % 256,
        bits(m).len() == 4,
        bits(m)[0] == m % 256,
        bits(m)[1] == (m / 256) % 256,
        bits(m)[2] == (m / 256 / 256) % 256,
        bits(m)[3] == (m / 256 / 256 / 256) % 256,
        ended(t) == encode_utf8(t).push(0xff),
        flag(true) == seq![1u8],
        flag(false) == seq![0u8],
        optional(None) == number(0),
        optional(Some(t)) == number(1) + ended(t),
        optional_number(None) == number(0),
        optional_number(Some(n)) == number(1) + number(n),
{
    reveal_with_fuel(low_first, 9);
    assert(ended(t) =~= encode_utf8(t).push(0xff));
}

/// Lists are fed piece by piece in their order.
pub proof fn law_lists_are_fed_in_order(l: Seq<Seq<char>>, t: Seq<char>, ids: Seq<usize>, id: usize)
    ensures
        each_ended(Seq::empty()) == Seq::<u8>::empty(),
        each_ended(l.push(t)) == each_ended(l) + ended(t),
        each_number(Seq::empty()) == Seq::<u8>::empty(),
        each_number(ids.push(id)) == each_number(ids) + number(id as u64),
        chain_fed(OrderView::Default) == Seq::<u8>::empty(),
        chain_fed(OrderView::Chain(t)) == ended(t),
    decreases l.len(), ids.len(),
{
    lemma_each_ended_push(l, t);
    lemma_each_number_push(ids, id);
}

proof fn lemma_each_ended_push(l: Seq<Seq<char>>, t: Seq<char>)
    ensures
        each_ended(l.push(t)) == each_ended(l) + ended(t),
    decreases l.len(),
{
    let more = l.push(t);
    if l.len() == 0 {
        assert(more.skip(1) =~= Seq::empty());
        assert(each_ended(more.skip(1)) =~= Seq::empty());
        assert(each_ended(more) =~= each_ended(l) + ended(t));
    } else {
        lemma_each_ended_push(l.skip(1), t);
        assert(more.skip(1) =~= l.skip(1).push(t));
        assert(more[0] == l[0]);
        assert(each_ended(more) =~= each_ended(l) + ended(t));
    }
}

proof fn lemma_each_number_push(ids: Seq<usize>, id: usize)
    ensures
        each_number(ids.push(id)) == each_number(ids) + number(id as u64),
    decreases ids.len(),
{
    let more = ids.push(id);
    if ids.len() == 0 {
        assert(more.skip(1) =~= Seq::empty());
        assert(each_number(more.skip(1)) =~= Seq::empty());
        assert(each_number(more) =~= each_number(ids) + number(id as u64));
    } else {
        lemma_each_number_push(ids.skip(1), id);
        assert(more.skip(1) =~= ids.skip(1).push(id));
        assert(more[0] == ids[0]);
        assert(each_number(more) =~= each_number(ids) + number(id as u64));
    }
}

/// The order in which a key is fed: the model, the prompt, the budget, the
/// eight numbers of the sampling, the stop strings and the stop tokens behind
/// their counts, the flags around the grammar, the seed, and last a sampler
/// chain that was spelled out.
pub proof fn law_a_key_is_fed_in_order(k: KeyView)
    ensures
        ({
            let g = k.generation;
            let s = g.sampling;
            fed(k) == ended(k.model) + ended(k.prompt) + number(g.max_tokens as u64) + bits(s.temperature_bits) + bits(
                s.top_p_bits,
            ) + bits(s.min_p_bits) + number(s.top_k as u64) + bits(s.repetition_penalty_bits) + number(
                s.penalty_last_n as u64,
            ) + bits(s.presence_penalty_bits) + bits(s.frequency_penalty_bits) + number(g.stop.len() as u64)
                + each_ended(g.stop) + number(g.stop_token_ids.len() as u64) + each_number(g.stop_token_ids) + flag(
                g.json_object,
            ) + optional(g.grammar) + flag(g.ignore_eos) + optional_number(k.seed) + chain_fed(s.sampler_order)
        }),
{
    broadcast use lemma_put_together;
}

/// Every lookup is counted once: as a hit where it found an answer, as a miss
/// where it found none. The counts start over once they are full.
pub proof fn law_a_lookup_is_counted_once(
    c: &mut ResponseCache,
    key: &CacheKey,
    now: u128,
    r: Option<CachedCompletion>,
    before: CacheStats,
    after: CacheStats,
)
    requires
        call_ensures(ResponseCache::get, (c, key, now), r),
        call_ensures(ResponseCache::stats, (&*old(c),), before),
        call_ensures(ResponseCache::stats, (&*final(c),), after),
    ensures
        r is Some ==> after.hits == (before.hits + 1) % 0x1_0000_0000_0000_0000 && after.misses == before.misses
            && after.entries == before.entries,
        r is None ==> after.hits == before.hits && after.misses == (before.misses + 1) % 0x1_0000_0000_0000_0000
            && after.entries <= before.entries,
{
    if is_filed(old(c)@, key@) {
        assert(filed_at(old(c)@, key@, choose|i: int| filed_at(old(c)@, key@, i)));
    }
}

/// An answer that was just filed is found by the same key until it has aged
/// past its time to live.
pub proof fn law_an_answer_is_found_under_its_key(
    c: &mut ResponseCache,
    key: CacheKey,
    completion: CachedCompletion,
    filed: u128,
    u: (),
    d: &mut ResponseCache,
    asked: &CacheKey,
    now: u128,
    r: Option<CachedCompletion>,
)
    requires
        old(c).wf(),
        call_ensures(ResponseCache::put, (c, key, completion, filed), u),
        *old(d) == *final(c),
        asked@ == key@,
        now <= filed || now - filed <= old(c).time_to_live(),
        call_ensures(ResponseCache::get, (d, asked, now), r),
    ensures
        r is Some,
        r->0@ == completion@,
{
    let e = EntryView { key: key@, completion: completion@, inserted_at: filed };
    law_a_filed_answer_is_found(old(c)@, e, old(c).capacity(), old(c).time_to_live(), now);
}

/// Two keys are the same exactly when every part of what was asked is; a copy
/// is the same as what it was made of, and so has the same digest.
pub proof fn law_a_copied_key_is_the_same(a: &CacheKey, b: &CacheKey, c: CacheKey, same: bool, one: String, two: String)
    requires
        call_ensures(CacheKey::copied, (a,), c),
        *b == c,
        call_ensures(CacheKey::same, (a, b), same),
        call_ensures(CacheKey::digest, (a,), one),
        call_ensures(CacheKey::digest, (b,), two),
    ensures
        same,
        one@ == two@,
        one@.len() == 16,
{
    crate::text::law_hex_digits(DefaultHasher::spec_finish(seq![fed(a@)]) as nat, 16);
}

} // verus!
