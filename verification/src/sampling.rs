//! Sampler settings: what a request may say, and what each setting means
//! when it says nothing.
//!
//! Floating-point settings are carried as raw f32 bits. Nothing here does
//! arithmetic on them: they are filled in, compared for identity and handed
//! on.
use vstd::prelude::*;
use vstd::string::StringExecFns;

verus! {

/// How many recent tokens the repetition, presence and frequency penalties
/// look at when a request does not say.
pub const DEFAULT_PENALTY_LAST_N: usize = 64;

/// The bits of `0.0f32`.
pub const F32_ZERO_BITS: u32 = 0;

/// The bits of `1.0f32`.
pub const F32_ONE_BITS: u32 = 0x3f80_0000;

/// The order the sampler chain runs in.
#[derive(Debug)]
pub enum SamplerOrder {
    /// The chain that runs when nothing else was asked for.
    Default,
    /// A chain spelled out by the request, already validated.
    Chain(String),
}

/// A [`SamplerOrder`] by value.
pub enum OrderView {
    Default,
    Chain(Seq<char>),
}

impl View for SamplerOrder {
    type V = OrderView;

    open spec fn view(&self) -> OrderView {
        match self {
            SamplerOrder::Default => OrderView::Default,
            SamplerOrder::Chain(s) => OrderView::Chain(s@),
        }
    }
}

impl SamplerOrder {
    /// The same order again.
    pub fn copied(&self) -> (r: SamplerOrder)
        ensures
            r@ == self@,
    {
        match self {
            SamplerOrder::Default => SamplerOrder::Default,
            SamplerOrder::Chain(s) => SamplerOrder::Chain(s.clone()),
        }
    }

    /// Whether both name the same chain.
    pub fn same(&self, other: &SamplerOrder) -> (r: bool)
        ensures
            r == (self@ == other@),
    {
        match (self, other) {
            (SamplerOrder::Default, SamplerOrder::Default) => true,
            (SamplerOrder::Chain(a), SamplerOrder::Chain(b)) => *a == *b,
            _ => false,
        }
    }

    /// The chain's text, as far as one was spelled out.
    pub fn text(&self) -> (r: Option<String>)
        ensures
            r is Some <==> self@ is Chain,
            r is Some ==> self@ == OrderView::Chain(r->0@),
    {
        match self {
            SamplerOrder::Default => None,
            SamplerOrder::Chain(s) => Some(s.clone()),
        }
    }
}

/// A resolved sampling configuration.
#[derive(Debug)]
pub struct SamplingParams {
    pub temperature_bits: u32,
    pub top_p_bits: u32,
    pub min_p_bits: u32,
    pub top_k: usize,
    pub repetition_penalty_bits: u32,
    pub penalty_last_n: usize,
    pub presence_penalty_bits: u32,
    pub frequency_penalty_bits: u32,
    pub sampler_order: SamplerOrder,
}

/// Greedy decoding with every filter off.
pub open spec fn is_baseline(p: SamplingParams) -> bool {
    &&& p.temperature_bits == F32_ZERO_BITS
    &&& p.top_p_bits == F32_ONE_BITS
    &&& p.min_p_bits == F32_ZERO_BITS
    &&& p.top_k == 0
    &&& p.repetition_penalty_bits == F32_ONE_BITS
    &&& p.penalty_last_n == DEFAULT_PENALTY_LAST_N
    &&& p.presence_penalty_bits == F32_ZERO_BITS
    &&& p.frequency_penalty_bits == F32_ZERO_BITS
    &&& p.sampler_order@ == OrderView::Default
}

impl Default for SamplingParams {
    fn default() -> (p: SamplingParams)
        ensures
            is_baseline(p),
    {
        SamplingParams {
            temperature_bits: F32_ZERO_BITS,
            top_p_bits: F32_ONE_BITS,
            min_p_bits: F32_ZERO_BITS,
            top_k: 0,
            repetition_penalty_bits: F32_ONE_BITS,
            penalty_last_n: DEFAULT_PENALTY_LAST_N,
            presence_penalty_bits: F32_ZERO_BITS,
            frequency_penalty_bits: F32_ZERO_BITS,
            sampler_order: SamplerOrder::Default,
        }
    }
}

/// One request's sampler knobs, each `None` when the caller said nothing
/// about it.
#[derive(Debug)]
pub struct SamplingKnobs {
    pub temperature_bits: Option<u32>,
    pub top_p_bits: Option<u32>,
    pub min_p_bits: Option<u32>,
    pub top_k: Option<usize>,
    pub repetition_penalty_bits: Option<u32>,
    pub presence_penalty_bits: Option<u32>,
    pub frequency_penalty_bits: Option<u32>,
    pub penalty_last_n: Option<usize>,
    pub sampler_order: Option<SamplerOrder>,
}

/// What a knob resolves to.
pub open spec fn or_default<T>(asked: Option<T>, default: T) -> T {
    match asked {
        Some(v) => v,
        None => default,
    }
}

/// Every gap is filled with the default, and every setting is kept.
pub open spec fn resolves(knobs: SamplingKnobs, p: SamplingParams) -> bool {
    &&& p.temperature_bits == or_default(knobs.temperature_bits, F32_ZERO_BITS)
    &&& p.top_p_bits == or_default(knobs.top_p_bits, F32_ONE_BITS)
    &&& p.min_p_bits == or_default(knobs.min_p_bits, F32_ZERO_BITS)
    &&& p.top_k == or_default(knobs.top_k, 0)
    &&& p.repetition_penalty_bits == or_default(knobs.repetition_penalty_bits, F32_ONE_BITS)
    &&& p.penalty_last_n == or_default(knobs.penalty_last_n, DEFAULT_PENALTY_LAST_N)
    &&& p.presence_penalty_bits == or_default(knobs.presence_penalty_bits, F32_ZERO_BITS)
    &&& p.frequency_penalty_bits == or_default(knobs.frequency_penalty_bits, F32_ZERO_BITS)
    &&& p.sampler_order@ == (match knobs.sampler_order {
        Some(o) => o@,
        None => OrderView::Default,
    })
}

impl SamplingKnobs {
    /// A request that said nothing about sampling.
    pub open spec fn says_nothing(&self) -> bool {
        &&& self.temperature_bits is None
        &&& self.top_p_bits is None
        &&& self.min_p_bits is None
        &&& self.top_k is None
        &&& self.repetition_penalty_bits is None
        &&& self.presence_penalty_bits is None
        &&& self.frequency_penalty_bits is None
        &&& self.penalty_last_n is None
        &&& self.sampler_order is None
    }

    /// Fills every gap the request left with the default, and keeps every
    /// setting it made.
    pub fn resolve(&self) -> (p: SamplingParams)
        ensures
            resolves(*self, p),
    {
        SamplingParams {
            temperature_bits: self.temperature_bits.unwrap_or(F32_ZERO_BITS),
            top_p_bits: self.top_p_bits.unwrap_or(F32_ONE_BITS),
            min_p_bits: self.min_p_bits.unwrap_or(F32_ZERO_BITS),
            top_k: self.top_k.unwrap_or(0),
            repetition_penalty_bits: self.repetition_penalty_bits.unwrap_or(F32_ONE_BITS),
            penalty_last_n: self.penalty_last_n.unwrap_or(DEFAULT_PENALTY_LAST_N),
            presence_penalty_bits: self.presence_penalty_bits.unwrap_or(F32_ZERO_BITS),
            frequency_penalty_bits: self.frequency_penalty_bits.unwrap_or(F32_ZERO_BITS),
            sampler_order: match &self.sampler_order {
                Some(o) => o.copied(),
                None => SamplerOrder::Default,
            },
        }
    }
}

impl Default for SamplingKnobs {
    fn default() -> (k: SamplingKnobs)
        ensures
            k.says_nothing(),
    {
        SamplingKnobs {
            temperature_bits: None,
            top_p_bits: None,
            min_p_bits: None,
            top_k: None,
            repetition_penalty_bits: None,
            presence_penalty_bits: None,
            frequency_penalty_bits: None,
            penalty_last_n: None,
            sampler_order: None,
        }
    }
}

/// A request that says nothing samples exactly as the baseline does.
pub proof fn law_saying_nothing_is_the_baseline(knobs: SamplingKnobs, p: SamplingParams)
    requires
        knobs.says_nothing(),
        resolves(knobs, p),
    ensures
        is_baseline(p),
{
}

/// Every setting a request names is the setting it samples with.
pub proof fn law_a_named_setting_is_kept(knobs: SamplingKnobs, p: SamplingParams)
    requires
        resolves(knobs, p),
    ensures
        knobs.temperature_bits matches Some(v) ==> p.temperature_bits == v,
        knobs.top_p_bits matches Some(v) ==> p.top_p_bits == v,
        knobs.min_p_bits matches Some(v) ==> p.min_p_bits == v,
        knobs.top_k matches Some(v) ==> p.top_k == v,
        knobs.repetition_penalty_bits matches Some(v) ==> p.repetition_penalty_bits == v,
        knobs.presence_penalty_bits matches Some(v) ==> p.presence_penalty_bits == v,
        knobs.frequency_penalty_bits matches Some(v) ==> p.frequency_penalty_bits == v,
        knobs.penalty_last_n matches Some(v) ==> p.penalty_last_n == v,
        knobs.sampler_order matches Some(SamplerOrder::Chain(c)) ==> p.sampler_order matches SamplerOrder::Chain(d)
            && c@ == d@,
        knobs.sampler_order matches Some(SamplerOrder::Default) ==> p.sampler_order is Default,
{
}

/// Every setting a request leaves open is off: greedy, no filter, no penalty,
/// a window of 64 tokens, and the chain that always ran.
pub proof fn law_an_open_setting_is_off(knobs: SamplingKnobs, p: SamplingParams)
    requires
        resolves(knobs, p),
    ensures
        knobs.temperature_bits is None ==> p.temperature_bits == 0,
        knobs.top_p_bits is None ==> p.top_p_bits == 0x3f80_0000,
        knobs.min_p_bits is None ==> p.min_p_bits == 0,
        knobs.top_k is None ==> p.top_k == 0,
        knobs.repetition_penalty_bits is None ==> p.repetition_penalty_bits == 0x3f80_0000,
        knobs.presence_penalty_bits is None ==> p.presence_penalty_bits == 0,
        knobs.frequency_penalty_bits is None ==> p.frequency_penalty_bits == 0,
        knobs.penalty_last_n is None ==> p.penalty_last_n == 64,
        knobs.sampler_order is None ==> p.sampler_order is Default,
{
}

/// Asking for exactly what was resolved before resolves to the same again.
pub proof fn law_resolving_again_changes_nothing(knobs: SamplingKnobs, p: SamplingParams, q: SamplingParams)
    requires
        knobs.temperature_bits == Some(p.temperature_bits),
        knobs.top_p_bits == Some(p.top_p_bits),
        knobs.min_p_bits == Some(p.min_p_bits),
        knobs.top_k == Some(p.top_k),
        knobs.repetition_penalty_bits == Some(p.repetition_penalty_bits),
        knobs.presence_penalty_bits == Some(p.presence_penalty_bits),
        knobs.frequency_penalty_bits == Some(p.frequency_penalty_bits),
        knobs.penalty_last_n == Some(p.penalty_last_n),
        knobs.sampler_order == Some(p.sampler_order),
        resolves(knobs, q),
    ensures
        q.temperature_bits == p.temperature_bits,
        q.top_p_bits == p.top_p_bits,
        q.min_p_bits == p.min_p_bits,
        q.top_k == p.top_k,
        q.repetition_penalty_bits == p.repetition_penalty_bits,
        q.presence_penalty_bits == p.presence_penalty_bits,
        q.frequency_penalty_bits == p.frequency_penalty_bits,
        q.penalty_last_n == p.penalty_last_n,
        q.sampler_order@ == p.sampler_order@,
{
}

/// The baseline is greedy with every filter and every penalty off, and the
/// knobs that say nothing are all open.
pub proof fn law_the_baseline_is_plain_greedy(p: SamplingParams, knobs: SamplingKnobs)
    ensures
        is_baseline(p) <==> p.temperature_bits == 0 && p.top_p_bits == 0x3f80_0000 && p.min_p_bits == 0 && p.top_k == 0
            && p.repetition_penalty_bits == 0x3f80_0000 && p.penalty_last_n == 64 && p.presence_penalty_bits == 0
            && p.frequency_penalty_bits == 0 && p.sampler_order is Default,
        knobs.says_nothing() <==> knobs.temperature_bits is None && knobs.top_p_bits is None && knobs.min_p_bits is None
            && knobs.top_k is None && knobs.repetition_penalty_bits is None && knobs.presence_penalty_bits is None
            && knobs.frequency_penalty_bits is None && knobs.penalty_last_n is None && knobs.sampler_order is None,
{
}

/// Two orders are the same exactly when both are the default or both spell
/// the same chain.
pub proof fn law_orders_differ_by_their_text(a: SamplerOrder, b: SamplerOrder)
    ensures
        a@ == b@ <==> match (a, b) {
            (SamplerOrder::Default, SamplerOrder::Default) => true,
            (SamplerOrder::Chain(c), SamplerOrder::Chain(d)) => c@ == d@,
            _ => false,
        },
{
}

/// Resolving keeps every knob that was set, and leaves every other one off.
pub proof fn law_resolving_keeps_what_was_asked(knobs: &SamplingKnobs, p: SamplingParams)
    requires
        call_ensures(SamplingKnobs::resolve, (knobs,), p),
    ensures
        p.temperature_bits == (match knobs.temperature_bits {
            Some(v) => v,
            None => 0,
        }),
        p.top_p_bits == (match knobs.top_p_bits {
            Some(v) => v,
            None => 0x3f80_0000,
        }),
        p.min_p_bits == (match knobs.min_p_bits {
            Some(v) => v,
            None => 0,
        }),
        p.top_k == (match knobs.top_k {
            Some(v) => v,
            None => 0,
        }),
        p.repetition_penalty_bits == (match knobs.repetition_penalty_bits {
            Some(v) => v,
            None => 0x3f80_0000,
        }),
        p.penalty_last_n == (match knobs.penalty_last_n {
            Some(v) => v,
            None => 64,
        }),
        p.presence_penalty_bits == (match knobs.presence_penalty_bits {
            Some(v) => v,
            None => 0,
        }),
        p.frequency_penalty_bits == (match knobs.frequency_penalty_bits {
            Some(v) => v,
            None => 0,
        }),
        knobs.sampler_order is Some ==> p.sampler_order@ == knobs.sampler_order->0@,
        knobs.sampler_order is None ==> p.sampler_order is Default,
{
}

} // verus!
