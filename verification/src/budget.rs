//! One answer to "does this request fit", and what the loaded model leaves
//! room for.
use vstd::prelude::*;
use vstd::string::StringExecFns;
use crate::batch::config::BatcherConfig;
use crate::batch::ledger::is_budget_refusal;
use crate::generate::DecodeError;
use crate::text::{decimal, decimal_chars};

verus! {

/// Which immovable ceiling bound a request.
#[derive(Clone, Copy, Debug, PartialEq, Eq, Structural)]
pub enum Ceiling {
    /// More positions than any one request may ask for.
    ContextLength,
    /// More memory than the device has for KV at all.
    DeviceMemory,
}

impl Ceiling {
    /// The wire code of the ceiling.
    pub fn code(&self) -> (c: &'static str)
        ensures
            c@ == (match *self {
                Ceiling::ContextLength => "context_length_exceeded"@,
                Ceiling::DeviceMemory => "device_memory_budget_exceeded"@,
            }),
    {
        match self {
            Ceiling::ContextLength => "context_length_exceeded",
            Ceiling::DeviceMemory => "device_memory_budget_exceeded",
        }
    }
}

/// What the refusal of a request past the context ceiling says.
pub open spec fn context_detail(positions: int, limit: int) -> Seq<char> {
    "request asks for "@ + decimal_chars(positions as nat)
        + " token positions (prompt + max_tokens) but this deployment admits "@ + decimal_chars(limit as nat)
        + " per request; shorten the prompt or lower max_tokens"@
}

/// What the refusal of a prompt at or past the context ceiling says.
pub open spec fn prompt_detail(tokens: int, limit: int) -> Seq<char> {
    "prompt is too long: "@ + decimal_chars(tokens as nat) + " tokens > "@ + decimal_chars(limit as nat)
        + " maximum"@
}

/// The text of [`context_detail`].
pub fn context_detail_text(positions: usize, limit: usize) -> (s: String)
    ensures
        s@ == context_detail(positions as int, limit as int),
{
    let mut s: String = "request asks for ".to_owned();
    s.append(decimal(positions as u64).as_str());
    s.append(" token positions (prompt + max_tokens) but this deployment admits ");
    s.append(decimal(limit as u64).as_str());
    s.append(" per request; shorten the prompt or lower max_tokens");
    s
}

/// The output budget left under a ceiling.
pub open spec fn clamped(limit: Option<usize>, prompt_tokens: int, max_tokens: int) -> int {
    match limit {
        Some(l) => if prompt_tokens + max_tokens <= l {
            max_tokens
        } else if prompt_tokens <= l {
            l - prompt_tokens
        } else {
            0
        },
        None => max_tokens,
    }
}

/// A prompt that fits by itself always leaves room for output, and with the
/// budget clamped the whole request fits.
pub proof fn law_a_servable_prompt_is_served(limit: usize, prompt_tokens: int, max_tokens: int)
    requires
        0 <= prompt_tokens < limit,
        max_tokens > 0,
    ensures
        clamped(Some(limit), prompt_tokens, max_tokens) > 0,
        clamped(Some(limit), prompt_tokens, max_tokens) <= max_tokens,
        prompt_tokens + clamped(Some(limit), prompt_tokens, max_tokens) <= limit,
{
}

/// The per-request context ceiling, shared by every decode path. Positions
/// are prompt plus `max_tokens`; prices are what positions cost in KV bytes.
#[derive(Debug)]
pub struct ContextCeiling {
    limit: Option<usize>,
    refused: u64,
}

impl ContextCeiling {
    /// Positions any one request may ask for.
    pub closed spec fn ceiling(&self) -> Option<usize> {
        self.limit
    }

    /// Requests refused so far.
    pub closed spec fn refusals(&self) -> u64 {
        self.refused
    }

    /// A ceiling that has refused nothing.
    pub fn new(limit: Option<usize>) -> (c: ContextCeiling)
        ensures
            c.ceiling() == limit,
            c.refusals() == 0,
    {
        ContextCeiling { limit, refused: 0 }
    }

    /// Requests refused so far.
    pub fn refused(&self) -> (n: u64)
        ensures
            n == self.refusals(),
    {
        self.refused
    }

    /// The ceiling, when this deployment has one.
    pub fn limit(&self) -> (l: Option<usize>)
        ensures
            l == self.ceiling(),
    {
        self.limit
    }

    /// The refusal for a prompt that leaves no room for output at all. A
    /// shorter prompt is servable with a smaller output budget.
    pub fn prompt_refusal(&mut self, prompt_tokens: usize, price: u64, limit_price: u64) -> (r: Option<DecodeError>)
        ensures
            final(self).ceiling() == old(self).ceiling(),
            r is Some <==> old(self).ceiling() is Some && prompt_tokens >= old(self).ceiling()->0,
            final(self).refusals() == if r is Some {
                old(self).refusals().wrapping_add(1)
            } else {
                old(self).refusals()
            },
            r is Some ==> is_budget_refusal(
                r->0,
                "context_length_exceeded"@,
                price,
                limit_price,
                prompt_tokens as int,
                old(self).ceiling()->0 as int,
                prompt_detail(prompt_tokens as int, old(self).ceiling()->0 as int),
            ),
    {
        let limit: usize = match self.limit {
            Some(l) => l,
            None => return None,
        };
        if prompt_tokens < limit {
            return None;
        }
        self.refused = self.refused.wrapping_add(1);
        let mut detail: String = "prompt is too long: ".to_owned();
        detail.append(decimal(prompt_tokens as u64).as_str());
        detail.append(" tokens > ");
        detail.append(decimal(limit as u64).as_str());
        detail.append(" maximum");
        Some(
            DecodeError::KvBudgetExceeded {
                binding: Ceiling::ContextLength.code(),
                estimated_bytes: price,
                limit_bytes: limit_price,
                positions: prompt_tokens,
                positions_limit: limit,
                detail,
            },
        )
    }

    /// The output budget a prompt leaves under the ceiling: a prompt that
    /// fits by itself is served with less output rather than refused.
    pub fn clamp(&self, prompt_tokens: usize, max_tokens: usize) -> (n: usize)
        ensures
            n == clamped(self.ceiling(), prompt_tokens as int, max_tokens as int),
    {
        match self.limit {
            Some(limit) => {
                let room: usize = limit.saturating_sub(prompt_tokens);
                if max_tokens < room {
                    max_tokens
                } else {
                    room
                }
            },
            None => max_tokens,
        }
    }

    /// The typed refusal for a request of `positions` positions, or `None`
    /// when it fits.
    pub fn refusal(&mut self, positions: usize, price: u64, limit_price: u64) -> (r: Option<DecodeError>)
        ensures
            final(self).ceiling() == old(self).ceiling(),
            r is Some <==> old(self).ceiling() is Some && positions > old(self).ceiling()->0,
            final(self).refusals() == if r is Some {
                old(self).refusals().wrapping_add(1)
            } else {
                old(self).refusals()
            },
            r is Some ==> is_budget_refusal(
                r->0,
                "context_length_exceeded"@,
                price,
                limit_price,
                positions as int,
                old(self).ceiling()->0 as int,
                context_detail(positions as int, old(self).ceiling()->0 as int),
            ),
    {
        let limit: usize = match self.limit {
            Some(l) => l,
            None => return None,
        };
        if positions <= limit {
            return None;
        }
        self.refused = self.refused.wrapping_add(1);
        Some(
            DecodeError::KvBudgetExceeded {
                binding: Ceiling::ContextLength.code(),
                estimated_bytes: price,
                limit_bytes: limit_price,
                positions,
                positions_limit: limit,
                detail: context_detail_text(positions, limit),
            },
        )
    }
}

/// The context length of a checkpoint whose metadata states none.
pub const DEFAULT_CONTEXT_LENGTH: usize = 4096;

/// The metadata key that states a model's trained context.
pub fn context_length_key(arch: Option<&str>) -> (key: String)
    ensures
        key@ == (match arch {
            Some(a) => a@,
            None => "unknown"@,
        }) + ".context_length"@,
{
    let mut key: String = match arch {
        Some(a) => a.to_owned(),
        None => "unknown".to_owned(),
    };
    key.append(".context_length");
    key
}

/// The trained context a checkpoint states, or the default.
pub fn gguf_context_length(stated: Option<u64>) -> (n: usize)
    ensures
        n == (match stated {
            Some(v) => v as usize,
            None => DEFAULT_CONTEXT_LENGTH,
        }),
{
    match stated {
        Some(v) => v as usize,
        None => DEFAULT_CONTEXT_LENGTH,
    }
}

/// What a model is priced for.
#[derive(Clone, Copy, Debug, PartialEq, Eq, Structural)]
pub struct PricingAssumptions {
    pub context_tokens: usize,
    pub concurrent_requests: usize,
    pub prefill_chunk: usize,
}

/// What to price a model for: its trained context, at least one request and
/// at least one token per chunk. An unknown device, or a file that cannot be
/// read, prices nothing.
pub fn price_gguf(
    device_known: bool,
    gguf_ctx: Option<usize>,
    prefill_chunk: usize,
    concurrent_requests: usize,
) -> (r: Option<PricingAssumptions>)
    ensures
        r == (if device_known && gguf_ctx is Some {
            Some(
                (PricingAssumptions {
                    context_tokens: gguf_ctx->0,
                    concurrent_requests: if concurrent_requests == 0 { 1 } else { concurrent_requests },
                    prefill_chunk: if prefill_chunk == 0 { 1 } else { prefill_chunk },
                }),
            )
        } else {
            None
        }),
{
    if !device_known {
        return None;
    }
    match gguf_ctx {
        Some(context_tokens) => Some(
            PricingAssumptions {
                context_tokens,
                concurrent_requests: if concurrent_requests == 0 {
                    1
                } else {
                    concurrent_requests
                },
                prefill_chunk: if prefill_chunk == 0 {
                    1
                } else {
                    prefill_chunk
                },
            },
        ),
        None => None,
    }
}

/// The ceilings a priced model leaves room for.
#[derive(Clone, Copy, Debug, PartialEq, Eq, Structural)]
pub struct DerivedLimits {
    /// Positions any one request may hold.
    pub max_context: usize,
    /// Whole blocks for the KV ledger.
    pub kv_blocks: usize,
}

/// The most context worth fitting: what the model was trained for, and at
/// least one position.
pub fn context_cap(gguf_ctx: usize) -> (c: usize)
    ensures
        c == if gguf_ctx > 1 { gguf_ctx } else { 1 },
{
    if gguf_ctx > 1 {
        gguf_ctx
    } else {
        1
    }
}

/// Turns the number of tokens that fit into the two ceilings the server
/// admits on. A fit of zero derives nothing: that would be a refusal to
/// serve, not a ceiling. A partial block is not a block.
pub fn derive_limits(fit_tokens: usize, block_size: usize) -> (r: Option<DerivedLimits>)
    requires
        block_size > 0,
    ensures
        r == (if fit_tokens == 0 {
            None
        } else {
            Some(
                (DerivedLimits { max_context: fit_tokens, kv_blocks: (fit_tokens / block_size) as usize }),
            )
        }),
{
    if fit_tokens == 0 {
        return None;
    }
    Some(DerivedLimits { max_context: fit_tokens, kv_blocks: fit_tokens / block_size })
}

/// Which ceilings [`apply_derived`] filled in.
#[derive(Clone, Copy, Debug, PartialEq, Eq, Structural)]
pub struct Adopted {
    pub max_context: bool,
    pub kv_blocks: bool,
}

impl Default for Adopted {
    fn default() -> (a: Adopted)
        ensures
            a == (Adopted { max_context: false, kv_blocks: false }),
    {
        Adopted { max_context: false, kv_blocks: false }
    }
}

/// Fills the ceilings an operator did not set and leaves the ones they did
/// set exactly alone. A ledger of zero blocks is never installed.
pub fn apply_derived(config: &mut BatcherConfig, derived: &DerivedLimits) -> (adopted: Adopted)
    ensures
        adopted.max_context == old(config).max_context is None,
        adopted.kv_blocks == (old(config).kv_blocks is None && derived.kv_blocks > 0),
        *final(config) == (BatcherConfig {
            max_context: if adopted.max_context { Some(derived.max_context) } else { old(config).max_context },
            kv_blocks: if adopted.kv_blocks { Some(derived.kv_blocks) } else { old(config).kv_blocks },
            ..*old(config)
        }),
{
    let mut adopted: Adopted = Adopted { max_context: false, kv_blocks: false };
    if config.max_context.is_none() {
        config.max_context = Some(derived.max_context);
        adopted.max_context = true;
    }
    if config.kv_blocks.is_none() && derived.kv_blocks > 0 {
        config.kv_blocks = Some(derived.kv_blocks);
        adopted.kv_blocks = true;
    }
    adopted
}

/// The ledger only hands out capacity that exists: its whole blocks are no
/// more than the fit, and one more block would not be there.
pub proof fn law_a_partial_block_is_not_promised(fit_tokens: usize, block_size: usize)
    requires
        block_size > 0,
    ensures
        (fit_tokens / block_size) * block_size <= fit_tokens,
        fit_tokens < (fit_tokens / block_size + 1) * block_size,
{
    vstd::arithmetic::div_mod::lemma_fundamental_div_mod(fit_tokens as int, block_size as int);
    let (q, b) = ((fit_tokens / block_size) as int, block_size as int);
    assert(q * b == b * q && (q + 1) * b == b * q + b) by (nonlinear_arith);
}

/// A clamped budget is the largest that fits: never more than was asked for,
/// within the ceiling together with the prompt, and short of what was asked
/// for only where the ceiling is reached.
pub proof fn law_a_clamped_budget_is_the_largest_that_fits(limit: usize, prompt_tokens: int, max_tokens: int)
    requires
        0 <= prompt_tokens,
        0 <= max_tokens,
    ensures
        ({
            let n = clamped(Some(limit), prompt_tokens, max_tokens);
            &&& 0 <= n <= max_tokens
            &&& prompt_tokens <= limit ==> prompt_tokens + n <= limit
            &&& prompt_tokens <= limit && n < max_tokens ==> prompt_tokens + n == limit
            &&& prompt_tokens >= limit ==> n == 0
        }),
        clamped(None, prompt_tokens, max_tokens) == max_tokens,
{
}

/// The refusals name what was asked for and what there is.
pub proof fn law_the_context_messages(positions: int, tokens: int, limit: int)
    ensures
        context_detail(positions, limit) == "request asks for "@ + decimal_chars(positions as nat)
            + " token positions (prompt + max_tokens) but this deployment admits "@ + decimal_chars(limit as nat)
            + " per request; shorten the prompt or lower max_tokens"@,
        prompt_detail(tokens, limit) == "prompt is too long: "@ + decimal_chars(tokens as nat) + " tokens > "@
            + decimal_chars(limit as nat) + " maximum"@,
        DEFAULT_CONTEXT_LENGTH == 4096,
{
}

/// The ceilings derived from a fit: the whole fit for one request, and the
/// whole blocks in it, which hold no more positions than fit and would with
/// one block more. A fit of nothing derives nothing.
pub proof fn law_derived_limits_are_the_fit(fit: usize, block_size: usize, r: Option<DerivedLimits>)
    requires
        block_size > 0,
        call_ensures(derive_limits, (fit, block_size), r),
    ensures
        r is None <==> fit == 0,
        r is Some ==> {
            let d = r->0;
            &&& d.max_context == fit
            &&& d.kv_blocks * block_size <= fit
            &&& fit < (d.kv_blocks + 1) * block_size
        },
{
    law_a_partial_block_is_not_promised(fit, block_size);
}

/// Filling in derived ceilings leaves a checkpoint's own context as it is,
/// at least one position of it, and the default where none is stated.
pub proof fn law_a_checkpoint_has_its_context(stated: u64, ctx: usize, a: usize, b: usize, c: usize)
    requires
        stated <= usize::MAX,
        call_ensures(gguf_context_length, (Some(stated),), a),
        call_ensures(gguf_context_length, (None::<u64>,), b),
        call_ensures(context_cap, (ctx,), c),
    ensures
        a == stated,
        b == 4096,
        c >= 1,
        ctx >= 1 ==> c == ctx,
        ctx == 0 ==> c == 1,
{
}

/// A model is priced for its own context, for at least one request and at
/// least one token a chunk; without a device or a context it is not priced.
pub proof fn law_a_model_is_priced_for_its_context(
    known: bool,
    ctx: Option<usize>,
    chunk: usize,
    requests: usize,
    r: Option<PricingAssumptions>,
)
    requires
        call_ensures(price_gguf, (known, ctx, chunk, requests), r),
    ensures
        r is Some <==> known && ctx is Some,
        r is Some ==> {
            let p = r->0;
            &&& p.context_tokens == ctx->0
            &&& p.concurrent_requests >= 1 && p.prefill_chunk >= 1
            &&& requests >= 1 ==> p.concurrent_requests == requests
            &&& chunk >= 1 ==> p.prefill_chunk == chunk
            &&& requests == 0 ==> p.concurrent_requests == 1
            &&& chunk == 0 ==> p.prefill_chunk == 1
        },
{
}

/// The wire codes of the two ceilings.
pub proof fn law_ceilings_have_their_codes(a: &str, b: &str)
    requires
        call_ensures(Ceiling::code, (&Ceiling::ContextLength,), a),
        call_ensures(Ceiling::code, (&Ceiling::DeviceMemory,), b),
    ensures
        a@ == "context_length_exceeded"@,
        b@ == "device_memory_budget_exceeded"@,
{
}

/// A clamped request fits under its ceiling, and one that fits is left as it
/// was asked for.
pub proof fn law_clamping_makes_a_request_fit(c: &ContextCeiling, prompt: usize, asked: usize, n: usize)
    requires
        call_ensures(ContextCeiling::clamp, (c, prompt, asked), n),
    ensures
        n <= asked,
        c.ceiling() is None ==> n == asked,
        c.ceiling() is Some && prompt <= c.ceiling()->0 ==> prompt + n <= c.ceiling()->0,
        c.ceiling() is Some && prompt + asked <= c.ceiling()->0 ==> n == asked,
        c.ceiling() is Some && n < asked ==> prompt + n >= c.ceiling()->0,
{
}

/// A prompt is refused by itself exactly where it would be refused with one
/// token of output, and each refusal is counted.
pub proof fn law_a_prompt_needs_room_for_one_token(
    c: &mut ContextCeiling,
    tokens: usize,
    price: u64,
    limit_price: u64,
    r: Option<DecodeError>,
    d: &mut ContextCeiling,
    s: Option<DecodeError>,
    before: u64,
    between: u64,
    after: u64,
)
    requires
        tokens < usize::MAX,
        call_ensures(ContextCeiling::prompt_refusal, (c, tokens, price, limit_price), r),
        *old(d) == *final(c),
        call_ensures(ContextCeiling::refusal, (d, (tokens + 1) as usize, price, limit_price), s),
        call_ensures(ContextCeiling::refused, (&*old(c),), before),
        call_ensures(ContextCeiling::refused, (&*final(c),), between),
        call_ensures(ContextCeiling::refused, (&*final(d),), after),
    ensures
        r is Some <==> s is Some,
        r is Some <==> old(c).ceiling() is Some && tokens >= old(c).ceiling()->0,
        r is None ==> between == before && after == before,
        r is Some ==> between == (before + 1) % 0x1_0000_0000_0000_0000 && after == (before + 2) % 0x1_0000_0000_0000_0000,
        final(d).ceiling() == old(c).ceiling(),
{
}

/// What an operator set stays, whatever was derived; what nobody set is taken
/// from the derived limits, and once taken it stays too.
pub proof fn law_settings_win_over_derived_limits(
    config: &mut BatcherConfig,
    derived: &DerivedLimits,
    one: Adopted,
    again: &mut BatcherConfig,
    other: &DerivedLimits,
    two: Adopted,
)
    requires
        call_ensures(apply_derived, (config, derived), one),
        *old(again) == *final(config),
        call_ensures(apply_derived, (again, other), two),
    ensures
        old(config).max_context is Some ==> final(config).max_context == old(config).max_context,
        old(config).kv_blocks is Some ==> final(config).kv_blocks == old(config).kv_blocks,
        old(config).max_context is None ==> final(config).max_context == Some(derived.max_context),
        old(config).kv_blocks is None && derived.kv_blocks > 0 ==> final(config).kv_blocks == Some(derived.kv_blocks),
        old(config).kv_blocks is None && derived.kv_blocks == 0 ==> final(config).kv_blocks is None,
        one.max_context <==> old(config).max_context is None,
        one.kv_blocks <==> final(config).kv_blocks != old(config).kv_blocks,
        !two.max_context,
        final(again).max_context == final(config).max_context,
        final(config).kv_blocks is Some ==> !two.kv_blocks && *final(again) == *final(config),
        final(config).max_seqs == old(config).max_seqs,
        final(config).prefill_chunk == old(config).prefill_chunk,
        final(config).max_queue == old(config).max_queue,
        final(config).kv_block_size == old(config).kv_block_size,
{
}

/// A checkpoint's context stands under its family's name.
pub proof fn law_the_context_key(arch: &str, key: String, none: String)
    requires
        call_ensures(context_length_key, (Some(arch),), key),
        call_ensures(context_length_key, (None,), none),
    ensures
        key@ == arch@ + ".context_length"@,
        none@ == "unknown.context_length"@,
{
    reveal_strlit("unknown");
    reveal_strlit(".context_length");
    reveal_strlit("unknown.context_length");
    assert("unknown"@ + ".context_length"@ =~= "unknown.context_length"@);
}

} // verus!
