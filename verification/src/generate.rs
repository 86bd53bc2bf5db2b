//! The rules of one generation: what is refused before it starts, how its
//! prompt is run, and how its tokens become text.
use vstd::prelude::*;
use vstd::string::{StringExecFns, StringSliceAdditionalSpecFns};
use crate::answer::{is_reading, Reading};
use crate::sampling::SamplingParams;
use crate::stop::{StopMatcher, StopStep};
use crate::text::{decimal, decimal_chars, digits_value, is_unsigned, parse_unsigned, unsigned_digits};

verus! {

/// Why a request was refused or could not finish.
#[derive(Debug)]
pub enum DecodeError {
    /// The prompt holds a token this model does not have.
    TokenOutOfVocab { token: usize, vocab_size: usize },
    /// The shared KV block pool has no room right now.
    KvPoolExhausted,
    /// Too many jobs are waiting already.
    QueueFull { queued: usize, cap: usize },
    /// The request is larger than an immovable ceiling.
    KvBudgetExceeded {
        binding: &'static str,
        estimated_bytes: u64,
        limit_bytes: u64,
        positions: usize,
        positions_limit: usize,
        detail: String,
    },
}

/// What the message of a [`DecodeError::TokenOutOfVocab`] says.
pub open spec fn out_of_vocab_message(token: usize, vocab_size: usize) -> Seq<char> {
    "prompt encoded to token id "@ + decimal_chars(token as nat)
        + ", which is outside this model's vocabulary of "@ + decimal_chars(vocab_size as nat)
        + " (its tokenizer does not match this checkpoint)"@
}

impl DecodeError {
    /// The message shown to the caller; a full queue has none of its own.
    pub fn message(&self) -> (m: Option<String>)
        ensures
            m is None <==> self is QueueFull,
            *self matches DecodeError::TokenOutOfVocab { token, vocab_size } ==> m->0@ == out_of_vocab_message(
                token,
                vocab_size,
            ),
            self is KvPoolExhausted ==> m->0@
                == "server is at capacity: the shared KV cache block pool has no free blocks for a new request; retry shortly"@,
            *self matches DecodeError::KvBudgetExceeded { detail, .. } ==> m->0@ == detail@,
    {
        match self {
            DecodeError::TokenOutOfVocab { token, vocab_size } => {
                let mut m: String = "prompt encoded to token id ".to_owned();
                m.append(decimal(*token as u64).as_str());
                m.append(", which is outside this model's vocabulary of ");
                m.append(decimal(*vocab_size as u64).as_str());
                m.append(" (its tokenizer does not match this checkpoint)");
                Some(m)
            },
            DecodeError::KvPoolExhausted => Some(
                "server is at capacity: the shared KV cache block pool has no free blocks for a new request; retry shortly".to_owned(),
            ),
            DecodeError::QueueFull { .. } => None,
            DecodeError::KvBudgetExceeded { detail, .. } => Some(detail.clone()),
        }
    }

    /// How long a caller should wait before trying again: only refusals
    /// that clear by themselves are worth retrying.
    pub fn retry_after_secs(&self) -> (s: Option<u64>)
        ensures
            s is Some <==> self is KvPoolExhausted || self is QueueFull,
            s is Some ==> s->0 == 1,
    {
        match self {
            DecodeError::KvPoolExhausted => Some(1),
            DecodeError::QueueFull { .. } => Some(1),
            _ => None,
        }
    }
}

/// Why a generation ended.
#[derive(Clone, Copy, Debug, PartialEq, Eq, Structural)]
pub enum FinishReason {
    Stop,
    Length,
    Cancelled,
}

impl FinishReason {
    /// The wire name of the reason.
    pub fn as_str(&self) -> (s: &'static str)
        ensures
            s@ == (match *self {
                FinishReason::Stop => "stop"@,
                FinishReason::Length => "length"@,
                FinishReason::Cancelled => "cancelled"@,
            }),
    {
        match self {
            FinishReason::Stop => "stop",
            FinishReason::Length => "length",
            FinishReason::Cancelled => "cancelled",
        }
    }
}

/// Token counts of a completed generation.
#[derive(Clone, Copy, Debug, PartialEq, Eq, Structural)]
pub struct Usage {
    pub prompt_tokens: usize,
    pub completion_tokens: usize,
    pub total_tokens: usize,
}

impl Usage {
    /// The counts of a prompt and its completion.
    pub fn new(prompt_tokens: usize, completion_tokens: usize) -> (u: Usage)
        requires
            prompt_tokens + completion_tokens <= usize::MAX,
        ensures
            u.prompt_tokens == prompt_tokens,
            u.completion_tokens == completion_tokens,
            u.total_tokens == prompt_tokens + completion_tokens,
    {
        Usage { prompt_tokens, completion_tokens, total_tokens: prompt_tokens + completion_tokens }
    }
}

/// A generation's settings.
#[derive(Debug)]
pub struct GenerationParams {
    pub max_tokens: usize,
    pub sampling: SamplingParams,
    pub seed: u64,
    pub stop: Vec<String>,
    pub stop_token_ids: Vec<usize>,
    pub json_object: bool,
    /// The compiled grammar's full rendering.
    pub grammar: Option<String>,
    /// The handle a cancellation names this request by.
    pub cancel: Option<u64>,
    pub ignore_eos: bool,
}

impl GenerationParams {
    /// Whether sampling reads more of the logits than their maximum.
    pub fn needs_vocab_logits(&self) -> (r: bool)
        ensures
            r == self.json_object,
    {
        self.json_object
    }
}

/// `0.0` and every negative temperature, NaN excluded.
pub open spec fn is_greedy_bits(bits: u32) -> bool {
    bits == 0 || (0x8000_0000 <= bits <= 0xff80_0000)
}

/// A greedy request that reads nothing but the winner of the logits.
pub open spec fn folds(params: GenerationParams) -> bool {
    is_greedy_bits(params.sampling.temperature_bits) && !params.json_object
}

/// Whether the head and the arg-max may be folded onto the device.
pub fn greedy_gpu_fold_allowed(params: &GenerationParams) -> (r: bool)
    ensures
        r == folds(*params),
{
    let bits: u32 = params.sampling.temperature_bits;
    (bits == 0 || (0x8000_0000 <= bits && bits <= 0xff80_0000)) && !params.needs_vocab_logits()
}

/// The prompt with its beginning-of-sequence token in front, unless it is
/// there already.
pub open spec fn with_bos(tokens: Seq<usize>, bos: Option<usize>) -> Seq<usize> {
    match bos {
        Some(b) => if tokens.len() > 0 && tokens[0] == b {
            tokens
        } else {
            seq![b] + tokens
        },
        None => tokens,
    }
}

/// The first token outside the vocabulary is at `i`.
pub open spec fn first_bad(tokens: Seq<usize>, vocab_size: usize, i: int) -> bool {
    &&& 0 <= i < tokens.len()
    &&& tokens[i] >= vocab_size
    &&& forall|k: int| 0 <= k < i ==> #[trigger] tokens[k] < vocab_size
}

/// Every token is in the vocabulary.
pub open spec fn in_vocab(tokens: Seq<usize>, vocab_size: usize) -> bool {
    forall|k: int| 0 <= k < tokens.len() ==> #[trigger] tokens[k] < vocab_size
}

/// The first token this model does not have, if there is one.
pub fn find_out_of_vocab(tokens: &[usize], vocab_size: usize) -> (r: Option<usize>)
    ensures
        r is None <==> in_vocab(tokens@, vocab_size),
        r is Some ==> exists|i: int| first_bad(tokens@, vocab_size, i) && tokens@[i] == r->0,
{
    for i in 0usize..tokens.len()
        invariant
            forall|k: int| 0 <= k < i ==> #[trigger] tokens@[k] < vocab_size,
    {
        if tokens[i] >= vocab_size {
            assert(first_bad(tokens@, vocab_size, i as int));
            return Some(tokens[i]);
        }
    }
    None
}

/// Makes an encoded prompt ready to run: the beginning-of-sequence token in
/// front, and every token in the vocabulary.
pub fn prepare_prompt(encoded: Vec<usize>, bos: Option<usize>, vocab_size: usize) -> (r: Result<Vec<usize>, DecodeError>)
    requires
        encoded@.len() < usize::MAX,
    ensures
        match r {
            Ok(tokens) => tokens@ == with_bos(encoded@, bos) && in_vocab(tokens@, vocab_size),
            Err(e) => exists|i: int|
                first_bad(with_bos(encoded@, bos), vocab_size, i) && e == (DecodeError::TokenOutOfVocab {
                    token: with_bos(encoded@, bos)[i],
                    vocab_size,
                }),
        },
        r is Ok <==> in_vocab(with_bos(encoded@, bos), vocab_size),
{
    let mut tokens: Vec<usize> = encoded;
    match bos {
        Some(b) => {
            if tokens.len() == 0 || tokens[0] != b {
                tokens.insert(0, b);
                assert(tokens@ =~= seq![b] + encoded@);
            }
        },
        None => {},
    }
    assert(tokens@ =~= with_bos(encoded@, bos));
    match find_out_of_vocab(tokens.as_slice(), vocab_size) {
        Some(token) => Err(DecodeError::TokenOutOfVocab { token, vocab_size }),
        None => Ok(tokens),
    }
}

/// What a prefix cache found for a prompt: how many of its leading
/// positions are stored, and whether the logits after them are too.
#[derive(Clone, Copy, Debug, PartialEq, Eq, Structural)]
pub struct PrefixMatch {
    pub matched_len: usize,
    pub has_logits: bool,
}

/// How a prompt gets to the logits its first generated token comes from.
#[derive(Clone, Copy, Debug, PartialEq, Eq, Structural)]
pub enum PrefillPlan {
    /// Run the whole prompt from position zero.
    Fresh,
    /// An empty prompt: one pass over the stand-in token 0.
    StandIn,
    /// Everything is stored, logits included: run nothing.
    Pending,
    /// Everything is stored but the logits: back the cache off to `to` and
    /// run that one token again.
    BackOff { to: usize },
    /// Run only what follows the stored prefix.
    Suffix { from: usize },
}

impl PrefillPlan {
    /// How many leading positions the plan keeps from the cache.
    pub open spec fn kept(self, n: int) -> int {
        match self {
            PrefillPlan::Fresh => 0,
            PrefillPlan::StandIn => 0,
            PrefillPlan::Pending => n,
            PrefillPlan::BackOff { to } => to as int,
            PrefillPlan::Suffix { from } => from as int,
        }
    }

    /// The tokens the plan runs, at the positions from [`Self::kept`] on.
    pub open spec fn runs(self, tokens: Seq<usize>) -> Seq<usize> {
        match self {
            PrefillPlan::Fresh => tokens,
            PrefillPlan::StandIn => seq![0usize],
            PrefillPlan::Pending => Seq::empty(),
            PrefillPlan::BackOff { to } => seq![tokens[to as int]],
            PrefillPlan::Suffix { from } => tokens.subrange(from as int, tokens.len() as int),
        }
    }
}

/// The plan for a prompt, given what the prefix cache found. A configured
/// KV pool rules restoration out.
pub open spec fn prefill_plan(tokens: Seq<usize>, pooled: bool, found: Option<PrefixMatch>) -> PrefillPlan {
    match found {
        Some(m) if !pooled && m.matched_len > 0 => if m.matched_len < tokens.len() {
            PrefillPlan::Suffix { from: m.matched_len }
        } else if m.has_logits {
            PrefillPlan::Pending
        } else {
            PrefillPlan::BackOff { to: (m.matched_len - 1) as usize }
        },
        _ => if tokens.len() == 0 {
            PrefillPlan::StandIn
        } else {
            PrefillPlan::Fresh
        },
    }
}

/// Decides how a prompt is run.
pub fn plan_prefill(tokens: &[usize], pooled: bool, found: Option<PrefixMatch>) -> (plan: PrefillPlan)
    requires
        found is Some ==> found->0.matched_len <= tokens@.len(),
    ensures
        plan == prefill_plan(tokens@, pooled, found),
{
    if !pooled {
        if let Some(m) = found {
            if m.matched_len > 0 {
                if m.matched_len < tokens.len() {
                    return PrefillPlan::Suffix { from: m.matched_len };
                }
                if m.has_logits {
                    return PrefillPlan::Pending;
                }
                return PrefillPlan::BackOff { to: m.matched_len - 1 };
            }
        }
    }
    if tokens.len() == 0 {
        PrefillPlan::StandIn
    } else {
        PrefillPlan::Fresh
    }
}

/// Whatever was restored, the positions kept and the tokens run make up the
/// prompt exactly once: no position is run twice, none is left out.
pub proof fn law_every_position_is_filled_once(tokens: Seq<usize>, pooled: bool, found: Option<PrefixMatch>)
    requires
        found is Some ==> found->0.matched_len <= tokens.len(),
        tokens.len() > 0,
    ensures
        ({
            let plan = prefill_plan(tokens, pooled, found);
            &&& 0 <= plan.kept(tokens.len() as int) <= tokens.len()
            &&& tokens.subrange(0, plan.kept(tokens.len() as int)) + plan.runs(tokens) == tokens
        }),
{
    let plan = prefill_plan(tokens, pooled, found);
    assert(tokens.subrange(0, plan.kept(tokens.len() as int)) + plan.runs(tokens) =~= tokens);
}

/// A finished sequence is stored for later prompts.
pub open spec fn stores(pooled: bool, has_cache: bool, logits_len: usize, vocab_size: usize) -> bool {
    !pooled && has_cache && logits_len == vocab_size
}

/// With a KV pool configured the prefix cache is neither read nor written:
/// what it found changes nothing of how a prompt is run, nothing is restored,
/// and no finished sequence is stored.
pub proof fn law_a_pool_keeps_the_prefix_cache_out(
    tokens: Seq<usize>,
    found: Option<PrefixMatch>,
    has_cache: bool,
    logits_len: usize,
    vocab_size: usize,
)
    ensures
        prefill_plan(tokens, true, found) == prefill_plan(tokens, true, None),
        prefill_plan(tokens, true, found).kept(tokens.len() as int) == 0,
        !stores(true, has_cache, logits_len, vocab_size),
{
}

/// Whether a finished sequence is stored for later prompts: never beside a
/// KV pool, and only with a whole distribution to go with it.
pub fn stores_prefix(pooled: bool, has_cache: bool, logits_len: usize, vocab_size: usize) -> (r: bool)
    ensures
        r == stores(pooled, has_cache, logits_len, vocab_size),
{
    !pooled && has_cache && logits_len == vocab_size
}

/// What to do after trying to take a request's caches from the pool.
#[derive(Clone, Copy, Debug, PartialEq, Eq, Structural)]
pub enum AcquireStep {
    /// Hand back what the attempt gave.
    Return,
    /// Try again after this many milliseconds.
    Sleep { ms: u64 },
}

/// Retries until the attempt succeeds or the deadline has passed, sleeping
/// ten milliseconds at a time and never past the deadline.
pub fn after_attempt(acquired: bool, now_ms: u64, deadline_ms: u64) -> (s: AcquireStep)
    ensures
        s == (if acquired || now_ms >= deadline_ms {
            AcquireStep::Return
        } else if deadline_ms - now_ms < 10 {
            AcquireStep::Sleep { ms: (deadline_ms - now_ms) as u64 }
        } else {
            AcquireStep::Sleep { ms: 10 }
        }),
{
    if acquired || now_ms >= deadline_ms {
        return AcquireStep::Return;
    }
    let left: u64 = deadline_ms - now_ms;
    if left < 10 {
        AcquireStep::Sleep { ms: left }
    } else {
        AcquireStep::Sleep { ms: 10 }
    }
}

/// The prefill chunk size an operator asked for; anything but a positive
/// number means no chunking.
pub fn chunked_prefill_tokens(raw: Option<&str>) -> (r: Option<usize>)
    ensures
        r == (match raw {
            Some(v) => if is_unsigned(v.spec_bytes(), usize::MAX as nat) && digits_value(
                unsigned_digits(v.spec_bytes()),
            ) > 0 {
                Some(digits_value(unsigned_digits(v.spec_bytes())) as usize)
            } else {
                None
            },
            None => None,
        }),
{
    match raw {
        Some(v) => match parse_unsigned(v, usize::MAX as u64) {
            Some(n) => if n > 0 {
                Some(n as usize)
            } else {
                None
            },
            None => None,
        },
        None => None,
    }
}

/// Whether the operator asked for KV offload to the CPU.
pub fn cpu_kv_offload_enabled(raw: Option<&str>) -> (r: bool)
    ensures
        r == (raw is Some && raw->0@ == "1"@),
{
    match raw {
        Some(v) => v.to_owned() == "1".to_owned(),
        None => false,
    }
}

/// Consecutive ranges that cover `0..n`.
pub open spec fn tile(ranges: Seq<(usize, usize)>, n: int) -> bool
    decreases ranges.len(),
{
    if ranges.len() == 0 {
        n == 0
    } else {
        let last = ranges.last();
        last.0 < last.1 && last.1 == n && tile(ranges.drop_last(), last.0 as int)
    }
}

/// Splits a prompt into the ranges it is run in: chunks of the size asked
/// for, or the whole prompt at once.
pub fn prompt_chunks(n: usize, chunk: Option<usize>) -> (ranges: Vec<(usize, usize)>)
    requires
        chunk is Some ==> chunk->0 > 0,
    ensures
        tile(ranges@, n as int),
        chunk is None && n > 0 ==> ranges@ == seq![(0usize, n)],
        chunk is Some ==> forall|i: int|
            0 <= i < ranges@.len() ==> (#[trigger] ranges@[i]).1 - ranges@[i].0 <= chunk->0,
        chunk is Some ==> forall|i: int|
            0 <= i < ranges@.len() - 1 ==> (#[trigger] ranges@[i]).1 - ranges@[i].0 == chunk->0,
{
    let mut ranges: Vec<(usize, usize)> = Vec::new();
    if n == 0 {
        return ranges;
    }
    let size: usize = match chunk {
        Some(c) => c,
        None => n,
    };
    let mut at: usize = 0;
    while at < n
        invariant
            0 < size,
            at <= n,
            tile(ranges@, at as int),
            ranges@.len() == 0 <==> at == 0,
            chunk is Some ==> size == chunk->0,
            chunk is None ==> size == n && (at == 0 || (at == n && ranges@ == seq![(0usize, n)])),
            forall|i: int| 0 <= i < ranges@.len() ==> (#[trigger] ranges@[i]).1 - ranges@[i].0 <= size,
            forall|i: int| 0 <= i < ranges@.len() - 1 ==> (#[trigger] ranges@[i]).1 - ranges@[i].0 == size,
            at < n ==> forall|i: int| 0 <= i < ranges@.len() ==> (#[trigger] ranges@[i]).1 - ranges@[i].0 == size,
        decreases n - at,
    {
        let end: usize = if n - at < size {
            n
        } else {
            at + size
        };
        let ghost before = ranges@;
        ranges.push((at, end));
        proof {
            assert(ranges@.drop_last() =~= before);
            if chunk is None {
                assert(ranges@ =~= seq![(0usize, n)]);
            }
        }
        at = end;
    }
    ranges
}

/// One generation's sampling loop between forward passes: which token ends
/// it, which positions its tokens take, and what text they release.
#[derive(Debug)]
pub struct DecodeLoop {
    max_tokens: usize,
    eos_id: Option<usize>,
    pos: usize,
    generated: Vec<usize>,
    stops: StopMatcher,
    finish: Option<FinishReason>,
}

impl DecodeLoop {
    /// The token budget.
    pub closed spec fn max_tokens(&self) -> int {
        self.max_tokens as int
    }

    /// The token that ends the answer.
    pub closed spec fn eos_id(&self) -> Option<usize> {
        self.eos_id
    }

    /// The position the next token takes.
    pub closed spec fn pos(&self) -> int {
        self.pos as int
    }

    /// The tokens generated so far.
    pub closed spec fn generated(&self) -> Seq<usize> {
        self.generated@
    }

    /// The stop layers.
    pub closed spec fn stops(&self) -> StopMatcher {
        self.stops
    }

    /// Why the loop ended, once it has.
    pub closed spec fn finish(&self) -> Option<FinishReason> {
        self.finish
    }

    /// The stop layers are sound, the budget is kept, and the positions the
    /// remaining budget needs exist.
    pub closed spec fn wf(&self) -> bool {
        &&& self.stops.wf()
        &&& self.generated@.len() <= self.max_tokens
        &&& self.pos + (self.max_tokens - self.generated@.len()) <= usize::MAX
    }

    /// The position the next token takes can be counted.
    pub proof fn lemma_positions_exist(&self)
        ensures
            0 <= self.pos() <= usize::MAX,
    {
    }

    /// This token ends the answer without being part of it.
    pub open spec fn ends(&self, next: usize) -> bool {
        self.eos_id() == Some(next) || self.stops().stop_token_ids().contains(next)
    }

    /// Another token is to be sampled.
    pub open spec fn goes_on(&self) -> bool {
        self.finish() is None && self.generated().len() < self.max_tokens()
    }

    /// Taking the token `next` leads to `after`: it ends the answer, or it is
    /// one more of it and runs at the position `at`.
    pub open spec fn takes(&self, next: usize, at: Option<usize>, after: DecodeLoop) -> bool {
        &&& after.max_tokens() == self.max_tokens()
        &&& after.eos_id() == self.eos_id()
        &&& after.stops() == self.stops()
        &&& at is None <==> self.ends(next)
        &&& if self.ends(next) {
            &&& after.finish() == Some(FinishReason::Stop)
            &&& after.generated() == self.generated()
            &&& after.pos() == self.pos()
        } else {
            &&& at->0 == self.pos()
            &&& after.finish() is None
            &&& after.generated() == self.generated().push(next)
            &&& after.pos() == self.pos() + 1
        }
    }

    /// Reading `piece` leads to `after` and emits `emit`. A stop string ends
    /// the answer.
    pub open spec fn reads(&self, piece: Seq<char>, emit: Option<String>, after: DecodeLoop) -> bool {
        let matched = after.finish() is Some;
        &&& after.max_tokens() == self.max_tokens()
        &&& after.eos_id() == self.eos_id()
        &&& after.pos() == self.pos()
        &&& after.generated() == self.generated()
        &&& after.stops().stops() == self.stops().stops()
        &&& after.stops().stop_token_ids() == self.stops().stop_token_ids()
        &&& matched ==> after.finish() == Some(FinishReason::Stop)
        &&& emit is Some <==> matched || emitted(emit).len() > 0
        &&& is_reading(
            self.stops().stops(),
            self.stops().pending() + piece,
            Reading { matched, text: emitted(emit), held: after.stops().pending() },
        )
    }

    /// A loop about to sample its first token, which will take position `pos`.
    pub fn new(
        max_tokens: usize,
        eos_id: Option<usize>,
        pos: usize,
        stop: Vec<String>,
        stop_token_ids: Vec<usize>,
    ) -> (l: DecodeLoop)
        requires
            pos + max_tokens <= usize::MAX,
        ensures
            l.wf(),
            l.max_tokens() == max_tokens,
            l.eos_id() == eos_id,
            l.pos() == pos,
            l.generated() == Seq::<usize>::empty(),
            l.stops().stops() == stop@,
            l.stops().stop_token_ids() == stop_token_ids@,
            l.stops().pending() == Seq::<char>::empty(),
            l.finish() is None,
    {
        DecodeLoop {
            max_tokens,
            eos_id,
            pos,
            generated: Vec::new(),
            stops: StopMatcher::new(stop, stop_token_ids),
            finish: None,
        }
    }

    /// Whether another token is to be sampled.
    pub fn wants_token(&self) -> (r: bool)
        requires
            self.wf(),
        ensures
            r == self.goes_on(),
    {
        self.finish.is_none() && self.generated.len() < self.max_tokens
    }

    /// Takes a sampled token. `None` when it ends the answer; otherwise the
    /// position to run it at.
    pub fn on_token(&mut self, next: usize) -> (at: Option<usize>)
        requires
            old(self).wf(),
            old(self).goes_on(),
        ensures
            final(self).wf(),
            old(self).takes(next, at, *final(self)),
    {
        let is_eos: bool = match self.eos_id {
            Some(e) => e == next,
            None => false,
        };
        if is_eos || self.stops.is_stop_token(next) {
            self.finish = Some(FinishReason::Stop);
            return None;
        }
        self.generated.push(next);
        let at: usize = self.pos;
        self.pos = self.pos + 1;
        Some(at)
    }

    /// Takes the decoded text of the token just run. What is returned is to
    /// be emitted; a stop string that now matches ends the loop.
    pub fn on_piece(&mut self, piece: &str) -> (emit: Option<String>)
        requires
            old(self).wf(),
            old(self).finish() is None,
        ensures
            final(self).wf(),
            old(self).reads(piece@, emit, *final(self)),
    {
        match self.stops.push(piece) {
            StopStep::Matched(text) => {
                self.finish = Some(FinishReason::Stop);
                Some(text)
            },
            StopStep::Emit(text) => if text.as_str().is_empty() {
                assert(text@ =~= Seq::empty());
                None
            } else {
                Some(text)
            },
        }
    }

    /// Ends the loop: the reason, the tokens, and the held-back text that
    /// is still to be emitted.
    pub fn end(self) -> (r: (FinishReason, Vec<usize>, String))
        requires
            self.wf(),
        ensures
            r.0 == (match self.finish() {
                Some(f) => f,
                None => FinishReason::Length,
            }),
            r.1@ == self.generated(),
            r.2@ == self.stops().pending(),
    {
        let mut stops: StopMatcher = self.stops;
        let tail: String = stops.flush();
        let finish: FinishReason = match self.finish {
            Some(f) => f,
            None => FinishReason::Length,
        };
        (finish, self.generated, tail)
    }
}

/// The text of an emission, empty when there was none.
pub open spec fn emitted(emit: Option<String>) -> Seq<char> {
    match emit {
        Some(s) => s@,
        None => Seq::empty(),
    }
}

/// Greedy temperatures, by the parts of the number: zero of either sign and
/// every number with the sign set, except the patterns that are no number.
pub proof fn law_greedy_is_zero_or_negative(bits: u32)
    ensures
        ({
            let negative = bits / 0x8000_0000 == 1;
            let no_number = (bits / 0x0080_0000) % 256 == 255 && bits % 0x0080_0000 != 0;
            is_greedy_bits(bits) <==> bits == 0 || (negative && !no_number)
        }),
{
}

/// The head is folded onto the device exactly for greedy requests that leave
/// the logits alone.
pub proof fn law_only_plain_greedy_requests_fold(params: GenerationParams)
    ensures
        params.json_object ==> !folds(params),
        !params.json_object ==> folds(params) == is_greedy_bits(params.sampling.temperature_bits),
{
}

/// A prompt starts with its beginning-of-sequence token once: it is put in
/// front only where it is not there, nothing of the prompt is lost, and doing
/// it again changes nothing.
pub proof fn law_a_prompt_begins_once(tokens: Seq<usize>, bos: usize)
    ensures
        with_bos(tokens, None) == tokens,
        with_bos(tokens, Some(bos)).len() > 0,
        with_bos(tokens, Some(bos))[0] == bos,
        tokens.len() > 0 && tokens[0] == bos ==> with_bos(tokens, Some(bos)) == tokens,
        tokens.len() == 0 || tokens[0] != bos ==> with_bos(tokens, Some(bos)).skip(1) == tokens,
        with_bos(with_bos(tokens, Some(bos)), Some(bos)) == with_bos(tokens, Some(bos)),
{
    if tokens.len() == 0 || tokens[0] != bos {
        assert(with_bos(tokens, Some(bos)).skip(1) =~= tokens);
    }
}

/// A prompt is in the vocabulary when every one of its tokens is; the token
/// it is refused for is the first one that is not.
pub proof fn law_the_first_foreign_token_is_named(tokens: Seq<usize>, token: usize, vocab_size: usize, i: int)
    ensures
        in_vocab(Seq::empty(), vocab_size),
        in_vocab(tokens.push(token), vocab_size) <==> in_vocab(tokens, vocab_size) && token < vocab_size,
        first_bad(tokens, vocab_size, i) ==> 0 <= i < tokens.len() && tokens[i] >= vocab_size && in_vocab(
            tokens.take(i),
            vocab_size,
        ),
        first_bad(tokens, vocab_size, i) ==> !in_vocab(tokens, vocab_size),
{
    let longer = tokens.push(token);
    if in_vocab(longer, vocab_size) {
        assert(longer[tokens.len() as int] == token);
        assert forall|k: int| 0 <= k < tokens.len() implies #[trigger] tokens[k] < vocab_size by {
            assert(longer[k] == tokens[k]);
        }
    }
    if first_bad(tokens, vocab_size, i) {
        assert forall|k: int| 0 <= k < i implies #[trigger] tokens.take(i)[k] < vocab_size by {
            assert(tokens[k] < vocab_size);
        }
    }
}

/// How much of a prompt a stored prefix saves: all positions it holds where
/// something is left to run, everything where the logits are stored too, and
/// all but one token where they are not. Without a stored prefix the whole
/// prompt runs, and an empty prompt runs the stand-in token.
pub proof fn law_a_stored_prefix_is_not_run_again(tokens: Seq<usize>, pooled: bool, m: PrefixMatch)
    requires
        m.matched_len <= tokens.len(),
    ensures
        ({
            let n = tokens.len() as int;
            let plan = prefill_plan(tokens, pooled, Some(m));
            let used = !pooled && m.matched_len > 0;
            &&& used && m.matched_len < n ==> plan.kept(n) == m.matched_len && plan.runs(tokens) == tokens.skip(
                m.matched_len as int,
            )
            &&& used && m.matched_len == n && m.has_logits ==> plan.kept(n) == n && plan.runs(tokens).len() == 0
            &&& used && m.matched_len == n && !m.has_logits ==> plan.kept(n) == n - 1 && plan.runs(tokens)
                == seq![tokens[n - 1]]
            &&& !used && n > 0 ==> plan.kept(n) == 0 && plan.runs(tokens) == tokens
            &&& n == 0 ==> plan.kept(n) == 0 && plan.runs(tokens) == seq![0usize]
        }),
        prefill_plan(tokens, pooled, None).kept(tokens.len() as int) == 0,
        tokens.len() > 0 ==> prefill_plan(tokens, pooled, None).runs(tokens) == tokens,
        tokens.len() == 0 ==> prefill_plan(tokens, pooled, None).runs(tokens) == seq![0usize],
{
    let plan = prefill_plan(tokens, pooled, Some(m));
    if !pooled && 0 < m.matched_len < tokens.len() {
        assert(plan.runs(tokens) =~= tokens.skip(m.matched_len as int));
    }
}

/// A finished sequence is stored exactly with a cache, without a pool and
/// with one logit for every token of the vocabulary.
pub proof fn law_what_is_stored(has_cache: bool, logits_len: usize, vocab_size: usize)
    ensures
        stores(false, true, vocab_size, vocab_size),
        logits_len != vocab_size ==> !stores(false, has_cache, logits_len, vocab_size),
        !stores(false, false, logits_len, vocab_size),
{
}

/// Ranges that tile a prompt start at its first position, each where the one
/// before it ended, and stop at its last: every position is in exactly one of
/// them.
pub proof fn law_tiles_cover_every_position_once(ranges: Seq<(usize, usize)>, n: int, p: int)
    requires
        tile(ranges, n),
        0 <= p < n,
    ensures
        exists|i: int| 0 <= i < ranges.len() && (#[trigger] ranges[i]).0 <= p < ranges[i].1,
        forall|i: int, j: int|
            0 <= i < ranges.len() && 0 <= j < ranges.len() && (#[trigger] ranges[i]).0 <= p < ranges[i].1
                && (#[trigger] ranges[j]).0 <= p < ranges[j].1 ==> i == j,
        ranges[0].0 == 0,
        ranges.last().1 == n,
        forall|i: int| 0 <= i < ranges.len() - 1 ==> (#[trigger] ranges[i]).1 == ranges[i + 1].0,
{
    lemma_tiles(ranges, n);
    lemma_a_tile_covers(ranges, n, p);
    assert forall|i: int, j: int|
        0 <= i < ranges.len() && 0 <= j < ranges.len() && (#[trigger] ranges[i]).0 <= p < ranges[i].1
            && (#[trigger] ranges[j]).0 <= p < ranges[j].1 implies i == j by {
        if i < j {
            lemma_tiles_ascend(ranges, n, i, j);
        } else if j < i {
            lemma_tiles_ascend(ranges, n, j, i);
        }
    }
}

proof fn lemma_tiles(ranges: Seq<(usize, usize)>, n: int)
    requires
        tile(ranges, n),
    ensures
        ranges.len() == 0 <==> n == 0,
        ranges.len() > 0 ==> ranges[0].0 == 0 && ranges.last().1 == n,
        forall|i: int| 0 <= i < ranges.len() ==> (#[trigger] ranges[i]).0 < ranges[i].1,
        forall|i: int| 0 <= i < ranges.len() - 1 ==> (#[trigger] ranges[i]).1 == ranges[i + 1].0,
    decreases ranges.len(),
{
    if ranges.len() > 0 {
        let rest = ranges.drop_last();
        lemma_tiles(rest, ranges.last().0 as int);
        assert forall|i: int| 0 <= i < ranges.len() implies (#[trigger] ranges[i]).0 < ranges[i].1 by {
            if i < rest.len() {
                assert(rest[i] == ranges[i]);
            }
        }
        assert forall|i: int| 0 <= i < ranges.len() - 1 implies (#[trigger] ranges[i]).1 == ranges[i + 1].0 by {
            assert(rest[i] == ranges[i]);
            if i + 1 < rest.len() {
                assert(rest[i + 1] == ranges[i + 1]);
            }
        }
        if rest.len() > 0 {
            assert(rest[0] == ranges[0]);
        }
    }
}

proof fn lemma_a_tile_covers(ranges: Seq<(usize, usize)>, n: int, p: int)
    requires
        tile(ranges, n),
        0 <= p < n,
    ensures
        exists|i: int| 0 <= i < ranges.len() && (#[trigger] ranges[i]).0 <= p < ranges[i].1,
    decreases ranges.len(),
{
    let last = ranges.last();
    if last.0 <= p {
        assert(ranges[ranges.len() - 1].0 <= p < ranges[ranges.len() - 1].1);
    } else {
        let rest = ranges.drop_last();
        lemma_a_tile_covers(rest, last.0 as int, p);
        let i = choose|i: int| 0 <= i < rest.len() && (#[trigger] rest[i]).0 <= p < rest[i].1;
        assert(ranges[i] == rest[i]);
    }
}

proof fn lemma_tiles_ascend(ranges: Seq<(usize, usize)>, n: int, i: int, j: int)
    requires
        tile(ranges, n),
        0 <= i < j < ranges.len(),
    ensures
        ranges[i].1 <= ranges[j].0,
    decreases j - i,
{
    lemma_tiles(ranges, n);
    if i + 1 < j {
        lemma_tiles_ascend(ranges, n, i, j - 1);
        assert(ranges[j - 1].1 == ranges[j].0);
    }
}

/// Taking a token: the end-of-sequence token and every stop token end the
/// answer without being part of it; any other token is the next of the answer
/// and takes the next position. Nothing else changes.
pub proof fn law_a_token_is_taken_or_ends_the_answer(
    one: DecodeLoop,
    next: usize,
    at: Option<usize>,
    two: DecodeLoop,
)
    requires
        one.takes(next, at, two),
    ensures
        ({
            let ends = one.eos_id() == Some(next) || one.stops().stop_token_ids().contains(next);
            &&& ends ==> at is None && two.generated() == one.generated() && two.pos() == one.pos() && two.finish()
                == Some(FinishReason::Stop)
            &&& !ends ==> at == Some(one.pos() as usize) && two.generated() == one.generated().push(next) && two.pos()
                == one.pos() + 1 && two.finish() is None
            &&& two.max_tokens() == one.max_tokens()
            &&& two.eos_id() == one.eos_id()
            &&& two.stops() == one.stops()
        }),
{
}

/// Reading a piece: where no stop string is found, what is emitted and what
/// stays held back are together what was held back and the piece; where one
/// is found, the answer has ended, and what is emitted is what stands in front
/// of it. The tokens and the position stay as they are.
pub proof fn law_a_piece_is_emitted_or_held(
    one: DecodeLoop,
    piece: Seq<char>,
    emit: Option<String>,
    out: Seq<char>,
    two: DecodeLoop,
)
    requires
        one.reads(piece, emit, two),
        out == (match emit {
            Some(s) => s@,
            None => Seq::empty(),
        }),
    ensures
        ({
            let all = one.stops().pending() + piece;
            &&& two.finish() is None ==> out + two.stops().pending() == all
            &&& two.finish() is Some ==> two.finish() == Some(FinishReason::Stop) && emit is Some
            &&& two.finish() is Some ==> two.stops().pending() == Seq::<char>::empty()
            &&& two.finish() is Some ==> exists|k: int, b: Seq<char>|
                0 <= k < one.stops().stops().len() && one.stops().stops()[k]@.len() > 0 && all == #[trigger] (out
                    + one.stops().stops()[k]@ + b)
            &&& emit is Some && two.finish() is None ==> out.len() > 0
            &&& emit is None ==> two.finish() is None
            &&& two.generated() == one.generated()
            &&& two.pos() == one.pos()
            &&& two.max_tokens() == one.max_tokens()
        }),
{
    let all = one.stops().pending() + piece;
    let r = Reading { matched: two.finish() is Some, text: emitted(emit), held: two.stops().pending() };
    let stops = one.stops().stops();
    crate::answer::law_reading_stops_at_the_first_stop_string(stops, all, r);
    if r.matched {
        let (k, b) = choose|k: int, b: Seq<char>|
            0 <= k < stops.len() && stops[k]@.len() > 0 && all == #[trigger] (r.text + stops[k]@ + b);
        assert(all == out + one.stops().stops()[k]@ + b);
    }
}

/// A loop goes on exactly while it has not ended and its budget is not spent.
pub proof fn law_a_loop_goes_on_within_its_budget(l: DecodeLoop)
    ensures
        l.finish() is Some ==> !l.goes_on(),
        l.generated().len() >= l.max_tokens() ==> !l.goes_on(),
        l.finish() is None && l.generated().len() < l.max_tokens() ==> l.goes_on(),
{
}

/// The refusal of a foreign token names the token and the vocabulary's size.
pub proof fn law_the_vocabulary_message(token: usize, vocab_size: usize)
    ensures
        out_of_vocab_message(token, vocab_size) == "prompt encoded to token id "@ + decimal_chars(token as nat)
            + ", which is outside this model's vocabulary of "@ + decimal_chars(vocab_size as nat)
            + " (its tokenizer does not match this checkpoint)"@,
{
}

/// Only refusals that clear by themselves are worth another try, after a
/// second.
pub proof fn law_what_is_worth_another_try(e: &DecodeError, s: Option<u64>)
    requires
        call_ensures(DecodeError::retry_after_secs, (e,), s),
    ensures
        *e is KvPoolExhausted ==> s == Some(1u64),
        *e is QueueFull ==> s == Some(1u64),
        *e is TokenOutOfVocab ==> s is None,
        *e is KvBudgetExceeded ==> s is None,
{
}

/// The wire names of the reasons.
pub proof fn law_reasons_have_their_names(a: &str, b: &str, c: &str)
    requires
        call_ensures(FinishReason::as_str, (&FinishReason::Stop,), a),
        call_ensures(FinishReason::as_str, (&FinishReason::Length,), b),
        call_ensures(FinishReason::as_str, (&FinishReason::Cancelled,), c),
    ensures
        a@ == "stop"@,
        b@ == "length"@,
        c@ == "cancelled"@,
{
}

/// Usage adds up.
pub proof fn law_usage_adds_up(prompt: usize, completion: usize, u: Usage)
    requires
        prompt + completion <= usize::MAX,
        call_ensures(Usage::new, (prompt, completion), u),
    ensures
        u.prompt_tokens == prompt,
        u.completion_tokens == completion,
        u.total_tokens == u.prompt_tokens + u.completion_tokens,
{
}

/// Waiting for caches ends with success or at the deadline, and never sleeps
/// past it nor longer than ten milliseconds at a time.
pub proof fn law_waiting_ends_at_the_deadline(acquired: bool, now: u64, deadline: u64, s: AcquireStep)
    requires
        call_ensures(after_attempt, (acquired, now, deadline), s),
    ensures
        s is Return <==> acquired || now >= deadline,
        s is Sleep ==> 0 < s->ms <= 10 && now + s->ms <= deadline,
        s is Sleep && s->ms < 10 ==> now + s->ms == deadline,
{
}

/// A chunk size is a positive number, or there is none; offload is asked for
/// by `1` alone.
pub proof fn law_chunking_is_asked_for_by_a_number(
    digits: &str,
    chunk: Option<usize>,
    none: Option<usize>,
    raw: &str,
    offload: bool,
    unset: bool,
)
    requires
        forall|i: int| 0 <= i < digits.spec_bytes().len() ==> 48 <= #[trigger] digits.spec_bytes()[i] <= 57,
        call_ensures(chunked_prefill_tokens, (Some(digits),), chunk),
        call_ensures(chunked_prefill_tokens, (None,), none),
        call_ensures(cpu_kv_offload_enabled, (Some(raw),), offload),
        call_ensures(cpu_kv_offload_enabled, (None,), unset),
    ensures
        none is None,
        chunk is Some <==> 0 < digits_value(digits.spec_bytes()) <= usize::MAX,
        chunk is Some ==> chunk->0 == digits_value(digits.spec_bytes()),
        offload <==> raw@ == "1"@,
        !unset,
{
    crate::text::law_unsigned_text(digits.spec_bytes(), usize::MAX as nat);
    if digits.spec_bytes().len() == 0 {
        assert(digits.spec_bytes() =~= Seq::empty());
    }
}

/// A prompt is ready to run exactly when the model has all its tokens, with
/// its beginning-of-sequence token in front; otherwise the first foreign token
/// is named.
pub proof fn law_a_prompt_is_made_ready(
    encoded: Vec<usize>,
    bos: Option<usize>,
    vocab_size: usize,
    r: Result<Vec<usize>, DecodeError>,
)
    requires
        encoded@.len() < usize::MAX,
        call_ensures(prepare_prompt, (encoded, bos, vocab_size), r),
    ensures
        r matches Ok(tokens) ==> tokens@ == with_bos(encoded@, bos) && forall|k: int|
            0 <= k < tokens@.len() ==> #[trigger] tokens@[k] < vocab_size,
        r matches Err(e) ==> exists|i: int|
            #![trigger with_bos(encoded@, bos)[i]]
            {
                let tokens = with_bos(encoded@, bos);
                &&& 0 <= i < tokens.len()
                &&& tokens[i] >= vocab_size
                &&& forall|k: int| 0 <= k < i ==> #[trigger] tokens[k] < vocab_size
                &&& e == (DecodeError::TokenOutOfVocab { token: tokens[i], vocab_size })
            },
{
    if let Err(e) = r {
        let tokens = with_bos(encoded@, bos);
        let i = choose|i: int|
            first_bad(tokens, vocab_size, i) && e == (DecodeError::TokenOutOfVocab { token: tokens[i], vocab_size });
        assert(tokens[i] >= vocab_size);
    }
}

/// A prompt is cut into ranges that cover every position, each of the size
/// asked for but the last; without a size it is one range.
pub proof fn law_a_prompt_is_cut_into_chunks(n: usize, chunk: Option<usize>, ranges: Vec<(usize, usize)>, i: int)
    requires
        chunk is Some ==> chunk->0 > 0,
        call_ensures(prompt_chunks, (n, chunk), ranges),
        0 <= i < ranges@.len(),
    ensures
        ranges@[0].0 == 0,
        ranges@.last().1 == n,
        ranges@[i].0 < ranges@[i].1,
        i + 1 < ranges@.len() ==> ranges@[i].1 == ranges@[i + 1].0,
        chunk is None ==> ranges@.len() == 1,
        chunk is Some && i + 1 < ranges@.len() ==> ranges@[i].1 - ranges@[i].0 == chunk->0,
        chunk is Some ==> ranges@[i].1 - ranges@[i].0 <= chunk->0,
{
    lemma_tiles(ranges@, n as int);
}

/// What a failed request is told: the token and the vocabulary, that the
/// server is full, or why the request does not fit. A full queue has words of
/// its own elsewhere.
pub proof fn law_errors_say_what_happened(e: &DecodeError, m: Option<String>)
    requires
        call_ensures(DecodeError::message, (e,), m),
    ensures
        m is None <==> e is QueueFull,
        *e matches DecodeError::TokenOutOfVocab { token, vocab_size } ==> m->0@ == out_of_vocab_message(token, vocab_size),
        *e matches DecodeError::KvBudgetExceeded { detail, .. } ==> m->0@ == detail@,
        e is KvPoolExhausted ==> m->0@
            == "server is at capacity: the shared KV cache block pool has no free blocks for a new request; retry shortly"@,
{
}

/// The first token that the model does not have is found, wherever it stands.
pub proof fn law_a_foreign_token_is_found(tokens: &[usize], vocab_size: usize, r: Option<usize>, i: int)
    requires
        call_ensures(find_out_of_vocab, (tokens, vocab_size), r),
        0 <= i < tokens@.len(),
    ensures
        tokens@[i] >= vocab_size ==> r is Some && r->0 >= vocab_size,
        tokens@[i] >= vocab_size && (forall|k: int| 0 <= k < i ==> (#[trigger] tokens@[k]) < vocab_size) ==> r == Some(
            tokens@[i],
        ),
        (forall|k: int| 0 <= k < tokens@.len() ==> (#[trigger] tokens@[k]) < vocab_size) ==> r is None,
{
    if r is Some {
        let k = choose|k: int| first_bad(tokens@, vocab_size, k) && tokens@[k] == r->0;
        assert(first_bad(tokens@, vocab_size, k));
    }
}

/// A loop that starts has done nothing yet and stops at its budget; taking a
/// token that does not end it leaves one fewer to take.
pub proof fn law_a_loop_counts_its_tokens(l: &mut DecodeLoop, next: usize, at: Option<usize>, wants: bool)
    requires
        old(l).wf(),
        old(l).goes_on(),
        call_ensures(DecodeLoop::on_token, (l, next), at),
        call_ensures(DecodeLoop::wants_token, (&*final(l),), wants),
    ensures
        at is None <==> old(l).eos_id() == Some(next) || old(l).stops().stop_token_ids().contains(next),
        at is None ==> !wants && final(l).finish() == Some(FinishReason::Stop) && final(l).generated() == old(
            l,
        ).generated(),
        at is Some ==> at->0 == old(l).pos() && final(l).pos() == old(l).pos() + 1 && final(l).generated() == old(
            l,
        ).generated().push(next),
        at is Some ==> (wants <==> old(l).generated().len() + 1 < old(l).max_tokens()),
{
}

/// A loop that ends hands over its tokens, the text it still held, and why it
/// ended: its own reason, or that its budget was used up.
pub proof fn law_a_loop_hands_everything_over(l: DecodeLoop, r: (FinishReason, Vec<usize>, String))
    requires
        call_ensures(DecodeLoop::end, (l,), r),
    ensures
        l.finish() is Some ==> r.0 == l.finish()->0,
        l.finish() is None ==> r.0 == FinishReason::Length,
        r.1@ == l.generated(),
        r.2@ == l.stops().pending(),
{
}

} // verus!
