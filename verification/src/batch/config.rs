//! Scheduler knobs.
use vstd::prelude::*;
use vstd::string::StringSliceAdditionalSpecFns;
use crate::text::{digits_value, is_unsigned, parse_unsigned, unsigned_digits};

verus! {

/// Prompt tokens run per prefill chunk when nothing else is configured.
pub const DEFAULT_PREFILL_CHUNK: usize = 128;

/// Token positions per KV block when nothing else is configured.
pub const DEFAULT_KV_BLOCK_SIZE: usize = 256;

/// Jobs allowed to wait for admission when nothing else is configured.
pub const DEFAULT_MAX_QUEUE: usize = 512;

/// Scheduler knobs.
#[derive(Clone, Copy, Debug, PartialEq, Eq, Structural)]
pub struct BatcherConfig {
    /// Cap on in-flight sequences, counting prompts still prefilling.
    pub max_seqs: usize,
    /// Prompt tokens per prefill chunk.
    pub prefill_chunk: usize,
    /// Jobs that may wait for admission before new ones are refused.
    pub max_queue: usize,
    /// Token positions per KV block, the admission quantum.
    pub kv_block_size: usize,
    /// Total KV blocks the scheduler may hand out, or `None` for no block budget.
    pub kv_blocks: Option<usize>,
    /// Token positions any single request may ask for, or `None` for no ceiling.
    pub max_context: Option<usize>,
}

/// The knobs as the environment spelled them, each absent when unset.
#[derive(Debug)]
pub struct RawSettings<'a> {
    pub max_seqs: Option<&'a str>,
    pub prefill_chunk: Option<&'a str>,
    pub max_queue: Option<&'a str>,
    pub kv_block_size: Option<&'a str>,
    pub kv_blocks: Option<&'a str>,
    pub max_context: Option<&'a str>,
}

/// A setting that is absent or spells a positive integer.
pub open spec fn is_setting(raw: Option<&str>) -> bool {
    raw is Some ==> is_unsigned(raw->0.spec_bytes(), usize::MAX as nat) && digits_value(
        unsigned_digits(raw->0.spec_bytes()),
    ) > 0
}

/// The value of a setting.
pub open spec fn setting(raw: Option<&str>) -> Option<usize> {
    match raw {
        Some(v) => Some(digits_value(unsigned_digits(v.spec_bytes())) as usize),
        None => None,
    }
}

/// The value of a setting, or its default when absent.
pub open spec fn setting_or(raw: Option<&str>, default: usize) -> usize {
    match setting(raw) {
        Some(n) => n,
        None => default,
    }
}

/// Every setting is absent or spells a positive integer.
pub open spec fn are_settings(raw: &RawSettings) -> bool {
    &&& is_setting(raw.max_seqs)
    &&& is_setting(raw.prefill_chunk)
    &&& is_setting(raw.max_queue)
    &&& is_setting(raw.kv_block_size)
    &&& is_setting(raw.kv_blocks)
    &&& is_setting(raw.max_context)
}

/// Whether a setting is absent or spells a positive integer.
pub fn is_usable(raw: Option<&str>) -> (r: bool)
    ensures
        r == is_setting(raw),
{
    match raw {
        None => true,
        Some(v) => match parse_unsigned(v, usize::MAX as u64) {
            Some(n) => n > 0,
            None => false,
        },
    }
}

/// The value of one setting.
pub fn env_positive(raw: Option<&str>) -> (r: Option<usize>)
    requires
        is_setting(raw),
    ensures
        r == setting(raw),
{
    match raw {
        None => None,
        Some(v) => match parse_unsigned(v, usize::MAX as u64) {
            Some(n) => Some(n as usize),
            None => None,
        },
    }
}

impl RawSettings<'_> {
    /// The name of the first setting that is neither absent nor a positive
    /// integer.
    pub fn first_unusable(&self) -> (r: Option<&'static str>)
        ensures
            r is None <==> are_settings(self),
            r matches Some(name) ==> name@ == (if !is_setting(self.max_seqs) {
                "FERROX_CB_MAX_SEQS"@
            } else if !is_setting(self.prefill_chunk) {
                "FERROX_CB_PREFILL_CHUNK"@
            } else if !is_setting(self.max_queue) {
                "FERROX_CB_MAX_QUEUE"@
            } else if !is_setting(self.kv_block_size) {
                "FERROX_CB_KV_BLOCK_SIZE"@
            } else if !is_setting(self.kv_blocks) {
                "FERROX_CB_KV_BLOCKS"@
            } else {
                "FERROX_CB_MAX_CONTEXT"@
            }),
    {
        if !is_usable(self.max_seqs) {
            Some("FERROX_CB_MAX_SEQS")
        } else if !is_usable(self.prefill_chunk) {
            Some("FERROX_CB_PREFILL_CHUNK")
        } else if !is_usable(self.max_queue) {
            Some("FERROX_CB_MAX_QUEUE")
        } else if !is_usable(self.kv_block_size) {
            Some("FERROX_CB_KV_BLOCK_SIZE")
        } else if !is_usable(self.kv_blocks) {
            Some("FERROX_CB_KV_BLOCKS")
        } else if !is_usable(self.max_context) {
            Some("FERROX_CB_MAX_CONTEXT")
        } else {
            None
        }
    }
}

impl Default for BatcherConfig {
    fn default() -> (c: BatcherConfig)
        ensures
            c == (BatcherConfig {
                max_seqs: usize::MAX,
                prefill_chunk: DEFAULT_PREFILL_CHUNK,
                max_queue: DEFAULT_MAX_QUEUE,
                kv_block_size: DEFAULT_KV_BLOCK_SIZE,
                kv_blocks: None,
                max_context: None,
            }),
    {
        BatcherConfig {
            max_seqs: usize::MAX,
            prefill_chunk: DEFAULT_PREFILL_CHUNK,
            max_queue: DEFAULT_MAX_QUEUE,
            kv_block_size: DEFAULT_KV_BLOCK_SIZE,
            kv_blocks: None,
            max_context: None,
        }
    }
}

impl BatcherConfig {
    /// The knobs the environment asks for. A setting that is no positive
    /// integer has no meaning; see [`RawSettings::first_unusable`].
    pub fn from_env(raw: &RawSettings) -> (c: BatcherConfig)
        requires
            are_settings(raw),
        ensures
            c == (BatcherConfig {
                max_seqs: setting_or(raw.max_seqs, usize::MAX),
                prefill_chunk: setting_or(raw.prefill_chunk, DEFAULT_PREFILL_CHUNK),
                max_queue: setting_or(raw.max_queue, DEFAULT_MAX_QUEUE),
                kv_block_size: setting_or(raw.kv_block_size, DEFAULT_KV_BLOCK_SIZE),
                kv_blocks: setting(raw.kv_blocks),
                max_context: setting(raw.max_context),
            }),
    {
        BatcherConfig {
            max_seqs: env_positive(raw.max_seqs).unwrap_or(usize::MAX),
            prefill_chunk: env_positive(raw.prefill_chunk).unwrap_or(DEFAULT_PREFILL_CHUNK),
            max_queue: env_positive(raw.max_queue).unwrap_or(DEFAULT_MAX_QUEUE),
            kv_block_size: env_positive(raw.kv_block_size).unwrap_or(DEFAULT_KV_BLOCK_SIZE),
            kv_blocks: env_positive(raw.kv_blocks),
            max_context: env_positive(raw.max_context),
        }
    }
}

/// What a setting means: nothing where it is absent, the number it spells
/// where it is one, and a spelled number is usable exactly when it is
/// positive and a count can hold it.
pub proof fn law_a_setting_is_the_number_it_spells(raw: &str, default: usize)
    requires
        forall|i: int| 0 <= i < raw.spec_bytes().len() ==> 48 <= #[trigger] raw.spec_bytes()[i] <= 57,
        raw.spec_bytes().len() > 0,
    ensures
        is_setting(None),
        setting(None) is None,
        setting_or(None, default) == default,
        is_setting(Some(raw)) <==> 0 < digits_value(raw.spec_bytes()) <= usize::MAX,
        is_setting(Some(raw)) ==> setting(Some(raw)) == Some(digits_value(raw.spec_bytes()) as usize),
        is_setting(Some(raw)) ==> setting_or(Some(raw), default) == digits_value(raw.spec_bytes()),
{
    crate::text::law_unsigned_text(raw.spec_bytes(), usize::MAX as nat);
}

/// No setting is left out: one that is unusable makes all of them so.
pub proof fn law_every_setting_counts(raw: &RawSettings)
    ensures
        are_settings(raw) ==> is_setting(raw.max_seqs) && is_setting(raw.prefill_chunk) && is_setting(raw.max_queue)
            && is_setting(raw.kv_block_size) && is_setting(raw.kv_blocks) && is_setting(raw.max_context),
        is_setting(raw.max_seqs) && is_setting(raw.prefill_chunk) && is_setting(raw.max_queue) && is_setting(
            raw.kv_block_size,
        ) && is_setting(raw.kv_blocks) && is_setting(raw.max_context) ==> are_settings(raw),
        DEFAULT_PREFILL_CHUNK == 128,
        DEFAULT_KV_BLOCK_SIZE == 256,
        DEFAULT_MAX_QUEUE == 512,
{
}

/// The knobs of a scheduler are the settings that were made, and the
/// defaults where none was.
pub proof fn law_knobs_are_the_settings(raw: &RawSettings, c: BatcherConfig, d: BatcherConfig)
    requires
        are_settings(raw),
        call_ensures(BatcherConfig::from_env, (raw,), c),
        call_ensures(BatcherConfig::default, (), d),
    ensures
        raw.max_seqs is None ==> c.max_seqs == usize::MAX,
        raw.prefill_chunk is None ==> c.prefill_chunk == 128,
        raw.max_queue is None ==> c.max_queue == 512,
        raw.kv_block_size is None ==> c.kv_block_size == 256,
        raw.kv_blocks is None ==> c.kv_blocks is None,
        raw.max_context is None ==> c.max_context is None,
        raw.max_seqs is Some ==> Some(c.max_seqs) == setting(raw.max_seqs),
        raw.prefill_chunk is Some ==> Some(c.prefill_chunk) == setting(raw.prefill_chunk),
        raw.max_queue is Some ==> Some(c.max_queue) == setting(raw.max_queue),
        raw.kv_block_size is Some ==> Some(c.kv_block_size) == setting(raw.kv_block_size),
        raw.kv_blocks is Some ==> c.kv_blocks == setting(raw.kv_blocks),
        raw.max_context is Some ==> c.max_context == setting(raw.max_context),
        d.max_seqs == usize::MAX && d.prefill_chunk == 128 && d.max_queue == 512 && d.kv_block_size == 256,
        d.kv_blocks is None && d.max_context is None,
{
}

/// The first setting that is no usable number is named, in the order in which
/// they are read; where there is none, none is named.
pub proof fn law_the_first_unusable_setting_is_named(raw: &RawSettings, r: Option<&str>)
    requires
        call_ensures(RawSettings::first_unusable, (raw,), r),
    ensures
        r is None ==> is_setting(raw.max_seqs) && is_setting(raw.prefill_chunk) && is_setting(raw.max_queue)
            && is_setting(raw.kv_block_size) && is_setting(raw.kv_blocks) && is_setting(raw.max_context),
        !is_setting(raw.max_seqs) ==> r is Some && r->0@ == "FERROX_CB_MAX_SEQS"@,
        is_setting(raw.max_seqs) && !is_setting(raw.prefill_chunk) ==> r is Some && r->0@ == "FERROX_CB_PREFILL_CHUNK"@,
        is_setting(raw.max_seqs) && is_setting(raw.prefill_chunk) && !is_setting(raw.max_queue) ==> r is Some && r->0@
            == "FERROX_CB_MAX_QUEUE"@,
        is_setting(raw.max_seqs) && is_setting(raw.prefill_chunk) && is_setting(raw.max_queue) && !is_setting(
            raw.kv_block_size,
        ) ==> r is Some && r->0@ == "FERROX_CB_KV_BLOCK_SIZE"@,
        is_setting(raw.max_seqs) && is_setting(raw.prefill_chunk) && is_setting(raw.max_queue) && is_setting(
            raw.kv_block_size,
        ) && !is_setting(raw.kv_blocks) ==> r is Some && r->0@ == "FERROX_CB_KV_BLOCKS"@,
        r is Some && is_setting(raw.max_seqs) && is_setting(raw.prefill_chunk) && is_setting(raw.max_queue) && is_setting(
            raw.kv_block_size,
        ) && is_setting(raw.kv_blocks) ==> r->0@ == "FERROX_CB_MAX_CONTEXT"@,
{
}

} // verus!
