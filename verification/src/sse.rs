//! The orphan deadline on a stream's send: a reader that has stopped is
//! treated as one that has gone.
use vstd::prelude::*;
use vstd::utf8::encode_utf8;
use crate::text::{digits_value, is_unsigned, parse_unsigned, trim, trimmed, unsigned_digits};

verus! {

/// How long a blocking send waits for room before the stream is declared
/// orphaned, in milliseconds.
pub const DEFAULT_ORPHAN_TIMEOUT: u64 = 30000;

/// Why a send gave up.
#[derive(Clone, Copy, Debug, PartialEq, Eq, Structural)]
pub enum SendFailure {
    /// The receiver was dropped: the client disconnected.
    Disconnected,
    /// The receiver exists but made no room within the deadline.
    Orphaned,
}

/// The configured deadline in milliseconds. Nothing set, or nothing that is
/// a number, is the default; zero is no deadline at all.
pub fn orphan_timeout_from_env(raw: Option<&str>) -> (t: Option<u64>)
    ensures
        t == (match raw {
            Some(v) => {
                let text = encode_utf8(trimmed(v@));
                if !is_unsigned(text, u64::MAX as nat) {
                    Some(DEFAULT_ORPHAN_TIMEOUT)
                } else if digits_value(unsigned_digits(text)) == 0 {
                    None
                } else {
                    Some(digits_value(unsigned_digits(text)) as u64)
                }
            },
            None => Some(DEFAULT_ORPHAN_TIMEOUT),
        }),
{
    match raw {
        None => Some(DEFAULT_ORPHAN_TIMEOUT),
        Some(v) => match parse_unsigned(trim(v), u64::MAX) {
            Some(ms) => if ms == 0 {
                None
            } else {
                Some(ms)
            },
            None => Some(DEFAULT_ORPHAN_TIMEOUT),
        },
    }
}

/// How to send one event.
#[derive(Clone, Copy, Debug, PartialEq, Eq, Structural)]
pub enum SendPlan {
    /// Wait for room however long it takes.
    Block,
    /// Wait for room at most this many milliseconds.
    Within { ms: u64 },
}

/// A deadline is kept where there is one and a runtime to drive its timer;
/// otherwise the event is delivered without one rather than refused.
pub fn send_plan(timeout: Option<u64>, has_runtime: bool) -> (p: SendPlan)
    ensures
        p == (if timeout is Some && has_runtime {
            SendPlan::Within { ms: timeout->0 }
        } else {
            SendPlan::Block
        }),
{
    match timeout {
        Some(ms) => if has_runtime {
            SendPlan::Within { ms }
        } else {
            SendPlan::Block
        },
        None => SendPlan::Block,
    }
}

/// What became of one send.
#[derive(Clone, Copy, Debug, PartialEq, Eq, Structural)]
pub enum SendOutcome {
    Sent,
    Closed,
    TimedOut,
}

/// What the generation is told: both failures stop it, and are kept apart
/// for the log alone.
pub fn send_result(outcome: SendOutcome) -> (r: Result<(), SendFailure>)
    ensures
        r == (match outcome {
            SendOutcome::Sent => Ok::<(), SendFailure>(()),
            SendOutcome::Closed => Err(SendFailure::Disconnected),
            SendOutcome::TimedOut => Err(SendFailure::Orphaned),
        }),
{
    match outcome {
        SendOutcome::Sent => Ok(()),
        SendOutcome::Closed => Err(SendFailure::Disconnected),
        SendOutcome::TimedOut => Err(SendFailure::Orphaned),
    }
}

/// A stream is given up after half a minute unless another deadline is set.
pub proof fn law_the_default_deadline()
    ensures
        DEFAULT_ORPHAN_TIMEOUT == 30 * 1000,
{
}

/// A deadline is the number of milliseconds set, none where that is zero, and
/// the default where nothing or no number is set.
pub proof fn law_a_deadline_is_what_was_set(n: u64, raw: &str, t: Option<u64>, unset: Option<u64>)
    requires
        trimmed(raw@) == crate::text::decimal_chars(n as nat),
        call_ensures(orphan_timeout_from_env, (Some(raw),), t),
        call_ensures(orphan_timeout_from_env, (None,), unset),
    ensures
        n > 0 ==> t == Some(n),
        n == 0 ==> t is None,
        unset == Some(30000u64),
{
    let d = crate::text::decimal_chars(n as nat);
    crate::text::law_decimal_reads_back(n as nat);
    crate::text::lemma_digits_encode(d);
    let bytes = d.map_values(|c: char| c as u8);
    assert forall|i: int| 0 <= i < bytes.len() implies 48 <= #[trigger] bytes[i] <= 57 by {
        assert('0' <= d[i] <= '9');
    }
    crate::text::law_unsigned_text(bytes, u64::MAX as nat);
}

/// A deadline is kept where there is one and a runtime, and an event is sent
/// without one otherwise; what became of a send is what the generation is
/// told.
pub proof fn law_sends_are_kept_to_their_deadline(
    ms: u64,
    runtime: bool,
    a: SendPlan,
    b: SendPlan,
    sent: Result<(), SendFailure>,
    closed: Result<(), SendFailure>,
    late: Result<(), SendFailure>,
)
    requires
        call_ensures(send_plan, (Some(ms), runtime), a),
        call_ensures(send_plan, (None, runtime), b),
        call_ensures(send_result, (SendOutcome::Sent,), sent),
        call_ensures(send_result, (SendOutcome::Closed,), closed),
        call_ensures(send_result, (SendOutcome::TimedOut,), late),
    ensures
        runtime ==> a == (SendPlan::Within { ms }),
        !runtime ==> a is Block,
        b is Block,
        sent is Ok,
        closed == Err::<(), SendFailure>(SendFailure::Disconnected),
        late == Err::<(), SendFailure>(SendFailure::Orphaned),
{
}

/// A setting that is no number leaves the default deadline.
pub proof fn law_no_number_leaves_the_default(raw: &str, t: Option<u64>, i: int)
    requires
        call_ensures(orphan_timeout_from_env, (Some(raw),), t),
        ({
            let b = vstd::utf8::encode_utf8(trimmed(raw@));
            0 <= i < b.len() && (b[i] < 48 || b[i] > 57) && (i == 0 ==> b[i] != 43)
        }),
    ensures
        t == Some(30000u64),
{
    crate::text::law_other_text_is_no_number(vstd::utf8::encode_utf8(trimmed(raw@)), u64::MAX as nat, i);
}

} // verus!
