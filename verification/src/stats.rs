//! The ring of recent requests behind the stats page.
use std::collections::VecDeque;
use vstd::prelude::*;
use crate::text::text_of;

verus! {

/// Requests remembered.
pub const RING_CAPACITY: usize = 200;

/// Token counts and timings of a finished request. Timings are the raw bits
/// of f64 milliseconds: nothing here does arithmetic on them.
#[derive(Clone, Copy, Debug, PartialEq, Eq, Structural)]
pub struct TimedUsage {
    pub prompt_tokens: usize,
    pub completion_tokens: usize,
    pub time_to_first_token_ms_bits: Option<u64>,
    pub generation_duration_ms_bits: Option<u64>,
}

/// Who made a request.
#[derive(Debug)]
pub struct Attribution {
    pub via_api_key: Option<String>,
    pub client: Option<String>,
}

impl Default for Attribution {
    fn default() -> (a: Attribution)
        ensures
            a.via_api_key is None,
            a.client is None,
    {
        Attribution { via_api_key: None, client: None }
    }
}

/// Everything a finished request knows about itself.
#[derive(Debug)]
pub struct Record<'a> {
    pub request_id: &'a str,
    pub route: &'a str,
    pub status: u16,
    pub stream: bool,
    /// Whole server-side wall time: queue wait, prefill and decode.
    pub duration_ms: u64,
    /// Nothing from a path that cannot time itself.
    pub usage: Option<TimedUsage>,
    pub attribution: &'a Attribution,
}

/// One remembered request.
#[derive(Debug)]
pub struct RecentRequest {
    pub request_id: String,
    pub at_ms: u64,
    pub route: String,
    pub status: u16,
    pub prompt_tokens: usize,
    pub completion_tokens: usize,
    pub ttft_ms_bits: Option<u64>,
    pub duration_ms: u64,
    /// The decode loop alone.
    pub decode_ms_bits: Option<u64>,
    pub stream: bool,
    pub via_api_key: Option<String>,
    pub client: Option<String>,
}

/// A [`RecentRequest`] by value.
#[verifier::ext_equal]
pub struct RecentView {
    pub request_id: Seq<char>,
    pub at_ms: u64,
    pub route: Seq<char>,
    pub status: u16,
    pub prompt_tokens: usize,
    pub completion_tokens: usize,
    pub ttft_ms_bits: Option<u64>,
    pub duration_ms: u64,
    pub decode_ms_bits: Option<u64>,
    pub stream: bool,
    pub via_api_key: Option<Seq<char>>,
    pub client: Option<Seq<char>>,
}

impl View for RecentRequest {
    type V = RecentView;

    open spec fn view(&self) -> RecentView {
        RecentView {
            request_id: self.request_id@,
            at_ms: self.at_ms,
            route: self.route@,
            status: self.status,
            prompt_tokens: self.prompt_tokens,
            completion_tokens: self.completion_tokens,
            ttft_ms_bits: self.ttft_ms_bits,
            duration_ms: self.duration_ms,
            decode_ms_bits: self.decode_ms_bits,
            stream: self.stream,
            via_api_key: text_of(self.via_api_key),
            client: text_of(self.client),
        }
    }
}

fn copied_text(s: &Option<String>) -> (r: Option<String>)
    ensures
        text_of(r) == text_of(*s),
{
    match s {
        Some(t) => Some(t.clone()),
        None => None,
    }
}

impl RecentRequest {
    /// The same entry again.
    pub fn copied(&self) -> (r: RecentRequest)
        ensures
            r@ == self@,
    {
        RecentRequest {
            request_id: self.request_id.clone(),
            at_ms: self.at_ms,
            route: self.route.clone(),
            status: self.status,
            prompt_tokens: self.prompt_tokens,
            completion_tokens: self.completion_tokens,
            ttft_ms_bits: self.ttft_ms_bits,
            duration_ms: self.duration_ms,
            decode_ms_bits: self.decode_ms_bits,
            stream: self.stream,
            via_api_key: copied_text(&self.via_api_key),
            client: copied_text(&self.client),
        }
    }
}

/// The entry of a record made at `at_ms`. The two durations stay apart, and
/// neither is derived from the other.
pub open spec fn entry_of(record: Record, at_ms: u64) -> RecentView {
    RecentView {
        request_id: record.request_id@,
        at_ms,
        route: record.route@,
        status: record.status,
        prompt_tokens: match record.usage {
            Some(u) => u.prompt_tokens,
            None => 0,
        },
        completion_tokens: match record.usage {
            Some(u) => u.completion_tokens,
            None => 0,
        },
        ttft_ms_bits: match record.usage {
            Some(u) => u.time_to_first_token_ms_bits,
            None => None,
        },
        duration_ms: record.duration_ms,
        decode_ms_bits: match record.usage {
            Some(u) => u.generation_duration_ms_bits,
            None => None,
        },
        stream: record.stream,
        via_api_key: text_of(record.attribution.via_api_key),
        client: text_of(record.attribution.client),
    }
}

/// Builds one ring entry from what a finished request knows.
pub fn entry(record: Record, at_ms: u64) -> (e: RecentRequest)
    ensures
        e@ == entry_of(record, at_ms),
{
    let (prompt_tokens, completion_tokens, ttft_ms_bits, decode_ms_bits): (
        usize,
        usize,
        Option<u64>,
        Option<u64>,
    ) = match record.usage {
        Some(u) => (
            u.prompt_tokens,
            u.completion_tokens,
            u.time_to_first_token_ms_bits,
            u.generation_duration_ms_bits,
        ),
        None => (0, 0, None, None),
    };
    RecentRequest {
        request_id: record.request_id.to_owned(),
        at_ms,
        route: record.route.to_owned(),
        status: record.status,
        prompt_tokens,
        completion_tokens,
        ttft_ms_bits,
        duration_ms: record.duration_ms,
        decode_ms_bits,
        stream: record.stream,
        via_api_key: copied_text(&record.attribution.via_api_key),
        client: copied_text(&record.attribution.client),
    }
}

/// The ring and the running totals.
#[derive(Debug)]
pub struct Stats {
    recent: VecDeque<RecentRequest>,
    tokens_prompt_total: u64,
    tokens_generated_total: u64,
}

/// What a ring of `kept` becomes with one more entry: the newest stay.
pub open spec fn remembered(kept: Seq<RecentView>, more: RecentView) -> Seq<RecentView> {
    if kept.len() == RING_CAPACITY {
        kept.skip(1).push(more)
    } else {
        kept.push(more)
    }
}

impl View for Stats {
    type V = Seq<RecentView>;

    /// The remembered requests, oldest first.
    closed spec fn view(&self) -> Seq<RecentView> {
        Seq::new(self.recent@.len(), |i: int| self.recent@[i]@)
    }
}

impl Stats {
    /// Prompt tokens over all requests, wrapping.
    pub closed spec fn prompt_total(&self) -> u64 {
        self.tokens_prompt_total
    }

    /// Generated tokens over all requests, wrapping.
    pub closed spec fn generated_total(&self) -> u64 {
        self.tokens_generated_total
    }

    /// The ring is never larger than its capacity.
    pub open spec fn wf(&self) -> bool {
        self@.len() <= RING_CAPACITY
    }

    /// Nothing recorded yet.
    pub fn new() -> (s: Stats)
        ensures
            s.wf(),
            s@.len() == 0,
            s.prompt_total() == 0,
            s.generated_total() == 0,
    {
        Stats { recent: VecDeque::new(), tokens_prompt_total: 0, tokens_generated_total: 0 }
    }

    /// Records one finished request.
    pub fn record(&mut self, entry: RecentRequest)
        requires
            old(self).wf(),
        ensures
            final(self).wf(),
            final(self)@ == remembered(old(self)@, entry@),
            final(self).prompt_total() == old(self).prompt_total().wrapping_add(entry.prompt_tokens as u64),
            final(self).generated_total() == old(self).generated_total().wrapping_add(entry.completion_tokens as u64),
    {
        let ghost kept = self@;
        self.tokens_prompt_total = self.tokens_prompt_total.wrapping_add(entry.prompt_tokens as u64);
        self.tokens_generated_total = self.tokens_generated_total.wrapping_add(entry.completion_tokens as u64);
        if self.recent.len() == RING_CAPACITY {
            let _oldest: Option<RecentRequest> = self.recent.pop_front();
            assert(self@ =~= kept.skip(1));
        }
        let ghost before = self@;
        self.recent.push_back(entry);
        assert(self@ =~= before.push(entry@));
    }

    /// The remembered requests, oldest first.
    pub fn recent(&self) -> (v: Vec<RecentRequest>)
        ensures
            v@.len() == self@.len(),
            forall|i: int| 0 <= i < v@.len() ==> (#[trigger] v@[i])@ == self@[i],
    {
        let mut v: Vec<RecentRequest> = Vec::new();
        for i in 0usize..self.recent.len()
            invariant
                v@.len() == i,
                forall|k: int| 0 <= k < i ==> (#[trigger] v@[k])@ == self@[k],
        {
            v.push(self.recent[i].copied());
        }
        v
    }

    /// Prompt tokens over all requests.
    pub fn tokens_prompt_total(&self) -> (n: u64)
        ensures
            n == self.prompt_total(),
    {
        self.tokens_prompt_total
    }

    /// Generated tokens over all requests.
    pub fn tokens_generated_total(&self) -> (n: u64)
        ensures
            n == self.generated_total(),
    {
        self.tokens_generated_total
    }
}

/// The ring after recording all of `entries`, from empty.
pub open spec fn ring_of(entries: Seq<RecentView>) -> Seq<RecentView>
    decreases entries.len(),
{
    if entries.len() == 0 {
        Seq::empty()
    } else {
        remembered(ring_of(entries.drop_last()), entries.last())
    }
}

/// The ring always holds the newest entries, in order, and as many of them
/// as it has room for.
pub proof fn law_the_ring_keeps_the_newest(entries: Seq<RecentView>)
    ensures
        ring_of(entries) == if entries.len() <= RING_CAPACITY {
            entries
        } else {
            entries.skip(entries.len() - RING_CAPACITY)
        },
    decreases entries.len(),
{
    if entries.len() > 0 {
        let rest = entries.drop_last();
        law_the_ring_keeps_the_newest(rest);
        if entries.len() <= RING_CAPACITY {
            assert(rest.push(entries.last()) =~= entries);
        } else if rest.len() == RING_CAPACITY {
            assert(rest.skip(1).push(entries.last()) =~= entries.skip(1));
        } else {
            let kept = rest.skip(rest.len() - RING_CAPACITY);
            assert(kept.skip(1).push(entries.last()) =~= entries.skip(entries.len() - RING_CAPACITY));
        }
    } else {
        assert(entries =~= Seq::empty());
    }
}

/// An entry says of a request exactly what the request knows of itself; one
/// that could not count has no tokens and no timings.
pub proof fn law_an_entry_is_its_record(record: Record, at_ms: u64)
    ensures
        ({
            let e = entry_of(record, at_ms);
            &&& e.request_id == record.request_id@
            &&& e.at_ms == at_ms
            &&& e.route == record.route@
            &&& e.status == record.status
            &&& e.duration_ms == record.duration_ms
            &&& e.stream == record.stream
            &&& e.via_api_key == text_of(record.attribution.via_api_key)
            &&& e.client == text_of(record.attribution.client)
            &&& record.usage is None ==> e.prompt_tokens == 0 && e.completion_tokens == 0 && e.ttft_ms_bits is None
                && e.decode_ms_bits is None
            &&& record.usage is Some ==> e.prompt_tokens == record.usage->0.prompt_tokens && e.completion_tokens
                == record.usage->0.completion_tokens && e.ttft_ms_bits == record.usage->0.time_to_first_token_ms_bits
                && e.decode_ms_bits == record.usage->0.generation_duration_ms_bits
        }),
{
}

/// A remembered request is seen field by field as it is.
pub proof fn law_a_remembered_request_is_seen_whole(r: RecentRequest)
    ensures
        r@.request_id == r.request_id@,
        r@.at_ms == r.at_ms,
        r@.route == r.route@,
        r@.status == r.status,
        r@.prompt_tokens == r.prompt_tokens,
        r@.completion_tokens == r.completion_tokens,
        r@.ttft_ms_bits == r.ttft_ms_bits,
        r@.duration_ms == r.duration_ms,
        r@.decode_ms_bits == r.decode_ms_bits,
        r@.stream == r.stream,
        r@.via_api_key == text_of(r.via_api_key),
        r@.client == text_of(r.client),
{
}

/// Recording keeps the newest request last and forgets the oldest one only
/// when there are two hundred.
pub proof fn law_recording_forgets_only_the_oldest(kept: Seq<RecentView>, more: RecentView)
    ensures
        remembered(kept, more).len() > 0,
        remembered(kept, more).last() == more,
        kept.len() < 200 ==> remembered(kept, more).drop_last() == kept,
        kept.len() == 200 ==> remembered(kept, more).drop_last() == kept.skip(1),
{
    assert(kept.push(more).drop_last() =~= kept);
    assert(kept.len() == 200 ==> kept.skip(1).push(more).drop_last() =~= kept.skip(1));
}

/// A recorded request adds its own tokens to both totals, and nothing else
/// does; the totals start over once they are full.
pub proof fn law_a_request_adds_its_tokens(s: &mut Stats, entry: RecentRequest, r: (), p0: u64, p1: u64, g0: u64, g1: u64)
    requires
        call_ensures(Stats::record, (s, entry), r),
        call_ensures(Stats::tokens_prompt_total, (&*old(s),), p0),
        call_ensures(Stats::tokens_prompt_total, (&*final(s),), p1),
        call_ensures(Stats::tokens_generated_total, (&*old(s),), g0),
        call_ensures(Stats::tokens_generated_total, (&*final(s),), g1),
    ensures
        p1 == (p0 + entry.prompt_tokens) % 0x1_0000_0000_0000_0000,
        g1 == (g0 + entry.completion_tokens) % 0x1_0000_0000_0000_0000,
{
}

/// A recorded request is the newest of those remembered, with its own id,
/// time and tokens.
pub proof fn law_a_recorded_request_is_the_newest(
    s: &mut Stats,
    record: Record,
    at_ms: u64,
    e: RecentRequest,
    u: (),
    v: Vec<RecentRequest>,
)
    requires
        call_ensures(entry, (record, at_ms), e),
        call_ensures(Stats::record, (s, e), u),
        call_ensures(Stats::recent, (&*final(s),), v),
    ensures
        v@.len() > 0,
        v@.last()@.request_id == record.request_id@,
        v@.last()@.route == record.route@,
        v@.last()@.at_ms == at_ms,
        v@.last()@.status == record.status,
        v@.last()@.stream == record.stream,
        v@.last()@.duration_ms == record.duration_ms,
{
    assert(v@.last()@ == final(s)@.last());
}

} // verus!
