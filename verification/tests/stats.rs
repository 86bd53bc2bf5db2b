use ferrox::stats::{entry, Attribution, Record, RecentRequest, Stats, TimedUsage, RING_CAPACITY};

fn usage() -> TimedUsage {
    TimedUsage {
        prompt_tokens: 100,
        completion_tokens: 10,
        time_to_first_token_ms_bits: Some(900.0f64.to_bits()),
        generation_duration_ms_bits: Some(100.0f64.to_bits()),
    }
}

fn record<'a>(id: &'a str, usage: Option<TimedUsage>, attribution: &'a Attribution) -> Record<'a> {
    Record { request_id: id, route: "/r", status: 200, stream: false, duration_ms: 1, usage, attribution }
}

fn ms(bits: Option<u64>) -> Option<f64> {
    bits.map(f64::from_bits)
}

#[test]
fn an_entry_keeps_the_two_durations_apart() {
    let e: RecentRequest = entry(
        Record {
            request_id: "chatcmpl-1",
            route: "/v1/chat/completions",
            status: 200,
            stream: true,
            duration_ms: 1_100,
            usage: Some(usage()),
            attribution: &Attribution::default(),
        },
        5,
    );
    assert_eq!(e.duration_ms, 1_100);
    assert_eq!(ms(e.decode_ms_bits), Some(100.0));
    assert_eq!(ms(e.ttft_ms_bits), Some(900.0));
    assert_eq!(e.prompt_tokens, 100);
    assert_eq!(e.completion_tokens, 10);
    assert_eq!(e.at_ms, 5);
    assert!(e.stream);
}

#[test]
fn an_untimed_request_reports_null_rather_than_reusing_the_total() {
    let e = entry(
        Record {
            request_id: "chatcmpl-2",
            route: "/v1/completions",
            status: 200,
            stream: false,
            duration_ms: 42,
            usage: None,
            attribution: &Attribution::default(),
        },
        0,
    );
    assert_eq!(ms(e.decode_ms_bits), None);
    assert_eq!(ms(e.ttft_ms_bits), None);
    assert_eq!(e.duration_ms, 42);
    assert_eq!(e.prompt_tokens, 0);
}

#[test]
fn token_totals_accumulate_across_requests() {
    let mut stats = Stats::new();
    for _ in 0..3 {
        stats.record(entry(record("id", Some(usage()), &Attribution::default()), 0));
    }
    assert_eq!(stats.tokens_prompt_total(), 300);
    assert_eq!(stats.tokens_generated_total(), 30);
}

#[test]
fn the_ring_keeps_the_newest_entries_and_drops_the_oldest() {
    let mut stats = Stats::new();
    for i in 0..RING_CAPACITY + 25 {
        stats.record(entry(record(&format!("id-{i}"), None, &Attribution::default()), 0));
    }
    let recent = stats.recent();
    assert_eq!(recent.len(), RING_CAPACITY);
    assert_eq!(recent[0].request_id, "id-25");
    assert_eq!(recent[RING_CAPACITY - 1].request_id, format!("id-{}", RING_CAPACITY + 24));
}

#[test]
fn an_error_response_is_recorded_with_its_status() {
    let mut stats = Stats::new();
    stats.record(entry(
        Record {
            request_id: "id-e",
            route: "/v1/chat/completions",
            status: 503,
            stream: false,
            duration_ms: 3,
            usage: None,
            attribution: &Attribution::default(),
        },
        0,
    ));
    assert_eq!(stats.recent()[0].status, 503);
}

#[test]
fn an_entry_carries_the_attribution_it_was_given() {
    let attribution = Attribution {
        via_api_key: Some("key-deadbeef".to_string()),
        client: Some("ferrox-studio".to_string()),
    };
    let e = entry(record("id", None, &attribution), 0);
    assert_eq!(e.via_api_key.as_deref(), Some("key-deadbeef"));
    assert_eq!(e.client.as_deref(), Some("ferrox-studio"));

    let anonymous = entry(record("id", None, &Attribution::default()), 0);
    assert_eq!(anonymous.via_api_key, None);
    assert_eq!(anonymous.client, None);
}
