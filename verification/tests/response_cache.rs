use ferrox::generate::{FinishReason, GenerationParams, Usage};
use ferrox::response_cache::{generation_key, CacheKey, CachedCompletion, ResponseCache};
use ferrox::sampling::{SamplerOrder, SamplingParams};
use std::collections::hash_map::DefaultHasher;
use std::hash::{Hash, Hasher};

const SECOND: u128 = 1_000_000_000;

fn key(prompt: &str) -> CacheKey {
    key_under(prompt, |_| {})
}

/// A key built the way the server builds one; `tweak` is the single
/// parameter under test.
fn key_under(prompt: &str, tweak: impl FnOnce(&mut GenerationParams)) -> CacheKey {
    let mut params = params();
    tweak(&mut params);
    CacheKey {
        model: "test-model".to_string(),
        prompt: prompt.to_string(),
        generation: generation_key(&params),
        seed: None,
    }
}

fn params() -> GenerationParams {
    GenerationParams {
        max_tokens: 16,
        sampling: SamplingParams::default(),
        seed: 0,
        stop: Vec::new(),
        stop_token_ids: Vec::new(),
        json_object: false,
        grammar: None,
        cancel: None,
        ignore_eos: false,
    }
}

fn cc(text: &str) -> CachedCompletion {
    CachedCompletion { content: text.to_string(), finish: FinishReason::Stop, usage: Usage::new(3, 5) }
}

fn get(cache: &mut ResponseCache, key: &CacheKey) -> Option<String> {
    cache.get(key, 0).map(|c| {
        assert_eq!(c.finish, FinishReason::Stop);
        assert_eq!(c.usage, Usage::new(3, 5));
        c.content
    })
}

fn text(s: &str) -> Option<String> {
    Some(s.to_string())
}

#[test]
fn miss_then_hit_for_the_same_key() {
    let mut cache = ResponseCache::new(10, 60 * SECOND);
    assert_eq!(get(&mut cache, &key("hello")), None);
    cache.put(key("hello"), cc("world"), 0);
    assert_eq!(get(&mut cache, &key("hello")), text("world"));

    let stats = cache.stats();
    assert_eq!(stats.hits, 1);
    assert_eq!(stats.misses, 1);
    assert_eq!(stats.entries, 1);
}

#[test]
fn different_keys_do_not_collide() {
    let mut cache = ResponseCache::new(10, 60 * SECOND);
    cache.put(key("prompt a"), cc("response a"), 0);
    cache.put(key("prompt b"), cc("response b"), 0);
    assert_eq!(get(&mut cache, &key("prompt a")), text("response a"));
    assert_eq!(get(&mut cache, &key("prompt b")), text("response b"));
}

#[test]
fn different_max_tokens_is_a_different_key_even_for_the_same_prompt() {
    let mut cache = ResponseCache::new(10, 60 * SECOND);
    let k1 = key_under("same prompt", |p| p.max_tokens = 16);
    let k2 = key_under("same prompt", |p| p.max_tokens = 32);

    cache.put(k1.copied(), cc("short response"), 0);
    assert_eq!(
        get(&mut cache, &k2),
        None,
        "different max_tokens must be a cache miss even with identical prompt text"
    );
    assert_eq!(get(&mut cache, &k1), text("short response"));
}

#[test]
fn a_grammar_request_is_not_served_the_unconstrained_answer() {
    let mut cache = ResponseCache::new(10, 60 * SECOND);

    let plain = key("same prompt");
    cache.put(plain.copied(), cc("Sure! Here are a few options..."), 0);

    let constrained = key_under("same prompt", |p| p.grammar = Some("root ::= \"yes\" | \"no\"".to_string()));

    assert_eq!(
        get(&mut cache, &constrained),
        None,
        "a grammar-constrained request must not be answered with prose generated under no grammar"
    );
    assert_eq!(
        get(&mut cache, &plain),
        text("Sure! Here are a few options..."),
        "the unconstrained entry is still there: the miss above is the grammar, not an unstable key"
    );
}

#[test]
fn two_different_grammars_do_not_share_an_answer() {
    let mut cache = ResponseCache::new(10, 60 * SECOND);
    let keyed = |src: &'static str| key_under("same prompt", move |p| p.grammar = Some(src.to_string()));

    let yes_no = keyed("root ::= \"yes\" | \"no\"");
    let digits = keyed("root ::= [0-9]+");
    cache.put(yes_no.copied(), cc("yes"), 0);

    assert_eq!(
        get(&mut cache, &digits),
        None,
        "a request constrained to digits must not be served an answer produced under a yes/no grammar"
    );
    assert_eq!(get(&mut cache, &yes_no), text("yes"));
}

#[test]
fn a_json_object_request_is_not_served_the_unconstrained_answer() {
    let mut cache = ResponseCache::new(10, 60 * SECOND);

    let plain = key("same prompt");
    cache.put(plain.copied(), cc("Sure! Here are a few options..."), 0);

    let json = key_under("same prompt", |p| p.json_object = true);

    assert_eq!(
        get(&mut cache, &json),
        None,
        "a json_object request must not be answered with prose the JSON mask never saw"
    );
    assert_eq!(get(&mut cache, &plain), text("Sure! Here are a few options..."));
}

#[test]
fn an_ignore_eos_request_is_not_served_the_eos_terminated_answer() {
    let mut cache = ResponseCache::new(10, 60 * SECOND);

    let stops_at_eos = key("same prompt");
    cache.put(stops_at_eos.copied(), cc("short"), 0);

    let runs_on = key_under("same prompt", |p| p.ignore_eos = true);

    assert_eq!(
        get(&mut cache, &runs_on),
        None,
        "ignore_eos must not be answered with a completion that stopped at the model's EOS"
    );
    assert_eq!(get(&mut cache, &stops_at_eos), text("short"));
}

#[test]
fn expired_entry_is_a_miss_and_is_evicted() {
    let mut cache = ResponseCache::new(10, 10_000_000);
    cache.put(key("hello"), cc("world"), 0);
    assert!(cache.get(&key("hello"), 10_000_000).is_some(), "exactly the time to live is not past it");
    assert!(
        cache.get(&key("hello"), 30_000_000).is_none(),
        "entry older than the TTL must be treated as a miss"
    );
    assert_eq!(cache.stats().entries, 0, "expired entry must actually be evicted, not just skipped");
}

#[test]
fn evicts_least_recently_used_entry_when_full() {
    let mut cache = ResponseCache::new(2, 60 * SECOND);
    cache.put(key("a"), cc("1"), 0);
    cache.put(key("b"), cc("2"), 0);
    // touch "a" so "b" becomes the least-recently-used entry
    assert_eq!(get(&mut cache, &key("a")), text("1"));
    cache.put(key("c"), cc("3"), 0);

    assert_eq!(get(&mut cache, &key("b")), None, "least-recently-used entry ('b') must have been evicted");
    assert_eq!(get(&mut cache, &key("a")), text("1"), "recently-touched entry ('a') must survive eviction");
    assert_eq!(get(&mut cache, &key("c")), text("3"), "newly inserted entry ('c') must be present");
}

#[test]
fn putting_an_existing_key_again_does_not_grow_past_capacity() {
    let mut cache = ResponseCache::new(2, 60 * SECOND);
    cache.put(key("a"), cc("1"), 0);
    cache.put(key("b"), cc("2"), 0);
    cache.put(key("a"), cc("1-updated"), 0); // re-insert, should replace, not evict
    assert_eq!(cache.stats().entries, 2);
    assert_eq!(get(&mut cache, &key("a")), text("1-updated"));
    assert_eq!(get(&mut cache, &key("b")), text("2"), "unrelated entry must survive a re-insert of another key");
}

#[test]
fn digest_is_stable_for_identical_keys_and_differs_for_different_keys() {
    let a1 = key("hello");
    let a2 = key("hello");
    let b = key("goodbye");
    assert_eq!(a1.digest(), a2.digest());
    assert_ne!(a1.digest(), b.digest());
    assert_eq!(a1.digest().len(), 16);
    assert!(a1.digest().chars().all(|c| c.is_ascii_hexdigit()));
}

#[test]
fn the_resolved_seed_and_the_cancel_handle_are_not_part_of_the_key() {
    let plain = key("p");
    let other = key_under("p", |p| {
        p.seed = 99;
        p.cancel = Some(4);
    });
    assert!(plain.same(&other));
    let mut seeded = key("p");
    seeded.seed = Some(99);
    assert!(!plain.same(&seeded));
    assert!(!plain.same(&key_under("p", |p| p.stop = vec!["x".to_string()])));
    assert!(!plain.same(&key_under("p", |p| p.sampling.top_k = 1)));
}

#[test]
fn a_cache_of_no_entries_still_holds_the_last_answer() {
    let mut cache = ResponseCache::new(0, 60 * SECOND);
    cache.put(key("a"), cc("1"), 0);
    cache.put(key("b"), cc("2"), 0);
    assert_eq!(cache.stats().entries, 1);
    assert_eq!(get(&mut cache, &key("b")), text("2"));
}

#[test]
fn what_stands_side_by_side_in_a_key_is_kept_apart_in_its_digest() {
    let named = |model: &str, prompt: &str| CacheKey { model: model.to_string(), ..key(prompt) };
    assert_ne!(named("a", "bc").digest(), named("ab", "c").digest());
    assert_ne!(named("", "abc").digest(), named("abc", "").digest());

    let stopped = |stop: &[&str]| key_under("p", |p| p.stop = stop.iter().map(|s| s.to_string()).collect());
    assert_ne!(stopped(&["a", "bc"]).digest(), stopped(&["ab", "c"]).digest());
    assert_ne!(stopped(&["abc"]).digest(), stopped(&["ab", "c"]).digest());
    assert_ne!(stopped(&[]).digest(), stopped(&[""]).digest());

    let ids = |ids: &[usize]| key_under("p", |p| p.stop_token_ids = ids.to_vec());
    assert_ne!(ids(&[1, 23]).digest(), ids(&[12, 3]).digest());
    assert_ne!(ids(&[123]).digest(), ids(&[1, 23]).digest());
    assert_eq!(ids(&[1, 23]).digest(), ids(&[1, 23]).digest());

    let under = |grammar: Option<&str>| key_under("p", |p| p.grammar = grammar.map(|g| g.to_string()));
    assert_ne!(under(None).digest(), under(Some("")).digest());
    assert_ne!(CacheKey { seed: Some(0), ..key("p") }.digest(), key("p").digest());
}

/// The fields of a key, hashed as `derive` has it.
#[derive(Hash)]
struct Hashed {
    model: String,
    prompt: String,
    generation: HashedGeneration,
    seed: Option<u64>,
}

#[derive(Hash)]
struct HashedGeneration {
    max_tokens: usize,
    sampling: HashedSampling,
    stop: Vec<String>,
    stop_token_ids: Vec<usize>,
    json_object: bool,
    grammar: Option<String>,
    ignore_eos: bool,
}

#[derive(Hash)]
struct HashedSampling {
    temperature_bits: u32,
    top_p_bits: u32,
    min_p_bits: u32,
    top_k: usize,
    repetition_penalty_bits: u32,
    penalty_last_n: usize,
    presence_penalty_bits: u32,
    frequency_penalty_bits: u32,
}

fn hashed(key: &CacheKey) -> String {
    let (g, s) = (&key.generation, &key.generation.sampling);
    let fields = Hashed {
        model: key.model.clone(),
        prompt: key.prompt.clone(),
        generation: HashedGeneration {
            max_tokens: g.max_tokens,
            sampling: HashedSampling {
                temperature_bits: s.temperature_bits,
                top_p_bits: s.top_p_bits,
                min_p_bits: s.min_p_bits,
                top_k: s.top_k,
                repetition_penalty_bits: s.repetition_penalty_bits,
                penalty_last_n: s.penalty_last_n,
                presence_penalty_bits: s.presence_penalty_bits,
                frequency_penalty_bits: s.frequency_penalty_bits,
            },
            stop: g.stop.clone(),
            stop_token_ids: g.stop_token_ids.clone(),
            json_object: g.json_object,
            grammar: g.grammar.as_ref().map(|k| k.0.clone()),
            ignore_eos: g.ignore_eos,
        },
        seed: key.seed,
    };
    let mut hasher = DefaultHasher::new();
    fields.hash(&mut hasher);
    format!("{:016x}", hasher.finish())
}

#[test]
fn a_digest_is_the_derived_hash_of_the_keys_fields() {
    let plain = key("hello");
    assert_eq!(plain.digest(), hashed(&plain));
    let full = CacheKey {
        seed: Some(7),
        ..key_under("h\u{e9}llo", |p| {
            p.max_tokens = 300;
            p.sampling.temperature_bits = 0.7f32.to_bits();
            p.sampling.top_p_bits = 0.9f32.to_bits();
            p.sampling.min_p_bits = 0.05f32.to_bits();
            p.sampling.top_k = 70_000;
            p.sampling.repetition_penalty_bits = 1.1f32.to_bits();
            p.sampling.penalty_last_n = 64;
            p.sampling.presence_penalty_bits = 0.25f32.to_bits();
            p.sampling.frequency_penalty_bits = 0.5f32.to_bits();
            p.stop = vec!["END".to_string(), String::new()];
            p.stop_token_ids = vec![2, 100_000, 0];
            p.json_object = true;
            p.grammar = Some("root ::= x".to_string());
            p.ignore_eos = true;
        })
    };
    assert_eq!(full.digest(), hashed(&full));
    let empty = CacheKey { model: String::new(), ..key("") };
    assert_eq!(empty.digest(), hashed(&empty));
    for max_tokens in [0usize, 1, 255, 256, 65_536, usize::MAX] {
        let k = key_under("p", |p| p.max_tokens = max_tokens);
        assert_eq!(k.digest(), hashed(&k));
    }
}

#[test]
fn a_spelled_out_sampler_chain_changes_the_digest() {
    let chained = |chain: &str| key_under("p", |p| p.sampling.sampler_order = SamplerOrder::Chain(chain.to_string()));
    assert_ne!(chained("").digest(), key("p").digest());
    assert_ne!(chained("top_k").digest(), chained("top_p").digest());
    assert_eq!(chained("top_k").digest(), chained("top_k").digest());
}
