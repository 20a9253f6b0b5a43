use base64::Engine;
use llm_router_gateway_api::cache::{normalize, CachedResponse, ResponseCache};
use llm_router_gateway_api::json::{Json, JsonNumber};
use llm_router_gateway_api::metrics::Metrics;
use serde_json::Value;
use sha2::Digest;

fn decimal_of(text: &str) -> JsonNumber {
    JsonNumber::parse(text).unwrap()
}

fn from_value(v: &Value) -> Json {
    match v {
        Value::Null => Json::Null,
        Value::Bool(b) => Json::Bool(*b),
        Value::Number(n) => {
            if let Some(u) = n.as_u64() {
                Json::Number(JsonNumber::from_u64(u))
            } else if let Some(i) = n.as_i64() {
                Json::Number(JsonNumber::decimal(true, i.unsigned_abs(), 0))
            } else {
                Json::Number(decimal_of(&n.to_string()))
            }
        }
        Value::String(s) => Json::String(s.clone()),
        Value::Array(items) => Json::Array(items.iter().map(from_value).collect()),
        Value::Object(map) => {
            Json::Object(map.iter().map(|(k, v)| (k.clone(), from_value(v))).collect())
        }
    }
}

fn parse(text: &str) -> Json {
    from_value(&serde_json::from_str::<Value>(text).unwrap())
}

fn cache() -> ResponseCache {
    ResponseCache::new(300, 1000)
}

fn response(status: u16, body: &str) -> CachedResponse {
    CachedResponse {
        status,
        headers: vec![("content-type".to_string(), b"application/json".to_vec())],
        body: body.as_bytes().to_vec(),
    }
}

fn digest_of(text: &str) -> String {
    base64::engine::general_purpose::STANDARD.encode(sha2::Sha256::digest(text.as_bytes()))
}

#[test]
fn cacheable_examples() {
    let c = cache();
    assert!(!c.is_cacheable(&parse(r#"{"stream":true,"temperature":0}"#)));
    assert!(c.is_cacheable(&parse(r#"{"temperature":0,"top_p":1}"#)));
    assert!(!c.is_cacheable(&parse(r#"{"temperature":0.5}"#)));
}

#[test]
fn cacheable_at_the_thresholds() {
    let c = cache();
    assert!(c.is_cacheable(&parse(r#"{"temperature":0.01}"#)));
    assert!(!c.is_cacheable(&parse(r#"{"temperature":0.010001}"#)));
    assert!(c.is_cacheable(&parse(r#"{"temperature":0.0099}"#)));
    assert!(c.is_cacheable(&parse(r#"{"temperature":-1}"#)));
    assert!(!c.is_cacheable(&parse(r#"{"temperature":1}"#)));
    assert!(c.is_cacheable(&parse(r#"{"temperature":1e-2}"#)));
    assert!(c.is_cacheable(&parse(r#"{"top_p":0.999}"#)));
    assert!(!c.is_cacheable(&parse(r#"{"top_p":0.9989}"#)));
    assert!(c.is_cacheable(&parse(r#"{"top_p":1.0}"#)));
    assert!(!c.is_cacheable(&parse(r#"{"top_p":0}"#)));
    assert!(!c.is_cacheable(&parse(r#"{"temperature":0,"top_p":0.5}"#)));
}

#[test]
fn cacheable_ignores_values_of_other_kinds() {
    let c = cache();
    assert!(c.is_cacheable(&parse(r#"{}"#)));
    assert!(c.is_cacheable(&parse(r#"{"stream":false}"#)));
    assert!(c.is_cacheable(&parse(r#"{"stream":"true"}"#)));
    assert!(c.is_cacheable(&parse(r#"{"stream":1}"#)));
    assert!(c.is_cacheable(&parse(r#"{"cache":true}"#)));
    assert!(!c.is_cacheable(&parse(r#"{"cache":false}"#)));
    assert!(c.is_cacheable(&parse(r#"{"cache":null}"#)));
    assert!(c.is_cacheable(&parse(r#"{"temperature":"hot"}"#)));
    assert!(c.is_cacheable(&parse(r#"{"top_p":null}"#)));
    assert!(c.is_cacheable(&parse(r#"[1,2]"#)));
    assert!(c.is_cacheable(&Json::Null));
}

#[test]
fn normalized_body_keeps_the_allow_list_in_order() {
    let body = parse(
        r#"{"top_p":1,"zzz":1,"stop":["a"],"nim-llm-router":{"policy":"p"},"stream":false,"model":"m","messages":[],"user":"u","max_tokens":5,"temperature":0,"presence_penalty":0,"frequency_penalty":0,"stream_options":{}}"#,
    );
    assert_eq!(
        normalize(&body).to_text(),
        r#"{"frequency_penalty":0,"max_tokens":5,"messages":[],"model":"m","presence_penalty":0,"stop":["a"],"temperature":0,"top_p":1}"#
    );
    assert_eq!(normalize(&parse("{}")).to_text(), "{}");
    assert_eq!(normalize(&parse(r#"{"user":"u"}"#)).to_text(), "{}");
    assert_eq!(normalize(&parse("[1]")).to_text(), "[1]");
    assert_eq!(normalize(&Json::string("s")).to_text(), "\"s\"");
}

#[test]
fn key_is_the_encoded_digest_of_path_and_normalized_body() {
    let c = cache();
    let body = parse(
        r#"{"nim-llm-router":{"policy":"p1"},"messages":[{"role":"user","content":"q"}],"temperature":0}"#,
    );
    let key = c.generate_key(&body, "/v1/chat/completions");
    assert_eq!(
        key,
        digest_of(
            r#"/v1/chat/completions:{"messages":[{"content":"q","role":"user"}],"temperature":0}"#
        )
    );
    assert_eq!(key.len(), 44);
    assert_eq!(c.generate_key(&parse("{}"), ""), digest_of(":{}"));
    assert_eq!(
        c.generate_key(&parse("{}"), ""),
        "MRR5DzDfejdbd5E8IVrE3Vt1Um2VLeaULWSef09+psQ="
    );
}

#[test]
fn key_does_not_depend_on_fields_outside_the_allow_list() {
    let c = cache();
    let a = parse(r#"{"messages":[{"role":"user","content":"q"}],"temperature":0}"#);
    let b = parse(
        r#"{"user":"u","stream":false,"temperature":0,"nim-llm-router":{"policy":"p2","model":"x"},"messages":[{"role":"user","content":"q"}],"n":3}"#,
    );
    let reordered = Json::Object(vec![
        ("zeta".to_string(), Json::Null),
        ("temperature".to_string(), Json::unsigned(0)),
        ("alpha".to_string(), Json::Null),
        ("messages".to_string(), a.get("messages").unwrap().clone()),
    ]);
    let key = c.generate_key(&a, "/v1/chat/completions");
    assert_eq!(c.generate_key(&b, "/v1/chat/completions"), key);
    assert_eq!(c.generate_key(&reordered, "/v1/chat/completions"), key);
    assert_eq!(ResponseCache::new(1, 1).generate_key(&a, "/v1/chat/completions"), key);
}

#[test]
fn key_changes_with_each_allow_listed_field_and_with_the_path() {
    let c = cache();
    let base = parse(r#"{"messages":[{"role":"user","content":"q"}]}"#);
    let key = c.generate_key(&base, "/v1/chat/completions");
    assert_ne!(c.generate_key(&base, "/v1/completions"), key);
    let changes = [
        r#"{"messages":[{"role":"user","content":"r"}]}"#,
        r#"{"messages":[{"role":"user","content":"q"}],"model":"m"}"#,
        r#"{"messages":[{"role":"user","content":"q"}],"temperature":0}"#,
        r#"{"messages":[{"role":"user","content":"q"}],"top_p":1}"#,
        r#"{"messages":[{"role":"user","content":"q"}],"max_tokens":1}"#,
        r#"{"messages":[{"role":"user","content":"q"}],"frequency_penalty":0}"#,
        r#"{"messages":[{"role":"user","content":"q"}],"presence_penalty":0}"#,
        r#"{"messages":[{"role":"user","content":"q"}],"stop":"x"}"#,
    ];
    let mut seen = vec![key];
    for text in changes {
        let k = c.generate_key(&parse(text), "/v1/chat/completions");
        assert!(!seen.contains(&k), "{}", text);
        seen.push(k);
    }
}

#[test]
fn set_then_get_is_a_hit_with_the_same_response() {
    let mut c = cache();
    let mut m = Metrics::new();
    assert!(c.get("k", 0, &mut m).is_none());
    assert_eq!((m.cache_hit_count, m.cache_miss_count), (0, 1));
    assert!(c.set("k", response(200, "\"42\""), 1_000).is_ok());
    let found = c.get("k", 2_000, &mut m).unwrap();
    assert_eq!(found.status, 200);
    assert_eq!(found.body, b"\"42\"".to_vec());
    assert_eq!(
        found.headers,
        vec![("content-type".to_string(), b"application/json".to_vec())]
    );
    assert_eq!((m.cache_hit_count, m.cache_miss_count), (1, 1));
    let again = c.get("k", 3_000, &mut m).unwrap();
    assert_eq!(again.body, b"\"42\"".to_vec());
    assert_eq!((m.cache_hit_count, m.cache_miss_count), (2, 1));
}

#[test]
fn entries_expire_at_their_deadline() {
    let mut c = ResponseCache::new(300, 10);
    let mut m = Metrics::new();
    c.set("k", response(200, "a"), 1_000).unwrap();
    assert!(c.get("k", 300_999, &mut m).is_some());
    assert!(c.get("k", 301_000, &mut m).is_none());
    assert!(c.get("k", 400_000, &mut m).is_none());
    assert_eq!((m.cache_hit_count, m.cache_miss_count), (1, 2));
    assert_eq!(c.get_stats(300_999), (1, 1));
    assert_eq!(c.get_stats(301_000), (0, 1));
}

#[test]
fn deadline_saturates_at_the_end_of_time() {
    let mut c = ResponseCache::new(u64::MAX, 10);
    let mut m = Metrics::new();
    c.set("k", response(200, "a"), 5).unwrap();
    assert!(c.get("k", u64::MAX - 1, &mut m).is_some());
    assert!(c.get("k", u64::MAX, &mut m).is_none());
    let mut d = ResponseCache::new(1, 10);
    d.set("k", response(200, "a"), u64::MAX - 10).unwrap();
    assert!(d.get("k", u64::MAX - 1, &mut m).is_some());
}

#[test]
fn only_success_is_stored() {
    let mut c = cache();
    let mut m = Metrics::new();
    for status in [100, 199, 300, 304, 400, 404, 429, 500, 503] {
        assert!(c.set("k", response(status, "x"), 0).is_ok());
        assert!(c.get("k", 1, &mut m).is_none(), "{}", status);
    }
    assert_eq!(c.get_stats(0), (0, 0));
    for status in [200, 201, 204, 299] {
        assert!(c.set("k", response(status, "x"), 0).is_ok());
        assert_eq!(c.get("k", 1, &mut m).unwrap().status, status);
    }
    assert_eq!(c.get_stats(0), (1, 1));
}

#[test]
fn set_replaces_the_entry_of_a_key() {
    let mut c = cache();
    let mut m = Metrics::new();
    c.set("k", response(200, "old"), 0).unwrap();
    c.set("k", response(201, "new"), 10).unwrap();
    let found = c.get("k", 20, &mut m).unwrap();
    assert_eq!((found.status, found.body), (201, b"new".to_vec()));
    assert_eq!(c.get_stats(20), (1, 1));
    c.set("k", response(500, "bad"), 30).unwrap();
    assert_eq!(c.get("k", 40, &mut m).unwrap().body, b"new".to_vec());
}

#[test]
fn at_capacity_a_new_key_evicts_the_soonest_to_expire() {
    let mut c = ResponseCache::new(100, 3);
    let mut m = Metrics::new();
    c.set("b", response(200, "b"), 20).unwrap();
    c.set("a", response(200, "a"), 10).unwrap();
    c.set("c", response(200, "c"), 30).unwrap();
    assert_eq!(c.get_stats(0), (3, 3));
    c.set("d", response(200, "d"), 40).unwrap();
    assert_eq!(c.get_stats(0), (3, 3));
    assert!(c.get("a", 50, &mut m).is_none());
    assert!(c.get("b", 50, &mut m).is_some());
    assert!(c.get("c", 50, &mut m).is_some());
    assert!(c.get("d", 50, &mut m).is_some());
    c.set("b", response(200, "b2"), 60).unwrap();
    assert_eq!(c.get_stats(0), (3, 3));
    assert_eq!(c.get("b", 61, &mut m).unwrap().body, b"b2".to_vec());
    assert!(c.get("c", 61, &mut m).is_some());
    c.set("e", response(200, "e"), 70).unwrap();
    assert!(c.get("c", 71, &mut m).is_none());
    assert!(c.get("d", 71, &mut m).is_some());
    assert!(c.get("b", 71, &mut m).is_some());
    assert!(c.get("e", 71, &mut m).is_some());
}

#[test]
fn eviction_removes_one_entry_only() {
    let mut c = ResponseCache::new(100, 1);
    c.set("a", response(200, "a"), 1).unwrap();
    c.set("b", response(200, "b"), 2).unwrap();
    assert_eq!(c.get_stats(0), (1, 1));
    let mut zero = ResponseCache::new(100, 0);
    zero.set("a", response(200, "a"), 1).unwrap();
    assert_eq!(zero.get_stats(0), (1, 1));
    zero.set("b", response(200, "b"), 2).unwrap();
    assert_eq!(zero.get_stats(0), (1, 1));
    let mut m = Metrics::new();
    assert!(zero.get("a", 3, &mut m).is_none());
    assert!(zero.get("b", 3, &mut m).is_some());
}

#[test]
fn clean_expired_removes_what_has_passed() {
    let mut c = ResponseCache::new(1, 10);
    let mut m = Metrics::new();
    c.set("a", response(200, "a"), 0).unwrap();
    c.set("b", response(200, "b"), 500).unwrap();
    c.set("c", response(200, "c"), 1_000).unwrap();
    c.set("d", response(200, "d"), 0).unwrap();
    assert_eq!(c.get_stats(1_000), (2, 4));
    c.clean_expired(999);
    assert_eq!(c.get_stats(999), (4, 4));
    c.clean_expired(1_000);
    assert_eq!(c.get_stats(1_000), (2, 2));
    assert!(c.get("a", 1_000, &mut m).is_none());
    assert!(c.get("d", 1_000, &mut m).is_none());
    assert!(c.get("b", 1_000, &mut m).is_some());
    assert!(c.get("c", 1_000, &mut m).is_some());
    c.clean_expired(1_500);
    assert_eq!(c.get_stats(1_500), (1, 1));
    c.clean_expired(u64::MAX);
    assert_eq!(c.get_stats(0), (0, 0));
    c.clean_expired(0);
    assert_eq!(c.get_stats(0), (0, 0));
}

#[test]
fn identical_requests_share_an_entry() {
    let mut c = cache();
    let mut m = Metrics::new();
    let first = parse(
        r#"{"nim-llm-router":{"policy":"p1"},"messages":[{"role":"user","content":"q"}],"temperature":0}"#,
    );
    let second = parse(
        r#"{"temperature":0,"messages":[{"role":"user","content":"q"}],"nim-llm-router":{"policy":"p1"}}"#,
    );
    assert!(c.is_cacheable(&first) && c.is_cacheable(&second));
    let key = c.generate_key(&first, "/v1/chat/completions");
    assert!(c.get(&key, 0, &mut m).is_none());
    c.set(&key, response(200, "\"42\""), 0).unwrap();
    let key2 = c.generate_key(&second, "/v1/chat/completions");
    let hit = c.get(&key2, 1, &mut m).unwrap();
    assert_eq!(hit.body, b"\"42\"".to_vec());
    assert_eq!(m.cache_hit_count, 1);
}
