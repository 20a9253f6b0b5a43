use llm_router_gateway_api::json::{Json, JsonNumber};
use llm_router_gateway_api::nim::{
    clean_text, configure_nim_environment, get_model_parameters, sanitize_input, Cleaning,
    NimHelper,
};
use serde_json::Value;

fn decimal_of(text: &str) -> JsonNumber {
    JsonNumber::parse(text).unwrap()
}

fn from_value(v: &Value) -> Json {
    match v {
        Value::Null => Json::Null,
        Value::Bool(b) => Json::Bool(*b),
        Value::Number(n) => {
            if let Some(u) = n.as_u64() {
                Json::Number(JsonNumber::from_u64(u))
            } else if let Some(i) = n.as_i64() {
                Json::Number(JsonNumber::decimal(true, i.unsigned_abs(), 0))
            } else {
                Json::Number(decimal_of(&n.to_string()))
            }
        }
        Value::String(s) => Json::String(s.clone()),
        Value::Array(items) => Json::Array(items.iter().map(from_value).collect()),
        Value::Object(map) => {
            Json::Object(map.iter().map(|(k, v)| (k.clone(), from_value(v))).collect())
        }
    }
}

fn parse(text: &str) -> Json {
    from_value(&serde_json::from_str::<Value>(text).unwrap())
}

fn value(json: &Json) -> Value {
    serde_json::from_str(&json.to_text()).unwrap()
}

fn pairs(list: &[(&str, &str)]) -> Vec<(String, String)> {
    list.iter().map(|(k, v)| (k.to_string(), v.to_string())).collect()
}

#[test]
fn test_sanitize_input() {
    // Test chat completion input sanitization
    let mut input = Json::Object(vec![(
        "messages".to_string(),
        Json::Array(vec![Json::Object(vec![
            ("role".to_string(), Json::string("user")),
            (
                "content".to_string(),
                Json::string("Hello, let's test \u{201C}fancy quotes\u{201D} and ellipsis\u{2026}"),
            ),
        ])]),
    )]);

    sanitize_input(&mut input);

    let input = value(&input);
    let content = input["messages"][0]["content"].as_str().unwrap();
    assert_eq!(content, "Hello, let's test \"fancy quotes\" and ellipsis...");

    // Test completion input sanitization
    let mut input = Json::Object(vec![(
        "prompt".to_string(),
        Json::string("Testing an em dash\u{2014}and en dash\u{2013}in text"),
    )]);

    sanitize_input(&mut input);

    let input = value(&input);
    let prompt = input["prompt"].as_str().unwrap();
    assert_eq!(prompt, "Testing an em dash--and en dash-in text");
}

#[test]
fn test_model_parameters() {
    let llama_params = value(&get_model_parameters("meta/llama-3.1-8b-instruct"));
    assert_eq!(llama_params["max_tokens"], 1024);

    let mixtral_params = value(&get_model_parameters("mistralai/mixtral-8x7b-instruct-v0.1"));
    assert_eq!(mixtral_params["max_tokens"], 2048);

    let mistral_params = value(&get_model_parameters("mistralai/mistral-7b-instruct-v0.1"));
    assert_eq!(mistral_params["max_tokens"], 1024);
}

#[test]
fn model_parameters_in_full() {
    let llama = value(&get_model_parameters("meta/llama-3.1-8b-instruct"));
    assert_eq!(llama["temperature"].as_f64(), Some(0.7));
    assert_eq!(llama["top_p"].as_f64(), Some(0.95));
    assert_eq!(llama.as_object().unwrap().len(), 3);
    let mixtral = value(&get_model_parameters("mistralai/mixtral-8x7b-instruct-v0.1"));
    assert_eq!(mixtral["temperature"].as_f64(), Some(0.7));
    assert_eq!(mixtral["top_p"].as_f64(), Some(0.9));
    let mistral = value(&get_model_parameters("mistralai/mistral-7b-instruct-v0.1"));
    assert_eq!(mistral["top_p"].as_f64(), Some(0.9));
    assert_eq!(get_model_parameters("gpt-4").to_text(), "{}");
    assert_eq!(get_model_parameters("").to_text(), "{}");
    assert_eq!(
        get_model_parameters("llama-3.1-mixtral").to_text(),
        "{\"max_tokens\":1024,\"temperature\":7e-1,\"top_p\":95e-2}"
    );
}

#[test]
fn every_typographic_character_becomes_plain() {
    assert_eq!(
        clean_text(Cleaning::Typography, "\u{2018}a\u{2019} \u{201C}b\u{201D} c\u{2013}d\u{2014}e\u{2026}"),
        "'a' \"b\" c-d--e..."
    );
    assert_eq!(clean_text(Cleaning::Typography, ""), "");
    assert_eq!(clean_text(Cleaning::Typography, "plain - text ... 'x'"), "plain - text ... 'x'");
    assert_eq!(clean_text(Cleaning::Typography, "\u{2026}\u{2026}"), "......");
    assert_eq!(clean_text(Cleaning::Typography, "\u{2015}\u{201A}\u{e0041}é"), "\u{2015}\u{201A}\u{e0041}é");
    let s = "x\u{2018}\u{2019}\u{201C}\u{201D}\u{2013}\u{2014}\u{2026}y";
    let expected = s
        .replace('\u{2018}', "'")
        .replace('\u{2019}', "'")
        .replace('\u{201C}', "\"")
        .replace('\u{201D}', "\"")
        .replace('\u{2013}', "-")
        .replace('\u{2014}', "--")
        .replace('\u{2026}', "...");
    assert_eq!(clean_text(Cleaning::Typography, s), expected);
}

#[test]
fn tag_characters_are_removed() {
    assert_eq!(clean_text(Cleaning::Tags, "a\u{e0020}b\u{e0041}c\u{e007f}d"), "abcd");
    assert_eq!(clean_text(Cleaning::Tags, "\u{e001f}\u{e0080}"), "\u{e001f}\u{e0080}");
    assert_eq!(clean_text(Cleaning::Tags, "\u{2014}\u{2026}"), "\u{2014}\u{2026}");
    assert_eq!(clean_text(Cleaning::Tags, "\u{e0020}\u{e007f}"), "");
}

#[test]
fn sanitize_input_leaves_the_rest_alone() {
    let text = r#"{"messages":[{"content":"a—b","role":"user…"},{"content":["x…"]},"bare…",{"role":"system"},{"content":"plain"}],"model":"m…","n":1,"prompt":"p…"}"#;
    let mut input = parse(text);
    sanitize_input(&mut input);
    assert_eq!(
        input.to_text(),
        r#"{"messages":[{"content":"a--b","role":"user…"},{"content":["x…"]},"bare…",{"role":"system"},{"content":"plain"}],"model":"m…","n":1,"prompt":"p..."}"#
    );
    for untouched in [r#"["a…"]"#, r#""a…""#, r#"{"messages":"a…","prompt":["b…"]}"#, "{}", "null"] {
        let mut v = parse(untouched);
        sanitize_input(&mut v);
        assert_eq!(v.to_text(), parse(untouched).to_text());
    }
}

#[test]
fn sanitize_prompt_strips_tags_from_message_contents() {
    let mut body = Json::Object(vec![
        (
            "messages".to_string(),
            Json::Array(vec![
                Json::Object(vec![("content".to_string(), Json::string("hi\u{e0041}\u{e0042}!"))]),
                Json::Object(vec![("content".to_string(), Json::string("ok\u{2014}"))]),
                Json::string("\u{e0041}"),
            ]),
        ),
        ("prompt".to_string(), Json::string("p\u{e0041}")),
    ]);
    NimHelper::sanitize_prompt(&mut body);
    let v = value(&body);
    assert_eq!(v["messages"][0]["content"], "hi!");
    assert_eq!(v["messages"][1]["content"], "ok\u{2014}");
    assert_eq!(v["messages"][2], "\u{e0041}");
    assert_eq!(v["prompt"], "p\u{e0041}");
}

#[test]
fn nim_models() {
    for model in [
        "meta/llama3-8b",
        "meta/llama-3.1-8b-instruct",
        "mistralai/mixtral-8x7b-instruct-v0.1",
        "mistralai/mistral-7b",
        "nvidia/nemotron-4-340b",
        "nvidia/llama-3.1-nemotron",
        "org/nvidia/llama",
    ] {
        assert!(NimHelper::is_nim_model(model), "{}", model);
    }
    for model in ["gpt-4", "", "meta/llama2", "mistral", "nvidia", "Meta/Llama3", "meta/llama"] {
        assert!(!NimHelper::is_nim_model(model), "{}", model);
    }
}

#[test]
fn nim_variables_become_headers() {
    let env = pairs(&[
        ("NIM_PEFT_SOURCE", "/models"),
        ("NIM_MAX_BATCH_SIZE", "8"),
        ("NIM_ENABLE_VLLM", ""),
        ("NIM_LOW_MEMORY_MODE", "bad\nvalue"),
        ("NIM_MAX_MODEL_LEN", "tab\tok"),
        ("NIM_OTHER", "x"),
        ("PATH", "/bin"),
    ]);
    assert_eq!(
        NimHelper::environment_headers(&env),
        pairs(&[
            ("NIM_MAX_BATCH_SIZE", "8"),
            ("NIM_MAX_MODEL_LEN", "tab\tok"),
            ("NIM_PEFT_SOURCE", "/models"),
        ])
    );
    let mut headers = header_map(&[("Authorization", "Bearer k")]);
    assert_eq!(NimHelper::add_nim_environment_headers(&mut headers, &env), 3);
    assert_eq!(
        held(&headers),
        pairs(&[
            ("authorization", "Bearer k"),
            ("nim_max_batch_size", "8"),
            ("nim_max_model_len", "tab\tok"),
            ("nim_peft_source", "/models"),
        ])
    );
    let mut none = http::HeaderMap::new();
    assert_eq!(NimHelper::add_nim_environment_headers(&mut none, &Vec::new()), 0);
    assert!(none.is_empty());
    let mut del = http::HeaderMap::new();
    let with_del = pairs(&[("NIM_ENABLE_VLLM", "a\u{7f}")]);
    assert_eq!(NimHelper::add_nim_environment_headers(&mut del, &with_del), 0);
    assert!(del.is_empty());
    let mut wide = http::HeaderMap::new();
    let with_wide = pairs(&[("NIM_ENABLE_VLLM", "é")]);
    assert_eq!(NimHelper::add_nim_environment_headers(&mut wide, &with_wide), 1);
    assert_eq!(wide.get("nim_enable_vllm").unwrap().as_bytes(), "é".as_bytes());
    assert_eq!(wide.len(), 1);
}

#[test]
fn the_known_logprobs_issue_switches_to_streaming() {
    let mut body = parse(r#"{"echo":true,"logprobs":2,"stream":false}"#);
    let calls = NimHelper::handle_known_issues(&mut body, "m", false);
    assert!(calls.is_empty());
    assert_eq!(body.to_text(), r#"{"echo":true,"logprobs":2,"stream":true}"#);
    for text in [
        r#"{"echo":true,"logprobs":2}"#,
        r#"{"echo":true,"logprobs":2,"stream":true}"#,
        r#"{"echo":false,"logprobs":2,"stream":false}"#,
        r#"{"echo":true,"logprobs":1,"stream":false}"#,
        r#"{"echo":true,"logprobs":2.0,"stream":false}"#,
        r#"{"echo":true,"logprobs":"2","stream":false}"#,
        r#"{"logprobs":2,"stream":false}"#,
        r#"{"echo":true,"stream":false}"#,
    ] {
        let mut v = parse(text);
        NimHelper::handle_known_issues(&mut v, "m", false);
        assert_eq!(v.to_text(), parse(text).to_text(), "{}", text);
    }
}

#[test]
fn known_issues_call_for_settings() {
    let mut lora = parse(r#"{"lora_adapters":["x"],"max_tokens":10}"#);
    assert_eq!(
        NimHelper::handle_known_issues(&mut lora, "mistralai/mixtral-8x7b", false),
        pairs(&[("NIM_MAX_LORA_RANK", "256")])
    );
    assert_eq!(
        NimHelper::handle_known_issues(&mut lora, "meta/llama-3.1-70b", false),
        pairs(&[("NIM_MAX_MODEL_LEN", "8192")])
    );
    assert_eq!(
        NimHelper::handle_known_issues(&mut lora, "mixtral-llama-3", false),
        pairs(&[("NIM_MAX_LORA_RANK", "256"), ("NIM_MAX_MODEL_LEN", "8192")])
    );
    assert_eq!(
        NimHelper::handle_known_issues(&mut lora, "mixtral-llama-3", true),
        pairs(&[("NIM_MAX_LORA_RANK", "256")])
    );
    assert_eq!(
        NimHelper::handle_known_issues(&mut lora, "nvidia/nemotron-4-340b", false),
        pairs(&[("NIM_MAX_MODEL_LEN", "128000")])
    );
    assert!(NimHelper::handle_known_issues(&mut lora, "gpt", false).is_empty());
    let mut plain = parse(r#"{"messages":[]}"#);
    assert!(NimHelper::handle_known_issues(&mut plain, "mixtral-llama-3", false).is_empty());
    let mut not_object = parse("[]");
    assert!(NimHelper::handle_known_issues(&mut not_object, "mixtral-llama-3", false).is_empty());
}

#[test]
fn vgpu_issues() {
    assert!(NimHelper::is_vgpu_prone("meta/llama-3.1-70b-instruct"));
    assert!(NimHelper::is_vgpu_prone("meta/llama-3.1-405b"));
    assert!(!NimHelper::is_vgpu_prone("meta/llama-3.1-8b"));
    assert!(NimHelper::has_vgpu_issues("meta/llama-3.1-70b", Some("NVIDIA A100 vGPU\n")));
    assert!(!NimHelper::has_vgpu_issues("meta/llama-3.1-70b", Some("NVIDIA A100\n")));
    assert!(!NimHelper::has_vgpu_issues("meta/llama-3.1-70b", Some("vgpu")));
    assert!(!NimHelper::has_vgpu_issues("meta/llama-3.1-70b", None));
    assert!(!NimHelper::has_vgpu_issues("meta/llama-3.1-8b", Some("vGPU")));
}

#[test]
fn configuring_for_a_model() {
    assert_eq!(
        NimHelper::configure_for_model("meta/llama-3.1-70b", Some("GRID vGPU"), false, Some("/home/u")),
        pairs(&[("NIM_LOW_MEMORY_MODE", "1"), ("NIM_CACHE_PATH", "/home/u/.cache/nim-cache")])
    );
    assert_eq!(
        NimHelper::configure_for_model("meta/llama-3.1-70b", Some("A100"), false, Some("/home/u")),
        pairs(&[("NIM_CACHE_PATH", "/home/u/.cache/nim-cache")])
    );
    assert_eq!(
        NimHelper::configure_for_model("meta/llama-3.1-70b", Some("vGPU"), true, Some("/home/u")),
        pairs(&[("NIM_LOW_MEMORY_MODE", "1")])
    );
    assert!(NimHelper::configure_for_model("meta/llama-3.1-8b", None, false, None).is_empty());
    assert!(NimHelper::configure_for_model("gpt-4", Some("vGPU"), false, Some("/h")).is_empty());
    assert!(NimHelper::configure_for_model("llama-3.1-70b", Some("vGPU"), false, Some("/h")).is_empty());
}

#[test]
fn settings_by_family() {
    assert_eq!(
        configure_nim_environment("meta/llama-3.1-8b"),
        pairs(&[
            ("NIM_ENABLE_PAGED_ATTENTION", "1"),
            ("NIM_ENABLE_TENSOR_PARALLEL", "1"),
            ("NIM_USE_FAST_TOKENIZER", "1"),
        ])
    );
    assert_eq!(
        configure_nim_environment("mistralai/mistral-7b"),
        pairs(&[("NIM_ENABLE_PAGED_ATTENTION", "1"), ("NIM_USE_FAST_TOKENIZER", "1")])
    );
    assert_eq!(
        configure_nim_environment("llava-1.5"),
        pairs(&[("NIM_ENABLE_MULTIMODAL", "1"), ("NIM_USE_FAST_TOKENIZER", "1")])
    );
    assert_eq!(configure_nim_environment("gpt-4"), pairs(&[("NIM_USE_FAST_TOKENIZER", "1")]));
    assert_eq!(
        configure_nim_environment("llava-mistral"),
        pairs(&[("NIM_ENABLE_PAGED_ATTENTION", "1"), ("NIM_USE_FAST_TOKENIZER", "1")])
    );
}

fn header_map(list: &[(&str, &str)]) -> http::HeaderMap {
    let mut map = http::HeaderMap::new();
    for (name, value) in list {
        map.append(
            http::HeaderName::from_bytes(name.as_bytes()).unwrap(),
            http::HeaderValue::from_str(value).unwrap(),
        );
    }
    map
}

fn held(map: &http::HeaderMap) -> Vec<(String, String)> {
    let mut list: Vec<(String, String)> = map
        .iter()
        .map(|(name, value)| (name.as_str().to_string(), value.to_str().unwrap().to_string()))
        .collect();
    list.sort();
    list
}

#[test]
fn a_header_that_is_set_replaces_the_headers_of_its_name() {
    let mut headers = header_map(&[
        ("Authorization", "Bearer k"),
        ("nim_max_batch_size", "1"),
        ("X-Other", "x"),
        ("NIM_MAX_BATCH_SIZE", "2"),
        ("Nim_Peft_Source", "old"),
    ]);
    assert_eq!(headers.len(), 5);
    let set = NimHelper::add_nim_environment_headers(
        &mut headers,
        &pairs(&[("NIM_MAX_BATCH_SIZE", "8"), ("NIM_PEFT_SOURCE", "/models")]),
    );
    assert_eq!(set, 2);
    assert_eq!(
        held(&headers),
        pairs(&[
            ("authorization", "Bearer k"),
            ("nim_max_batch_size", "8"),
            ("nim_peft_source", "/models"),
            ("x-other", "x"),
        ])
    );
    let again = pairs(&[("NIM_MAX_BATCH_SIZE", "9")]);
    assert_eq!(NimHelper::add_nim_environment_headers(&mut headers, &again), 1);
    assert_eq!(
        held(&headers),
        pairs(&[
            ("authorization", "Bearer k"),
            ("nim_max_batch_size", "9"),
            ("nim_peft_source", "/models"),
            ("x-other", "x"),
        ])
    );
}

#[test]
fn a_new_header_map_holds_the_headers_of_the_variables_alone() {
    let env = pairs(&[
        ("NIM_PEFT_REFRESH_INTERVAL", "60"),
        ("NIM_MAX_BATCH_SIZE", "8"),
        ("NIM_MAX_SEQUENCE_LENGTH", "4096"),
        ("NIM_ENABLE_VLLM", "1"),
        ("NIM_MAX_LORA_RANK", "32"),
        ("NIM_ENABLE_KV_CACHE_REUSE", "1"),
        ("NIM_LOW_MEMORY_MODE", "1"),
        ("NIM_MAX_MODEL_LEN", "8192"),
        ("NIM_PEFT_SOURCE", "/models"),
        ("HOME", "/root"),
    ]);
    let headers = NimHelper::nim_headers(&env);
    assert_eq!(
        held(&headers),
        pairs(&[
            ("nim_enable_kv_cache_reuse", "1"),
            ("nim_enable_vllm", "1"),
            ("nim_low_memory_mode", "1"),
            ("nim_max_batch_size", "8"),
            ("nim_max_lora_rank", "32"),
            ("nim_max_model_len", "8192"),
            ("nim_max_sequence_length", "4096"),
            ("nim_peft_refresh_interval", "60"),
            ("nim_peft_source", "/models"),
        ])
    );
    assert!(NimHelper::nim_headers(&Vec::new()).is_empty());
}

#[test]
fn a_full_header_map_takes_no_header() {
    let mut headers = http::HeaderMap::new();
    let mut count: usize = 0;
    loop {
        let name = http::HeaderName::from_bytes(format!("x-{}", count).as_bytes()).unwrap();
        match headers.try_insert(name, http::HeaderValue::from_static("v")) {
            Ok(_) => count += 1,
            Err(_) => break,
        }
    }
    assert!(count >= 4096);
    assert_eq!(headers.keys_len(), count);
    let env = pairs(&[("NIM_MAX_BATCH_SIZE", "8"), ("NIM_ENABLE_VLLM", "1")]);
    assert_eq!(NimHelper::add_nim_environment_headers(&mut headers, &env), 0);
    assert_eq!(headers.keys_len(), count);
    assert!(headers.get("nim_max_batch_size").is_none());
    assert_eq!(headers.get("x-0").unwrap().as_bytes(), b"v");
}
