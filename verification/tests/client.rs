//! The client's decisions: resolution, bodies, headers, attempts and replies.
use switchyard::backend::{Backend, HttpBackendConfig, WireFormat};
use switchyard::body::{
    count_cache_control_blocks, enable_anthropic_prompt_caching, prepare_body,
};
use switchyard::client::{
    auxiliary_reply, completion_body, first_event_overflow, input_token_count, plan_call,
    responses_profile, served_model, stream_start, AuxiliaryOperation, LlmResponseChunk,
    ModelConfig, ResponsesProfile, StreamStart, TranslatingLlmClient, UpstreamEndpoint,
};
use switchyard::error::LlmClientError;
use switchyard::headers::{
    apply_extra_headers, forward_metadata_headers, is_reserved_header, Header,
};
use switchyard::json::{Json, JsonNumber};
use switchyard::request::ModelId;
use switchyard::retry::{
    after_body, after_error_text, after_first_chunk, after_send, delay_asked, duration_millis,
    retry_after_delay, retry_delay, stream_error, AttemptFailure, ChunkOutcome, EncodedResponse, Reading,
    RetryLoop, RetryStep, SendOutcome, TransportFailure, MILLISECOND, SECOND,
};

fn plain(value: &serde_json::Value) -> Json {
    match value {
        serde_json::Value::Null => Json::Null,
        serde_json::Value::Bool(b) => Json::Bool(*b),
        serde_json::Value::Number(n) => Json::Number(match (n.as_u64(), n.as_i64()) {
            (Some(u), _) => JsonNumber::Unsigned(u),
            (None, Some(i)) => JsonNumber::Negative(i),
            (None, None) => JsonNumber::Real(n.to_string()),
        }),
        serde_json::Value::String(t) => Json::Text(t.clone()),
        serde_json::Value::Array(a) => Json::Array(a.iter().map(plain).collect()),
        serde_json::Value::Object(m) => {
            Json::Object(m.iter().map(|(k, v)| (k.clone(), plain(v))).collect())
        }
    }
}

fn json(text: &str) -> Json {
    plain(&serde_json::from_str(text).unwrap())
}

fn at<'a>(value: &'a Json, path: &[&str]) -> Option<&'a Json> {
    let mut here = value;
    for step in path {
        here = match here {
            Json::Array(items) => items.get(step.parse::<usize>().unwrap())?,
            _ => here.get(step)?,
        };
    }
    Some(here)
}

fn config(base_url: &str) -> HttpBackendConfig {
    HttpBackendConfig {
        base_url: base_url.to_string(),
        api_key: Some("secret".to_string()),
        forward_auth: false,
        extra_headers: vec![],
        extra_body: vec![],
        max_retries: 0,
    }
}

fn with_extra_body(base_url: &str, extra: &str) -> HttpBackendConfig {
    let Json::Object(extra_body) = json(extra) else {
        panic!("an object");
    };
    HttpBackendConfig {
        extra_body,
        ..config(base_url)
    }
}

fn chat(base_url: &str) -> Backend {
    Backend::OpenAiChat(config(base_url))
}

fn chat_map(base_url: &str) -> Vec<ModelConfig> {
    vec![ModelConfig::new("gpt", chat(base_url), None)]
}

fn prepared(backend: &Backend, model: &str, body: &str) -> Json {
    let mut body = json(body);
    prepare_body(&mut body, backend, model);
    body
}

#[test]
fn anthropic_prompt_caching_marks_final_message() {
    let mut body = json(r#"{"messages": [{"role": "user", "content": "hello"}]}"#);
    enable_anthropic_prompt_caching(&mut body);
    assert_eq!(
        at(&body, &["messages", "0", "content", "0", "cache_control"]),
        Some(&json(r#"{"type": "ephemeral"}"#))
    );
    assert_eq!(
        at(&body, &["messages", "0", "content", "0", "text"]),
        Some(&Json::Text("hello".to_string()))
    );
}

fn body_at_the_cache_control_limit() -> Json {
    json(
        r#"{
            "system": [
                {"type": "text", "text": "a", "cache_control": {"type": "ephemeral"}},
                {"type": "text", "text": "b", "cache_control": {"type": "ephemeral"}}
            ],
            "tools": [
                {"name": "t", "input_schema": {"type": "object"},
                 "cache_control": {"type": "ephemeral"}}
            ],
            "messages": [
                {"role": "user", "content": [
                    {"type": "text", "text": "old", "cache_control": {"type": "ephemeral"}}
                ]},
                {"role": "assistant", "content": [{"type": "text", "text": "ok"}]},
                {"role": "user", "content": [{"type": "text", "text": "new"}]}
            ]
        }"#,
    )
}

#[test]
fn anthropic_prompt_caching_abstains_at_the_cache_control_limit() {
    let mut body = body_at_the_cache_control_limit();
    assert_eq!(count_cache_control_blocks(&body), 4);
    enable_anthropic_prompt_caching(&mut body);
    assert_eq!(count_cache_control_blocks(&body), 4);
    assert!(at(&body, &["messages", "2", "content", "0", "cache_control"]).is_none());
}

#[test]
fn anthropic_prompt_caching_still_marks_one_below_the_limit() {
    let mut body = body_at_the_cache_control_limit();
    if let Json::Object(members) = &mut body {
        for (key, value) in members.iter_mut() {
            if let (true, Json::Array(blocks)) = (key == "system", value) {
                blocks.pop();
            }
        }
    }
    assert_eq!(count_cache_control_blocks(&body), 3);
    enable_anthropic_prompt_caching(&mut body);
    assert_eq!(count_cache_control_blocks(&body), 4);
    assert_eq!(
        at(&body, &["messages", "2", "content", "0", "cache_control"]),
        Some(&json(r#"{"type": "ephemeral"}"#))
    );
}

#[test]
fn missing_model_errors() {
    let client = TranslatingLlmClient::new(vec![]).unwrap();
    let error = client.resolve(None, None, None).unwrap_err();
    assert!(matches!(
        error,
        LlmClientError::InvalidRequest { message } if message == "no model given"
    ));
}

#[test]
fn unknown_model_errors() {
    let client = TranslatingLlmClient::new(vec![]).unwrap();
    let error = client.resolve(None, Some("gpt"), None).unwrap_err();
    assert!(matches!(
        error,
        LlmClientError::Configuration { message } if message.contains("gpt")
    ));
}

#[test]
fn unknown_model_format_errors() {
    let client = TranslatingLlmClient::new(chat_map("https://example.test/v1")).unwrap();
    let error = client
        .resolve(None, Some("gpt"), Some(WireFormat::AnthropicMessages))
        .unwrap_err();
    assert!(matches!(
        error,
        LlmClientError::Configuration { message }
            if message.contains("gpt")
                && message.contains(WireFormat::AnthropicMessages.as_str())
    ));
}

#[test]
fn backend_for_resolves_configured_format() {
    let client = TranslatingLlmClient::new(chat_map("https://example.test/v1")).unwrap();
    assert!(client
        .backend_for(&ModelId::from("gpt"), WireFormat::OpenAiChat)
        .is_some());
    assert!(client
        .backend_for(&ModelId::from("gpt"), WireFormat::AnthropicMessages)
        .is_none());
    assert!(client
        .backend_for(&ModelId::from("missing"), WireFormat::OpenAiChat)
        .is_none());
}

#[test]
fn model_name_arg_wins_over_request_model() {
    let client = TranslatingLlmClient::new(vec![]).unwrap();
    let error = client.resolve(Some("b"), Some("a"), None).unwrap_err();
    assert!(matches!(
        error,
        LlmClientError::Configuration { message } if message.contains("\"b\"")
    ));
    assert_eq!(served_model(Some("b"), Some("a")).as_deref(), Some("b"));
    assert_eq!(served_model(None, Some("a")).as_deref(), Some("a"));
    assert_eq!(served_model(None, None), None);
}

#[test]
fn other_backends_serve_their_formats() {
    let config = ModelConfig::new(
        "gpt",
        chat("https://example.test/v1"),
        Some(vec![
            Backend::OpenAiResponses(config("https://example.test/v1/")),
            Backend::Anthropic(config("https://example.test/v1")),
        ]),
    );
    let client = TranslatingLlmClient::new(vec![config]).unwrap();
    let call = client.resolve(Some("gpt"), None, None).unwrap();
    assert_eq!(call.model, "gpt");
    assert_eq!(call.wire_format, WireFormat::OpenAiChat);
    let call = client
        .resolve(None, Some("gpt"), Some(WireFormat::OpenAiResponses))
        .unwrap();
    assert_eq!(call.backend.url(), "https://example.test/v1/responses");
    assert!(client.supports_auxiliary("gpt", AuxiliaryOperation::ResponsesCompact));
    assert!(client.supports_auxiliary("gpt", AuxiliaryOperation::AnthropicCountTokens));
    assert!(!client.supports_auxiliary("other", AuxiliaryOperation::ResponsesCompact));
    assert_eq!(
        client.provider_key().as_deref(),
        Some("https://example.test/v1")
    );
    assert_eq!(TranslatingLlmClient::new(vec![]).unwrap().provider_key(), None);
}

#[test]
fn a_model_is_served_by_its_last_configuration() {
    let mut configs = chat_map("https://one.test/v1");
    configs.extend(chat_map("https://two.test/v1"));
    let client = TranslatingLlmClient::new(configs).unwrap();
    let call = client.resolve(None, Some("gpt"), None).unwrap();
    assert_eq!(call.backend.provider_identity(), "https://two.test/v1");
    assert_eq!(
        client.provider_key().as_deref(),
        Some("https://two.test/v1")
    );
}

#[test]
fn a_model_may_not_span_providers() {
    let spanning = ModelConfig::new(
        "gpt",
        chat("https://one.test/v1"),
        Some(vec![
            Backend::OpenAiResponses(config("https://one.test/v1/")),
            Backend::Anthropic(config("https://two.test")),
        ]),
    );
    let error = TranslatingLlmClient::new(vec![spanning]).unwrap_err();
    assert_eq!(
        error,
        LlmClientError::RequestEncoding(
            "client for model gpt spans multiple provider identities \
             ([\"https://one.test/v1\", \"https://two.test\"]); provider-aware fallback requires \
             one provider per [llm_clients.*] client"
                .to_string()
        )
    );
}

fn with_header(name: &str, value: &str) -> Result<TranslatingLlmClient, LlmClientError> {
    let backend = Backend::OpenAiResponses(HttpBackendConfig {
        extra_headers: vec![(name.to_string(), value.to_string())],
        ..config("https://example.test/v1")
    });
    TranslatingLlmClient::new(vec![ModelConfig::new(
        "gpt",
        chat("https://example.test/v1"),
        Some(vec![backend]),
    )])
}

#[test]
fn headers_that_cannot_be_sent_are_rejected() {
    let long = "a".repeat(65_535);
    for (name, value) in [
        ("User-Agent", "a b\tc"),
        ("x!#$%&'*+-.^_`|~09", ""),
        (long.as_str(), "\u{e9}~"),
    ] {
        assert!(with_header(name, value).is_ok(), "{name:?} {value:?}");
    }
    let longer = "a".repeat(65_536);
    for (name, value) in [
        ("", "v"),
        ("a b", "v"),
        ("a:b", "v"),
        ("a\"b", "v"),
        ("\u{e9}", "v"),
        (longer.as_str(), "v"),
        ("n", "line\nbreak"),
        ("n", "\u{7f}"),
        ("n", "\u{0}"),
    ] {
        assert!(with_header(name, value).is_err(), "{name:?} {value:?}");
    }
    assert_eq!(
        with_header("a b", "v").unwrap_err(),
        LlmClientError::Configuration {
            message: "invalid extra header \"a b\" for model gpt".to_string()
        }
    );
    for code in 0..=255u8 {
        let c = (code as char).to_string();
        assert_eq!(
            with_header(&c, "v").is_ok(),
            c.is_ascii() && (c.as_bytes()[0].is_ascii_alphanumeric() || "!#$%&'*+-.^_`|~".contains(&c)),
            "{code}"
        );
        assert_eq!(
            with_header("n", &c).is_ok(),
            code == 9 || (code >= 32 && code != 127),
            "{code}"
        );
    }
}

#[test]
fn endpoints_have_their_urls() {
    let anthropic = Backend::Anthropic(config("https://a.test/"));
    let responses = Backend::OpenAiResponses(config("https://o.test/v1"));
    let openai = chat("https://o.test/v1");
    let aux = |operation, backend: &Backend| UpstreamEndpoint::Auxiliary(operation).url(backend);
    assert_eq!(
        UpstreamEndpoint::Completion.url(&anthropic),
        "https://a.test/v1/messages"
    );
    assert_eq!(
        aux(AuxiliaryOperation::AnthropicCountTokens, &anthropic),
        "https://a.test/v1/messages/count_tokens"
    );
    assert_eq!(
        aux(AuxiliaryOperation::ResponsesInputTokens, &responses),
        "https://o.test/v1/responses/input_tokens"
    );
    assert_eq!(
        aux(AuxiliaryOperation::ResponsesCompact, &responses),
        "https://o.test/v1/responses/compact"
    );
    assert_eq!(
        aux(AuxiliaryOperation::OpenAiChatInputTokens, &openai),
        "https://o.test/v1/chat/completions/input_tokens"
    );
    assert!(UpstreamEndpoint::Completion.allows_streaming());
    let client = TranslatingLlmClient::new(vec![]).unwrap();
    assert_eq!(
        client
            .resolve_auxiliary("gpt", AuxiliaryOperation::ResponsesCompact)
            .unwrap_err(),
        LlmClientError::Configuration {
            message: "model gpt has no backend for ResponsesCompact".to_string()
        }
    );
}

#[test]
fn invalid_json_is_a_response_translation_error() {
    let error = completion_body(&b"not json".to_vec()).unwrap_err();
    assert!(matches!(
        error,
        LlmClientError::ResponseTranslation(message)
            if message.contains("invalid upstream JSON")
    ));
    assert_eq!(
        completion_body(&br#"{"a": [1, -2, 2.5, null]}"#.to_vec()).unwrap(),
        Json::Object(vec![(
            "a".to_string(),
            Json::Array(vec![
                Json::Number(JsonNumber::Unsigned(1)),
                Json::Number(JsonNumber::Negative(-2)),
                Json::Number(JsonNumber::Real("2.5".to_string())),
                Json::Null,
            ])
        )])
    );
}

fn broken() -> TransportFailure {
    TransportFailure {
        is_timeout: false,
        is_builder: false,
        message: "broken pipe".to_string(),
    }
}

#[test]
fn response_body_io_failure_is_a_transport_error() {
    let failure = after_body(200, Err(broken())).unwrap_err();
    assert!(matches!(failure.error, LlmClientError::Transport { .. }));
    assert_eq!(failure.status, Some(200));
    assert!(failure.is_retryable());
}

#[test]
fn response_body_transport_failures_are_retried() {
    let mut retries = RetryLoop::new(1);
    let first = after_body(200, Err(broken())).unwrap_err();
    assert_eq!(
        retries.on_failure(first),
        RetryStep::Wait {
            delay: 250 * MILLISECOND
        }
    );
    assert_eq!(
        after_body(200, Ok(b"{}".to_vec())).unwrap(),
        EncodedResponse::Buffered {
            status: 200,
            body: b"{}".to_vec()
        }
    );
}

#[test]
fn rewrites_model_to_resolved_upstream_id() {
    let body = prepared(
        &chat("http://x/v1"),
        "gpt",
        r#"{"model": "switchyard", "messages": []}"#,
    );
    assert_eq!(body.get("model"), Some(&Json::Text("gpt".to_string())));
}

#[test]
fn extra_body_adds_defaults_without_overriding_the_request() {
    let backend = Backend::OpenAiChat(with_extra_body(
        "http://x/v1",
        r#"{"max_tokens": 999, "service_tier": "priority"}"#,
    ));
    let body = prepared(
        &backend,
        "gpt",
        r#"{"model": "client-facing", "messages": [{"role": "user", "content": "hi"}], "max_tokens": 7}"#,
    );
    assert_eq!(body.get("model"), Some(&json(r#""gpt""#)));
    assert_eq!(body.get("max_tokens"), Some(&json("7")));
    assert_eq!(body.get("service_tier"), Some(&json(r#""priority""#)));
}

#[test]
fn anthropic_requests_drop_unsigned_thinking_blocks() {
    let body = prepared(
        &Backend::Anthropic(config("http://x")),
        "messages-model",
        r#"{
            "model": "client-facing",
            "max_tokens": 7,
            "messages": [
                {"role": "user", "content": "fix the build"},
                {"role": "assistant", "content": [
                    {"type": "thinking", "thinking": "weak tier reasoning", "signature": ""}
                ]},
                {"role": "assistant", "content": [
                    {"type": "thinking", "thinking": "signed reasoning", "signature": "sig-abc"},
                    {"type": "text", "text": "here goes"}
                ]},
                {"role": "user", "content": "continue"}
            ]
        }"#,
    );
    assert_eq!(
        at(&body, &["messages", "1", "content"]),
        Some(&Json::Text(String::new()))
    );
    assert_eq!(
        at(&body, &["messages", "2", "content"]),
        Some(&json(
            r#"[
                {"type": "thinking", "thinking": "signed reasoning", "signature": "sig-abc"},
                {"type": "text", "text": "here goes"}
            ]"#
        ))
    );
    assert!(at(&body, &["messages", "3", "content", "0", "cache_control"]).is_some());
}

#[test]
fn anthropic_requests_drop_openai_only_fields() {
    let body = prepared(
        &Backend::Anthropic(config("http://x")),
        "messages-model",
        r#"{
            "model": "client-facing",
            "messages": [{"role": "user", "content": "hi"}],
            "max_tokens": 7,
            "reasoning_effort": "high",
            "context_management": {"edits": [{"type": "clear_thinking_20251015"}]}
        }"#,
    );
    assert!(body.get("context_management").is_none());
    assert!(body.get("reasoning_effort").is_none());
    assert_eq!(body.get("max_tokens"), Some(&json("7")));
}

#[test]
fn a_target_may_reinstate_a_stripped_field() {
    let backend = Backend::Anthropic(with_extra_body("http://x", r#"{"reasoning_effort": "low"}"#));
    let body = prepared(&backend, "messages-model", r#"{"reasoning_effort": "high"}"#);
    assert_eq!(body.get("reasoning_effort"), Some(&json(r#""low""#)));
}

#[test]
fn streaming_openai_chat_aggregates() {
    let planned = plan_call(
        &chat("http://x/v1"),
        json(r#"{"model": "gpt", "messages": [], "stream": true}"#),
        "gpt",
        UpstreamEndpoint::Completion,
    );
    assert!(planned.streaming);
    assert_eq!(planned.url, "http://x/v1/chat/completions");
    assert_eq!(
        planned.body.get("stream_options"),
        Some(&json(r#"{"include_usage": true}"#))
    );
    assert_eq!(
        after_first_chunk(200, ChunkOutcome::Bytes(b"data".to_vec())).unwrap(),
        EncodedResponse::Streaming {
            status: 200,
            first_chunk: b"data".to_vec()
        }
    );
}

#[test]
fn streaming_openai_chat_preserves_usage_opt_out() {
    let body = prepared(
        &chat("http://x/v1"),
        "gpt",
        r#"{"stream": true, "stream_options": {"include_usage": false}}"#,
    );
    assert_eq!(
        body.get("stream_options"),
        Some(&json(r#"{"include_usage": false}"#))
    );
    let buffered = prepared(&chat("http://x/v1"), "gpt", r#"{"stream": false}"#);
    assert!(buffered.get("stream_options").is_none());
    let odd = prepared(
        &chat("http://x/v1"),
        "gpt",
        r#"{"stream": true, "stream_options": 3}"#,
    );
    assert_eq!(
        odd.get("stream_options"),
        Some(&json(r#"{"include_usage": true}"#))
    );
}

fn http_failure(status: u16, body: &str, retry_after: Option<u128>) -> AttemptFailure {
    after_error_text(status, retry_after, Ok(body.to_string()), false, "gpt")
}

#[test]
fn upstream_500_is_upstream_http() {
    assert!(matches!(
        after_send(SendOutcome::Answered { status: 500 }, false),
        Ok(Reading::ErrorText { status: 500 })
    ));
    let failure = http_failure(500, "boom", None);
    assert!(matches!(
        failure.error,
        LlmClientError::UpstreamHttp { status: 500, .. }
    ));
}

#[test]
fn retryable_http_failure_recovers_within_budget() {
    let mut retries = RetryLoop::new(1);
    let asked = retry_after_delay(Some("0"), 0);
    let step = retries.on_failure(http_failure(503, "temporarily unavailable", asked));
    assert_eq!(step, RetryStep::Wait { delay: 0 });
    assert_eq!(retries.attempt, 1);
    assert!(matches!(
        after_send(SendOutcome::Answered { status: 200 }, false),
        Ok(Reading::Body { status: 200 })
    ));
}

#[test]
fn deterministic_http_failure_is_not_retried() {
    let mut retries = RetryLoop::new(2);
    let step = retries.on_failure(http_failure(401, "invalid key", None));
    assert_eq!(
        step,
        RetryStep::GiveUp(LlmClientError::UpstreamHttp {
            status: 401,
            body: "invalid key".to_string()
        })
    );
    assert_eq!(retries.attempt, 0);
}

#[test]
fn retry_exhaustion_returns_the_final_upstream_error() {
    let mut retries = RetryLoop::new(2);
    let mut calls = 0;
    let error = loop {
        calls += 1;
        let failure = http_failure(500, &format!("attempt {calls}"), Some(0));
        match retries.on_failure(failure) {
            RetryStep::Wait { delay } => assert_eq!(delay, 0),
            RetryStep::GiveUp(error) => break error,
        }
    };
    assert_eq!(
        error,
        LlmClientError::UpstreamHttp {
            status: 500,
            body: "attempt 3".to_string()
        }
    );
    assert_eq!(calls, 3);
}

#[test]
fn timeout_is_retried_before_a_response_is_returned() {
    let slow = TransportFailure {
        is_timeout: true,
        ..broken()
    };
    let failure = after_send(SendOutcome::Failed(slow), false).unwrap_err();
    assert!(matches!(failure.error, LlmClientError::Timeout { .. }));
    assert!(failure.is_retryable());
    let mut retries = RetryLoop::new(1);
    assert!(matches!(retries.on_failure(failure), RetryStep::Wait { .. }));
}

#[test]
fn an_elapsed_deadline_fails_over() {
    let failure = after_send(SendOutcome::DeadlineElapsed, true).unwrap_err();
    assert_eq!(
        failure.error,
        LlmClientError::Timeout {
            message: "upstream did not deliver response headers within 45s".to_string()
        }
    );
    assert!(failure.deadline_elapsed && !failure.is_retryable());
    let failure = after_first_chunk(200, ChunkOutcome::DeadlineElapsed).unwrap_err();
    assert_eq!(
        failure.error,
        LlmClientError::Timeout {
            message: "upstream sent no body bytes within 45s of the attempt deadline".to_string()
        }
    );
    assert!(!failure.is_retryable());
    assert_eq!(failure.status, Some(200));
    let failure = after_first_chunk(200, ChunkOutcome::Closed).unwrap_err();
    assert_eq!(
        failure.error,
        LlmClientError::Transport {
            message: "upstream closed the stream before sending any body bytes".to_string()
        }
    );
    assert!(failure.is_retryable());
    assert!(after_first_chunk(200, ChunkOutcome::Failed(broken()))
        .unwrap_err()
        .is_retryable());
}

#[test]
fn streaming_body_io_failure_preserves_transport_error() {
    assert_eq!(
        stream_error(broken()),
        LlmClientError::Transport {
            message: "broken pipe".to_string()
        }
    );
    let slow = TransportFailure {
        is_timeout: true,
        is_builder: true,
        ..broken()
    };
    assert!(matches!(stream_error(slow), LlmClientError::Timeout { .. }));
}

#[test]
fn an_unbuildable_request_is_a_configuration_error() {
    let failure = TransportFailure {
        is_builder: true,
        message: "bad url".to_string(),
        ..broken()
    };
    let failure = after_send(SendOutcome::Failed(failure), false).unwrap_err();
    assert_eq!(
        failure.error,
        LlmClientError::Configuration {
            message: "failed to build upstream request: bad url".to_string()
        }
    );
    assert!(!failure.is_retryable());
}

fn failure(error: LlmClientError, status: Option<u16>) -> AttemptFailure {
    AttemptFailure {
        error,
        status,
        retry_after: None,
        deadline_elapsed: false,
    }
}

#[test]
fn retryable_error_classes_are_explicit() {
    let transport = failure(
        LlmClientError::Transport {
            message: "disconnected".to_string(),
        },
        None,
    );
    assert!(transport.is_retryable());
    let upstream = |status: u16| {
        failure(
            LlmClientError::UpstreamHttp {
                status,
                body: String::new(),
            },
            Some(status),
        )
    };
    for status in [408, 429, 500, 503, 599] {
        assert!(
            upstream(status).is_retryable(),
            "HTTP {status} should retry"
        );
    }
    for status in [400, 401, 409, 600] {
        assert!(
            !upstream(status).is_retryable(),
            "HTTP {status} should fail fast"
        );
    }
    let configuration = failure(
        LlmClientError::Configuration {
            message: "invalid header".to_string(),
        },
        None,
    );
    assert!(!configuration.is_retryable());
    let context_window = failure(
        LlmClientError::ContextWindowExceeded {
            model: ModelId::from("gpt"),
            message: "too long".to_string(),
        },
        Some(400),
    );
    assert!(!context_window.is_retryable());
}

#[test]
fn an_exhausted_quota_is_not_retried() {
    let body = r#"{"error":{"code":"insufficient_quota"}}"#;
    assert!(!http_failure(429, body, None).is_retryable());
    assert!(http_failure(503, body, None).is_retryable());
    assert!(http_failure(429, "slow down", None).is_retryable());
    assert!(!http_failure(429, "slow down", None).retryable_given(true));
}

#[test]
fn retry_after_supports_seconds_and_http_dates() {
    assert_eq!(retry_after_delay(Some("3"), 0), Some(3 * SECOND));
    let now = 784_111_775 * SECOND;
    let delay = retry_after_delay(Some("Sun, 06 Nov 1994 08:49:37 GMT"), now);
    assert_eq!(delay, Some(2 * SECOND));
    assert_eq!(
        retry_after_delay(Some("Sun, 06 Nov 1994 08:49:37 GMT"), now + 5 * SECOND),
        Some(0)
    );
    assert_eq!(
        retry_after_delay(Some("Sun, 06 Nov 1994 08:49:37 GMT"), 0),
        Some(60 * SECOND)
    );
    assert_eq!(retry_after_delay(Some("soon"), now), None);
    assert_eq!(retry_after_delay(None, now), None);
    assert_eq!(retry_after_delay(Some("61"), now), Some(60 * SECOND));
    assert_eq!(retry_after_delay(Some("+1"), now), Some(SECOND));
    assert_eq!(
        retry_after_delay(Some("18446744073709551615"), now),
        Some(60 * SECOND)
    );
    assert_eq!(retry_after_delay(Some("18446744073709551616"), now), None);
    assert_eq!(delay_asked("7", Some(9), 0), Some(7 * SECOND));
    assert_eq!(delay_asked("x", Some(9), 5 * SECOND), Some(4 * SECOND));
}

#[test]
fn backoff_doubles_up_to_its_cap() {
    let ms: Vec<u64> = (0..5)
        .map(|n| duration_millis(retry_delay(n, None)))
        .collect();
    assert_eq!(ms, [250, 500, 1000, 2000, 2000]);
    assert_eq!(retry_delay(u64::MAX, None), 2 * SECOND);
    assert_eq!(retry_delay(0, Some(5)), 5);
    assert_eq!(duration_millis(u128::MAX), u64::MAX);
    assert_eq!(duration_millis(1_999_999), 1);
}

#[test]
fn context_overflow_400_is_mapped() {
    let body = r#"{"error": {"code": "context_length_exceeded", "message": "too big"}}"#;
    let failure = after_error_text(400, None, Ok(body.to_string()), true, "gpt");
    assert!(matches!(
        failure.error,
        LlmClientError::ContextWindowExceeded { model, .. } if model == "gpt"
    ));
    let failure = after_error_text(413, None, Ok(body.to_string()), true, "gpt");
    assert!(matches!(
        failure.error,
        LlmClientError::UpstreamHttp { status: 413, .. }
    ));
    let failure = after_error_text(400, Some(5), Err(broken()), true, "gpt");
    assert!(matches!(failure.error, LlmClientError::Transport { .. }));
    assert_eq!(failure.retry_after, Some(5));
}

#[test]
fn first_overflow_of_an_event_is_found() {
    let error = |message: &str, overflow| LlmResponseChunk::StreamError {
        message: message.to_string(),
        overflow,
    };
    let chunks = vec![
        LlmResponseChunk::Other,
        error("rate limit", false),
        error("too long", true),
        error("also too long", true),
    ];
    assert_eq!(first_event_overflow(&chunks).as_deref(), Some("too long"));
    assert_eq!(first_event_overflow(&vec![error("x", false)]), None);
    assert_eq!(
        stream_start(Some(&chunks), "gpt").unwrap_err(),
        LlmClientError::ContextWindowExceeded {
            model: "gpt".to_string(),
            message: "too long".to_string()
        }
    );
    assert_eq!(stream_start(None, "gpt"), Ok(StreamStart::Empty));
    assert_eq!(
        stream_start(Some(&vec![error("x", false)]), "gpt"),
        Ok(StreamStart::Deliver)
    );
}

fn header(name: &str, value: &str) -> Header {
    Header {
        name: name.to_string(),
        value: value.as_bytes().to_vec(),
    }
}

#[test]
fn forwards_metadata_headers_except_reserved() {
    let headers = vec![
        header("x-request-id", "abc"),
        header("authorization", "Bearer client-key"),
        header("accept-encoding", "gzip, br"),
        header("api-key", "client-azure-key"),
        header("openai-organization", "org-client"),
        header("openai-project", "proj-client"),
    ];
    let forwarded = forward_metadata_headers(&headers, &chat("http://x/v1"));
    assert_eq!(forwarded, vec![header("x-request-id", "abc")]);
    assert!(is_reserved_header("Authorization"));
    assert!(!is_reserved_header("x-authorization"));
}

#[test]
fn extra_headers_override_inbound_headers_exactly_once() {
    let backend = Backend::OpenAiChat(HttpBackendConfig {
        extra_headers: vec![(
            "User-Agent".to_string(),
            "Switchyard/backend-canonical-ua".to_string(),
        )],
        ..config("http://127.0.0.1:9/v1")
    });
    let caller = vec![header("user-agent", "caller-ua"), header("x-resource-ref", "ref-1")];
    let forwarded = forward_metadata_headers(&caller, &backend);
    assert_eq!(forwarded, vec![header("x-resource-ref", "ref-1")]);
    assert_eq!(
        apply_extra_headers(&backend),
        vec![(
            "User-Agent".to_string(),
            "Switchyard/backend-canonical-ua".to_string()
        )]
    );
}

const CONFLICT: &str = r#"{
    "model": "client-facing",
    "messages": [{"role": "user", "content": "hi"}],
    "reasoning": {"effort": "high"},
    "reasoning_effort": "high",
    "max_tokens": 16
}"#;

fn effort(body: &Json) -> Option<&str> {
    at(body, &["reasoning", "effort"]).and_then(Json::as_str)
}

#[test]
fn target_reasoning_pin_overrides_caller_nested_reasoning() {
    let backend = Backend::OpenAiChat(with_extra_body(
        "http://x/v1",
        r#"{"reasoning": {"effort": "none"}}"#,
    ));
    let body = prepared(&backend, "gpt", CONFLICT);
    assert_eq!(effort(&body), Some("none"));
    assert!(body.get("reasoning_effort").is_none());
}

#[test]
fn target_enabled_false_pin_overrides_caller_reasoning() {
    let backend = Backend::OpenAiChat(with_extra_body(
        "http://x/v1",
        r#"{"reasoning": {"enabled": false}}"#,
    ));
    let body = prepared(
        &backend,
        "gpt",
        r#"{"model": "client-facing", "messages": [{"role": "user", "content": "hi"}],
            "reasoning": {"effort": "medium"}, "max_tokens": 16}"#,
    );
    assert_eq!(
        body.get("reasoning"),
        Some(&json(r#"{"enabled": false}"#))
    );
    assert!(body.get("reasoning_effort").is_none());
}

#[test]
fn body_nested_reasoning_effort_suppresses_conflicting_flat_reasoning_effort() {
    let backend = Backend::OpenAiChat(with_extra_body(
        "http://x/v1",
        r#"{"reasoning": {"enabled": true, "effort": "low"}}"#,
    ));
    let body = prepared(
        &backend,
        "gpt",
        r#"{"model": "client-facing", "messages": [{"role": "user", "content": "hi"}],
            "reasoning_effort": "medium", "max_tokens": 16}"#,
    );
    assert_eq!(effort(&body), Some("low"));
    assert!(body.get("reasoning_effort").is_none());
}

#[test]
fn no_pin_nested_reasoning_effort_suppresses_conflicting_flat_reasoning_effort() {
    let body = prepared(
        &chat("http://x/v1"),
        "gpt",
        r#"{"messages": [], "reasoning": {"effort": "medium"}, "reasoning_effort": "high"}"#,
    );
    assert_eq!(effort(&body), Some("medium"));
    assert!(body.get("reasoning_effort").is_none());
}

#[test]
fn no_pin_object_reasoning_without_effort_suppresses_flat_reasoning_effort() {
    let body = prepared(
        &chat("http://x/v1"),
        "gpt",
        r#"{"messages": [], "reasoning": {"enabled": false}, "reasoning_effort": "high"}"#,
    );
    assert_eq!(
        at(&body, &["reasoning", "enabled"]),
        Some(&Json::Bool(false))
    );
    assert!(body.get("reasoning_effort").is_none());
    let flat = prepared(
        &chat("http://x/v1"),
        "gpt",
        r#"{"reasoning": "on", "reasoning_effort": "high"}"#,
    );
    assert_eq!(flat.get("reasoning_effort"), Some(&json(r#""high""#)));
}

#[test]
fn responses_target_reasoning_pin_overrides_caller_nested_reasoning() {
    let backend = Backend::OpenAiResponses(with_extra_body(
        "http://x/v1",
        r#"{"reasoning": {"effort": "none"}}"#,
    ));
    let body = prepared(
        &backend,
        "gpt",
        r#"{"model": "client-facing", "input": "hi", "reasoning": {"effort": "high"}}"#,
    );
    assert_eq!(effort(&body), Some("none"));
    assert!(body.get("reasoning_effort").is_none());
}

fn codex() -> Backend {
    Backend::OpenAiResponses(with_extra_body(
        "http://x/backend-api/codex",
        r#"{"max_output_tokens": 9}"#,
    ))
}

#[test]
fn codex_responses_requests_drop_max_output_tokens() {
    let planned = plan_call(
        &codex(),
        json(r#"{"model": "client-facing", "max_output_tokens": 4096, "input": "hi"}"#),
        "gpt",
        UpstreamEndpoint::Completion,
    );
    assert!(planned.streaming);
    assert_eq!(planned.url, "http://x/backend-api/codex/responses");
    assert!(planned.body.get("max_output_tokens").is_none());
    assert_eq!(
        responses_profile(WireFormat::OpenAiResponses, &codex()),
        ResponsesProfile::StrictCodex
    );
}

#[test]
fn codex_chat_requests_drop_translated_max_output_tokens() {
    let body = prepared(&codex(), "gpt", r#"{"max_output_tokens": 512, "input": []}"#);
    assert!(body.get("max_output_tokens").is_none());
}

#[test]
fn codex_responses_stream_force_without_stream_options() {
    let body = prepared(&codex(), "gpt", r#"{"stream": false, "input": []}"#);
    assert_eq!(body.get("stream"), Some(&Json::Bool(true)));
    assert!(body.get("stream_options").is_none());
}

#[test]
fn openai_responses_requests_keep_max_output_tokens() {
    let backend = Backend::OpenAiResponses(config("http://x/v1"));
    let planned = plan_call(
        &backend,
        json(r#"{"model": "client-facing", "max_output_tokens": 4096, "input": "hi"}"#),
        "gpt",
        UpstreamEndpoint::Completion,
    );
    assert!(!planned.streaming);
    assert_eq!(planned.body.get("max_output_tokens"), Some(&json("4096")));
    assert_eq!(
        responses_profile(WireFormat::OpenAiResponses, &backend),
        ResponsesProfile::Normal
    );
}

#[test]
fn openai_responses_preserves_caller_stream_options() {
    let backend = Backend::OpenAiResponses(config("http://x/v1"));
    let body = prepared(
        &backend,
        "gpt",
        r#"{"stream": true, "stream_options": {"include_usage": true}, "input": "hi"}"#,
    );
    assert_eq!(
        body.get("stream_options"),
        Some(&json(r#"{"include_usage": true}"#))
    );
}

#[test]
fn codex_near_match_urls_keep_max_output_tokens() {
    for near_path in ["/backend-api/codex-compat", "/not-backend-api/codex"] {
        let backend = Backend::OpenAiResponses(config(&format!("http://x{near_path}")));
        let body = prepared(
            &backend,
            "gpt",
            r#"{"model": "client-facing", "max_output_tokens": 4096, "input": "hi"}"#,
        );
        assert_eq!(body.get("max_output_tokens"), Some(&json("4096")));
        assert!(!backend.is_codex());
    }
}

#[test]
fn a_body_that_is_no_object_is_left_alone() {
    for backend in [chat("http://x/v1"), codex(), Backend::Anthropic(config("http://x"))] {
        assert_eq!(prepared(&backend, "gpt", "[1]"), json("[1]"));
    }
}

fn buffered(body: &str) -> EncodedResponse {
    EncodedResponse::Buffered {
        status: 200,
        body: body.as_bytes().to_vec(),
    }
}

#[test]
fn count_input_tokens_returns_exact_count() {
    let reply =
        auxiliary_reply(&buffered(r#"{"input_tokens": 42, "object": "response.input_tokens"}"#))
            .unwrap();
    assert_eq!(input_token_count(&reply).unwrap(), 42);
}

#[test]
fn count_input_tokens_rejects_invalid_payloads() {
    for payload in [
        "{}",
        r#"{"input_tokens": null}"#,
        r#"{"input_tokens": -1}"#,
        r#"{"input_tokens": 3.5}"#,
        r#"{"input_tokens": "12"}"#,
    ] {
        let reply = auxiliary_reply(&buffered(payload)).unwrap();
        assert!(
            input_token_count(&reply).is_err(),
            "payload {payload} must be rejected"
        );
    }
    assert_eq!(
        input_token_count(&json("{}")).unwrap_err(),
        LlmClientError::InvalidResponse {
            message: "input_tokens response missing `input_tokens` field".to_string()
        }
    );
    assert!(matches!(
        auxiliary_reply(&buffered("nope")),
        Err(LlmClientError::InvalidResponse { .. })
    ));
    let streamed = EncodedResponse::Streaming {
        status: 200,
        first_chunk: vec![],
    };
    assert_eq!(streamed.status(), 200);
    assert_eq!(
        auxiliary_reply(&streamed).unwrap_err(),
        LlmClientError::InvalidRequest {
            message: "auxiliary endpoints do not support streaming".to_string()
        }
    );
}

#[test]
fn input_tokens_count_carries_target_extra_body_and_model_stamp() {
    let backend = Backend::OpenAiChat(with_extra_body(
        "http://x/v1",
        r#"{"chat_template_kwargs": {"enable_thinking": false}}"#,
    ));
    let planned = plan_call(
        &backend,
        json(r#"{"model": "wrong-model", "messages": [], "stream": true}"#),
        "gpt",
        UpstreamEndpoint::Auxiliary(AuxiliaryOperation::OpenAiChatInputTokens),
    );
    assert_eq!(planned.url, "http://x/v1/chat/completions/input_tokens");
    assert!(!planned.streaming);
    assert_eq!(planned.body.get("model"), Some(&json(r#""gpt""#)));
    assert_eq!(
        at(&planned.body, &["chat_template_kwargs", "enable_thinking"]),
        Some(&Json::Bool(false))
    );
}
