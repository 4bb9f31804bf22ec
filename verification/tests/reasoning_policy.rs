//! Reasoning policies and the dialects that write them.
use switchyard::json::Json;
use switchyard::reasoning_policy::{ReasoningDialect, ReasoningPolicy};

const POLICIES: [ReasoningPolicy; 5] = [
    ReasoningPolicy::Off,
    ReasoningPolicy::Low,
    ReasoningPolicy::Medium,
    ReasoningPolicy::High,
    ReasoningPolicy::Max,
];

const DIALECTS: [ReasoningDialect; 4] = [
    ReasoningDialect::OpenAiEffort,
    ReasoningDialect::OpenRouterEnabled,
    ReasoningDialect::LlamaCppEnableThinking,
    ReasoningDialect::ChatTemplateReasoningEffort,
];

fn nested(outer: &str, inner: &str, value: Json) -> Json {
    Json::Object(vec![(
        outer.to_string(),
        Json::Object(vec![(inner.to_string(), value)]),
    )])
}

fn text(value: &str) -> Json {
    Json::Text(value.to_string())
}

#[test]
fn parse_round_trips_every_value() {
    for policy in POLICIES {
        assert_eq!(ReasoningPolicy::parse(policy.as_str()), Some(policy));
    }
}

#[test]
fn parse_rejects_unknown_and_empty() {
    assert_eq!(ReasoningPolicy::parse(""), None);
    assert_eq!(ReasoningPolicy::parse("xhigh"), None);
    assert_eq!(ReasoningPolicy::parse("true"), None);
    assert_eq!(ReasoningPolicy::parse("None"), None, "config is lowercase");
}

#[test]
fn parse_ignores_surrounding_white_space() {
    assert_eq!(
        ReasoningPolicy::parse(" \t\u{3000}max\n\u{a0}"),
        Some(ReasoningPolicy::Max)
    );
    assert_eq!(ReasoningPolicy::parse("m ax"), None);
    assert_eq!(ReasoningPolicy::parse("\u{200b}max"), None);
}

#[test]
fn is_thinking_partitions_none_from_the_rest() {
    assert!(!ReasoningPolicy::Off.is_thinking());
    assert!(ReasoningPolicy::Low.is_thinking());
    assert!(ReasoningPolicy::Max.is_thinking());
}

#[test]
fn wire_bodies_match_the_gate0_observed_shapes() {
    assert_eq!(
        ReasoningDialect::OpenAiEffort
            .wire_body(ReasoningPolicy::Off)
            .unwrap(),
        nested("reasoning", "effort", text("none"))
    );
    assert_eq!(
        ReasoningDialect::OpenAiEffort
            .wire_body(ReasoningPolicy::Medium)
            .unwrap(),
        nested("reasoning", "effort", text("medium"))
    );
    assert_eq!(
        ReasoningDialect::OpenRouterEnabled
            .wire_body(ReasoningPolicy::Off)
            .unwrap(),
        nested("reasoning", "enabled", Json::Bool(false))
    );
    assert_eq!(
        ReasoningDialect::LlamaCppEnableThinking
            .wire_body(ReasoningPolicy::Off)
            .unwrap(),
        nested("chat_template_kwargs", "enable_thinking", Json::Bool(false))
    );
    assert_eq!(
        ReasoningDialect::LlamaCppEnableThinking
            .wire_body(ReasoningPolicy::High)
            .unwrap(),
        nested("chat_template_kwargs", "enable_thinking", Json::Bool(true))
    );
    assert_eq!(
        ReasoningDialect::ChatTemplateReasoningEffort
            .wire_body(ReasoningPolicy::Medium)
            .unwrap(),
        nested("chat_template_kwargs", "reasoning_effort", text("medium"))
    );
    assert_eq!(
        ReasoningDialect::ChatTemplateReasoningEffort
            .wire_body(ReasoningPolicy::Off)
            .unwrap(),
        nested("chat_template_kwargs", "enable_thinking", Json::Bool(false))
    );
}

#[test]
fn dialect_deserializes_config_spellings() {
    assert_eq!(
        ReasoningDialect::from_config("openai_effort"),
        Some(ReasoningDialect::OpenAiEffort)
    );
    assert_eq!(
        ReasoningDialect::from_config("openrouter_enabled"),
        Some(ReasoningDialect::OpenRouterEnabled)
    );
    assert_eq!(
        ReasoningDialect::from_config("llama_cpp_enable_thinking"),
        Some(ReasoningDialect::LlamaCppEnableThinking)
    );
    assert_eq!(
        ReasoningDialect::from_config("chat_template_reasoning_effort"),
        Some(ReasoningDialect::ChatTemplateReasoningEffort)
    );
    assert!(ReasoningDialect::from_config("chat_template").is_none());
}

#[test]
fn honors_tracks_expressibility() {
    for dialect in DIALECTS {
        for policy in POLICIES {
            assert!(dialect.honors(policy), "{dialect:?} must honor {policy:?}");
        }
    }
}

#[test]
fn thinking_and_none_never_share_a_wire_body() {
    for dialect in DIALECTS {
        let off = dialect.wire_body(ReasoningPolicy::Off);
        for policy in POLICIES {
            assert_eq!(
                dialect.wire_body(policy) == off,
                policy == ReasoningPolicy::Off
            );
        }
    }
}
