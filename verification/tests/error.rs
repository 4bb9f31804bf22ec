//! Classification of upstream error bodies.
use switchyard::error::{
    is_overflow_body, is_permanent_quota, is_permanent_quota_429, mentions_phrase,
};
use switchyard::json::Json;

fn phrases() -> Vec<&'static str> {
    vec!["context window", "too long"]
}

fn never(_value: &Json) -> bool {
    false
}

#[test]
fn structured_check_short_circuits() {
    let body = r#"{"error":{"code":"context_length_exceeded","message":"unrelated"}}"#;
    let matched = is_overflow_body(
        body,
        |value: &Json| {
            value
                .get("error")
                .and_then(|err| err.get("code"))
                .and_then(Json::as_str)
                == Some("context_length_exceeded")
        },
        &vec![],
    );
    assert!(matched);
}

#[test]
fn falls_back_to_message_phrase_match() {
    let body = r#"{"error":{"message":"prompt too long"}}"#;
    assert!(is_overflow_body(body, never, &phrases()));
}

#[test]
fn matches_plain_text_body() {
    assert!(is_overflow_body(
        "plain text mentioning context window",
        never,
        &phrases()
    ));
}

#[test]
fn non_match_returns_false() {
    let body = r#"{"error":{"message":"rate limit exceeded"}}"#;
    assert!(!is_overflow_body(body, never, &phrases()));
}

#[test]
fn parsed_message_is_searched_with_its_escapes_read() {
    let body = r#"{"error":{"message":"prompt too\u0020long"}}"#;
    assert!(is_overflow_body(body, never, &phrases()));
    assert!(!mentions_phrase(&None, body, &phrases()));
}

#[test]
fn raw_text_is_searched_only_where_it_is_not_json() {
    let phrase = vec!["context window"];
    let body = r#"{"error":{"message":"bad request"},"hint":"context window"}"#;
    assert!(!is_overflow_body(body, never, &phrase));
    assert!(!is_overflow_body(r#""context window""#, never, &phrase));
    assert!(is_overflow_body("{context window", never, &phrase));
    let transient = r#"{"error":{"message":"slow down"},"docs":"how credits work"}"#;
    assert!(!is_permanent_quota_429(transient));
}

#[test]
fn phrases_match_in_any_case() {
    let phrase = vec!["Context Window"];
    assert!(is_overflow_body("the CONTEXT WINDOW is full", never, &phrase));
    let body = r#"{"error":{"message":"the context window is full"}}"#;
    assert!(is_overflow_body(body, never, &phrase));
}

#[test]
fn openai_insufficient_quota_body_is_permanent() {
    let body = r#"{"error":{"message":"You exceeded your current quota, please check your plan and billing details. For more information on this error, read the docs: https://platform.openai.com/docs/guides/error-codes/api-errors.","type":"insufficient_quota","param":null,"code":"insufficient_quota"}}"#;
    assert!(is_permanent_quota_429(body));
}

#[test]
fn plain_text_credit_exhaustion_bodies_are_permanent() {
    for body in [
        "You've run out of credits. Please top up to continue.",
        "not enough credits",
        "Your credits have been exhausted",
        "payment required: quota exhausted",
        "you have used all your usage limit for this billing period",
    ] {
        assert!(is_permanent_quota_429(body), "body: {body}");
    }
}

#[test]
fn transient_rate_limit_bodies_are_not_permanent() {
    for body in [
        r#"{"error":{"message":"Rate limit reached for gpt-5.6-luna on tokens per min (TPM): Limit 30000, Used 29999. Please try again in 20ms.","type":"tokens","param":null,"code":"rate_limit_exceeded"}}"#,
        r#"{"error":{"message":"Number of requests has exceeded your per-minute rate limit. Please slow down and try again."}}"#,
        "Too many requests. Please retry after 30 seconds.",
        r#"{"error":{"message":"rate limit exceeded, please retry later"}}"#,
    ] {
        assert!(
            !is_permanent_quota_429(body),
            "transient body misclassified permanent: {body}"
        );
    }
}

#[test]
fn credits_mentioning_daily_cap_is_classified_permanent_intentionally() {
    let body = "Rate limit exceeded: free-models-per-day. Add 10 credits to unlock 1000 free model requests per day.";
    assert!(is_permanent_quota_429(body));
}

#[test]
fn quota_code_is_read_from_the_parsed_body_alone() {
    let coded = |code: &str| {
        Some(Json::Object(vec![(
            "error".to_string(),
            Json::Object(vec![("code".to_string(), Json::Text(code.to_string()))]),
        )]))
    };
    assert!(is_permanent_quota(&coded("insufficient_quota"), ""));
    assert!(!is_permanent_quota(&coded("Insufficient_Quota"), ""));
    assert!(!is_permanent_quota(&None, ""));
    assert!(is_permanent_quota(&None, "USAGE LIMIT"));
    let escaped = r#"{"error":{"code":"insufficient\u005fquota"}}"#;
    assert!(is_permanent_quota_429(escaped));
    assert!(!is_permanent_quota(&None, escaped));
}
