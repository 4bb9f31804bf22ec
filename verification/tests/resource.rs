//! Resource-aware routing: pools, contracts, caps and reasons.
use switchyard::error::LibsyError;
use switchyard::json::Json;
use switchyard::request::{ContentBlock, Message, ReasoningParams, Request};
use switchyard::resource::{
    estimate_request_tokens, request_modality, Candidate, ContractFilter, DeepSeekResourceState,
    Modality, OpenAiResourceState, Pool, ReasoningIntent, ReasoningPolicy, ResourceRouter,
    ResourceSnapshot, ResourceState, SemanticContract, SharedResourceTelemetry, WorkClass,
    WorkShape, FULL_ALLOWANCE, ONE_PERCENT,
};

fn prompt(text: &str) -> Request {
    Request {
        model: Some("auto".to_string()),
        messages: vec![Message {
            content: vec![ContentBlock::Text {
                text: text.to_string(),
            }],
        }],
        instructions: vec![],
        tools: vec![],
        reasoning: ReasoningParams { effort: None },
        extensions: vec![],
        max_output_tokens: None,
        candidate_input_tokens: vec![],
    }
}

fn text_request_hi() -> Request {
    prompt("hi")
}

fn request_with_work_class(class: &str, text: &str) -> Request {
    let mut request = prompt(text);
    request
        .extensions
        .push(("work_class".to_string(), Json::Text(class.to_string())));
    request
}

fn request_with_contract(shape: &str, intent: &str, text: &str) -> Request {
    let mut request = prompt(text);
    request
        .extensions
        .push(("work_shape".to_string(), Json::Text(shape.to_string())));
    request.extensions.push((
        "reasoning_intent".to_string(),
        Json::Text(intent.to_string()),
    ));
    request
}

struct Lane {
    router: ResourceRouter,
    snapshot: ResourceSnapshot,
}

fn make_router(candidates: Vec<Candidate>, snapshot: ResourceSnapshot) -> Lane {
    Lane {
        router: ResourceRouter::new("test_resource", candidates),
        snapshot,
    }
}

fn make_request_router(candidates: Vec<Candidate>, snapshot: ResourceSnapshot) -> Lane {
    Lane {
        router: ResourceRouter::new("test_request_resource", candidates)
            .with_contract_filter(ContractFilter::Request),
        snapshot,
    }
}

fn drive(lane: Lane, request: Request) -> Result<String, LibsyError> {
    lane.router
        .route(Ok(&lane.snapshot), request)
        .map(|routed| routed.target)
}

fn snapshot(openai: OpenAiResourceState, deepseek: DeepSeekResourceState) -> ResourceSnapshot {
    ResourceSnapshot {
        openai: Some(openai),
        deepseek: Some(deepseek),
    }
}

fn openai_healthy() -> OpenAiResourceState {
    OpenAiResourceState {
        available: true,
        limit_reached: false,
        spend_control_reached: false,
        weekly_used_percent: Some(72 * ONE_PERCENT),
        weekly_reset_at: Some(1787197109),
        credits_balance: Some("0".into()),
        last_success_at: Some(1786959960),
        error: None,
    }
}

fn openai_exhausted() -> OpenAiResourceState {
    OpenAiResourceState {
        available: true,
        limit_reached: true,
        spend_control_reached: false,
        weekly_used_percent: Some(100 * ONE_PERCENT),
        weekly_reset_at: Some(1787197109),
        credits_balance: Some("500".into()),
        last_success_at: Some(1786959960),
        error: None,
    }
}

fn openai_spend_control() -> OpenAiResourceState {
    OpenAiResourceState {
        available: true,
        limit_reached: false,
        spend_control_reached: true,
        weekly_used_percent: Some(60 * ONE_PERCENT),
        weekly_reset_at: Some(1787197109),
        credits_balance: Some("0".into()),
        last_success_at: Some(1786959960),
        error: None,
    }
}

fn openai_unknown() -> OpenAiResourceState {
    OpenAiResourceState::unavailable_error("openai-resource fetch failed (HTTP 500)".into())
}

fn deepseek_available() -> DeepSeekResourceState {
    DeepSeekResourceState {
        is_available: true,
        currency: "CNY".into(),
        total_balance: "23.98".into(),
        granted_balance: "0.00".into(),
        topped_up_balance: "23.98".into(),
        last_success_at: Some(1786959960),
        error: None,
    }
}

fn deepseek_empty() -> DeepSeekResourceState {
    DeepSeekResourceState {
        is_available: true,
        currency: "CNY".into(),
        total_balance: "0.00".into(),
        granted_balance: "0.00".into(),
        topped_up_balance: "0.00".into(),
        last_success_at: Some(1786959960),
        error: None,
    }
}

fn deepseek_unknown() -> DeepSeekResourceState {
    DeepSeekResourceState::unavailable_error("deepseek-resource fetch failed (HTTP 500)".into())
}

fn candidate(name: &str, pool: Pool) -> Candidate {
    Candidate {
        target: name.into(),
        pool,
        context_cap_tokens: Some(266_000),
        modalities: vec![Modality::Text],
        reasoning: ReasoningPolicy::NonThinking,
        shapes: vec![],
        intents: vec![],
    }
}

fn candidate_for(name: &str, pool: Pool, shape: WorkShape) -> Candidate {
    Candidate {
        shapes: vec![shape],
        ..candidate(name, pool)
    }
}

fn candidate_for_contract(
    name: &str,
    pool: Pool,
    shape: WorkShape,
    intent: ReasoningIntent,
) -> Candidate {
    Candidate {
        shapes: vec![shape],
        intents: vec![intent],
        ..candidate(name, pool)
    }
}

fn universal_candidates() -> Vec<Candidate> {
    let mut luna = candidate_for_contract(
        "testing/luna",
        Pool::OpenAi,
        WorkShape::Bounded,
        ReasoningIntent::Direct,
    );
    luna.context_cap_tokens = Some(266_000);
    let mut flash_nt = candidate_for_contract(
        "testing/flash-nt",
        Pool::DeepSeek,
        WorkShape::Agentic,
        ReasoningIntent::Direct,
    );
    flash_nt.shapes = vec![WorkShape::Bounded, WorkShape::Agentic];
    flash_nt.context_cap_tokens = Some(750_000);
    let mut flash_think = candidate_for_contract(
        "testing/flash-think",
        Pool::DeepSeek,
        WorkShape::Bounded,
        ReasoningIntent::Deliberate,
    );
    flash_think.shapes = vec![WorkShape::Bounded, WorkShape::Agentic];
    flash_think.reasoning = ReasoningPolicy::Thinking;
    flash_think.context_cap_tokens = Some(1_048_576);
    vec![luna, flash_nt, flash_think]
}

#[test]
fn openai_healthy_bounded_text_selects_luna() {
    let router = make_router(
        vec![
            candidate("testing/luna", Pool::OpenAi),
            candidate("testing/flash", Pool::DeepSeek),
        ],
        snapshot(openai_healthy(), deepseek_available()),
    );
    let selected = drive(router, text_request_hi()).unwrap();
    assert_eq!(selected, "testing/luna");
}

#[test]
fn openai_weekly_exhausted_bounded_text_falls_to_flash() {
    let router = make_router(
        vec![
            candidate("testing/luna", Pool::OpenAi),
            candidate("testing/flash", Pool::DeepSeek),
        ],
        snapshot(openai_exhausted(), deepseek_available()),
    );
    let selected = drive(router, text_request_hi()).unwrap();
    assert_eq!(selected, "testing/flash");
}

#[test]
fn credits_positive_but_weekly_exhausted_still_selects_flash() {
    let router = make_router(
        vec![
            candidate("testing/luna", Pool::OpenAi),
            candidate("testing/flash", Pool::DeepSeek),
        ],
        snapshot(openai_exhausted(), deepseek_available()),
    );
    let selected = drive(router, text_request_hi()).unwrap();
    assert_eq!(selected, "testing/flash");
}

#[test]
fn spend_control_reached_does_not_unlock_fallback() {
    let router = make_router(
        vec![
            candidate("testing/luna", Pool::OpenAi),
            candidate("testing/flash", Pool::DeepSeek),
        ],
        snapshot(openai_spend_control(), deepseek_available()),
    );
    let selected = drive(router, text_request_hi()).unwrap();
    assert_eq!(selected, "testing/luna");
}

#[test]
fn bounded_with_effort_high_stays_on_luna() {
    let mut request = request_with_contract("bounded", "none", "hi");
    request.reasoning.effort = Some("high".to_string());
    let router = make_request_router(
        universal_candidates(),
        snapshot(openai_healthy(), deepseek_available()),
    );
    let selected = drive(router, request).unwrap();
    assert_eq!(selected, "testing/luna");
}

#[test]
fn deepseek_only_route_selects_flash_when_available() {
    let router = make_router(
        vec![candidate("testing/flash", Pool::DeepSeek)],
        snapshot(openai_healthy(), deepseek_available()),
    );
    let selected = drive(router, text_request_hi()).unwrap();
    assert_eq!(selected, "testing/flash");
}

#[test]
fn used_percent_100_confirmed_exhaustion_selects_flash() {
    let mut openai = openai_healthy();
    openai.weekly_used_percent = Some(100 * ONE_PERCENT);
    let router = make_router(
        vec![
            candidate("testing/luna", Pool::OpenAi),
            candidate("testing/flash", Pool::DeepSeek),
        ],
        snapshot(openai, deepseek_available()),
    );
    let selected = drive(router, text_request_hi()).unwrap();
    assert_eq!(selected, "testing/flash");
}

#[test]
fn context_over_cap_fails_closed_no_deepseek_escape_hatch() {
    let mut cand = candidate("testing/luna", Pool::OpenAi);
    cand.context_cap_tokens = Some(8);
    let request = prompt("this is a substantially longer request body used to exceed the tiny configured context cap for the luna candidate");
    let router = make_router(
        vec![cand, candidate("testing/flash", Pool::DeepSeek)],
        snapshot(openai_healthy(), deepseek_available()),
    );
    let result = drive(router, request);
    assert!(result.is_err());
    let err = match result {
        Ok(_) => panic!("expected error"),
        Err(error) => error,
    };
    assert!(err.message().contains("no eligible target"));
    assert!(err.message()
        .contains("deepseek fallback blocked (openai not confirmed exhausted)"));
}

#[test]
fn thinking_candidate_rejects_explicit_none() {
    let mut cand = candidate("testing/thinking", Pool::DeepSeek);
    cand.reasoning = ReasoningPolicy::Thinking;
    let router = make_router(
        vec![cand, candidate("testing/flash", Pool::DeepSeek)],
        snapshot(openai_healthy(), deepseek_available()),
    );
    let mut request = text_request_hi();
    request.reasoning.effort = Some("none".to_string());
    let selected = drive(router, request).unwrap();
    assert_eq!(selected, "testing/flash");
}

#[test]
fn modality_incompatible_candidate_excluded() {
    let mut text_only = candidate("testing/text-only", Pool::DeepSeek);
    text_only.modalities = vec![Modality::Text];
    let mut image_ok = candidate("testing/image-ok", Pool::OpenAi);
    image_ok.modalities = vec![Modality::Text, Modality::Image];
    let router = make_router(
        vec![text_only, image_ok],
        snapshot(openai_healthy(), deepseek_available()),
    );
    let mut request = prompt("describe this image");
    request.messages.push(Message {
        content: vec![ContentBlock::Image],
    });
    let selected = drive(router, request).unwrap();
    assert_eq!(selected, "testing/image-ok");
}

#[test]
fn openai_unknown_deepseek_healthy_bounded_stays_on_luna() {
    let router = make_router(
        vec![
            candidate("testing/luna", Pool::OpenAi),
            candidate("testing/flash", Pool::DeepSeek),
        ],
        snapshot(openai_unknown(), deepseek_available()),
    );
    let selected = drive(router, text_request_hi()).unwrap();
    assert_eq!(selected, "testing/luna");
}

#[test]
fn openai_available_false_not_exhausted_bounded_stays_on_luna() {
    let mut openai = openai_healthy();
    openai.available = false;
    openai.error = Some("transient read failure".into());
    let router = make_router(
        vec![
            candidate("testing/luna", Pool::OpenAi),
            candidate("testing/flash", Pool::DeepSeek),
        ],
        snapshot(openai, deepseek_available()),
    );
    let selected = drive(router, text_request_hi()).unwrap();
    assert_eq!(selected, "testing/luna");
}

#[test]
fn openai_state_missing_bounded_stays_on_luna() {
    let router = make_router(
        vec![
            candidate("testing/luna", Pool::OpenAi),
            candidate("testing/flash", Pool::DeepSeek),
        ],
        ResourceSnapshot {
            openai: None,
            deepseek: Some(deepseek_available()),
        },
    );
    let selected = drive(router, text_request_hi()).unwrap();
    assert_eq!(selected, "testing/luna");
}

#[test]
fn deepseek_unknown_openai_healthy_bounded_selects_luna() {
    let router = make_router(
        vec![
            candidate("testing/luna", Pool::OpenAi),
            candidate("testing/flash", Pool::DeepSeek),
        ],
        snapshot(openai_healthy(), deepseek_unknown()),
    );
    let selected = drive(router, text_request_hi()).unwrap();
    assert_eq!(selected, "testing/luna");
}

#[test]
fn both_pools_unknown_bounded_stays_on_luna() {
    let router = make_router(
        vec![
            candidate("testing/luna", Pool::OpenAi),
            candidate("testing/flash", Pool::DeepSeek),
        ],
        snapshot(openai_unknown(), deepseek_unknown()),
    );
    let selected = drive(router, text_request_hi()).unwrap();
    assert_eq!(selected, "testing/luna");
}

#[test]
fn universal_bounded_metadata_selects_luna_when_healthy() {
    let router = make_request_router(
        universal_candidates(),
        snapshot(openai_healthy(), deepseek_available()),
    );
    let selected = drive(router, request_with_work_class("bounded", "hi")).unwrap();
    assert_eq!(selected, "testing/luna");
}

#[test]
fn universal_bounded_openai_unknown_stays_on_luna() {
    let router = make_request_router(
        universal_candidates(),
        snapshot(openai_unknown(), deepseek_available()),
    );
    let selected = drive(router, request_with_work_class("bounded", "hi")).unwrap();
    assert_eq!(selected, "testing/luna");
}

#[test]
fn universal_agentic_metadata_selects_flash_nt_luna_excluded() {
    let router = make_request_router(
        universal_candidates(),
        snapshot(openai_healthy(), deepseek_available()),
    );
    let selected = drive(router, request_with_work_class("agentic", "hi")).unwrap();
    assert_eq!(selected, "testing/flash-nt");
}

#[test]
fn universal_agentic_large_context_luna_never_considered() {
    let prompt = "x".repeat(320_000);
    let router = make_request_router(
        universal_candidates(),
        snapshot(openai_healthy(), deepseek_available()),
    );
    let selected = drive(router, request_with_work_class("agentic", &prompt)).unwrap();
    assert_eq!(selected, "testing/flash-nt");
}

#[test]
fn universal_reasoning_metadata_selects_flash_thinking() {
    let router = make_request_router(
        universal_candidates(),
        snapshot(openai_healthy(), deepseek_available()),
    );
    let selected = drive(router, request_with_work_class("reasoning", "hi")).unwrap();
    assert_eq!(selected, "testing/flash-think");
}

#[test]
fn contract_bounded_none_selects_luna_when_healthy() {
    let router = make_request_router(
        universal_candidates(),
        snapshot(openai_healthy(), deepseek_available()),
    );
    let selected = drive(router, request_with_contract("bounded", "none", "hi")).unwrap();
    assert_eq!(selected, "testing/luna");
}

#[test]
fn contract_bounded_none_openai_exhausted_selects_flash_nt() {
    let router = make_request_router(
        universal_candidates(),
        snapshot(openai_exhausted(), deepseek_available()),
    );
    let selected = drive(router, request_with_contract("bounded", "none", "hi")).unwrap();
    assert_eq!(selected, "testing/flash-nt");
}

#[test]
fn contract_agentic_none_selects_flash_nt() {
    let router = make_request_router(
        universal_candidates(),
        snapshot(openai_healthy(), deepseek_available()),
    );
    let selected = drive(router, request_with_contract("agentic", "none", "hi")).unwrap();
    assert_eq!(selected, "testing/flash-nt");
}

#[test]
fn contract_bounded_deliberate_rejected() {
    let router = make_request_router(
        universal_candidates(),
        snapshot(openai_healthy(), deepseek_available()),
    );
    let result = drive(
        router,
        request_with_contract("bounded", "deliberate", "hi"));
    assert!(result.is_err());
    let err = match result {
        Ok(_) => panic!("expected error"),
        Err(error) => error,
    };
    assert!(err.message()
        .contains("bounded work_shape with reasoning_intent=deliberate is contradictory"));
}

#[test]
fn contract_agentic_deliberate_selects_flash_thinking() {
    let router = make_request_router(
        universal_candidates(),
        snapshot(openai_healthy(), deepseek_available()),
    );
    let selected = drive(
        router,
        request_with_contract("agentic", "deliberate", "hi")).unwrap();
    assert_eq!(selected, "testing/flash-think");
}

#[test]
fn contract_agentic_deliberate_deepseek_unknown_no_luna_downgrade() {
    let router = make_request_router(
        universal_candidates(),
        snapshot(openai_healthy(), deepseek_unknown()),
    );
    let result = drive(
        router,
        request_with_contract("agentic", "deliberate", "hi"));
    assert!(result.is_err());
    let err = match result {
        Ok(_) => panic!("expected error"),
        Err(error) => error,
    };
    assert!(err.message().contains("no eligible target"));
    assert!(!err.message().contains("testing/luna"));
}

#[test]
fn contract_agentic_none_deepseek_unknown_no_luna_downgrade() {
    let router = make_request_router(
        universal_candidates(),
        snapshot(openai_healthy(), deepseek_unknown()),
    );
    let result = drive(
        router,
        request_with_contract("agentic", "none", "hi"));
    assert!(result.is_err());
    let err = match result {
        Ok(_) => panic!("expected error"),
        Err(error) => error,
    };
    assert!(err.message().contains("no eligible target"));
    assert!(!err.message().contains("testing/luna"));
}

#[test]
fn contract_agentic_none_deepseek_empty_excludes_flash() {
    let router = make_request_router(
        universal_candidates(),
        snapshot(openai_healthy(), deepseek_empty()),
    );
    let result = drive(
        router,
        request_with_contract("agentic", "none", "hi"));
    assert!(result.is_err());
}

#[test]
fn universal_missing_metadata_errors_no_guessing() {
    let router = make_request_router(
        universal_candidates(),
        snapshot(openai_healthy(), deepseek_available()),
    );
    let result = drive(router, text_request_hi());
    assert!(result.is_err());
    let err = match result {
        Ok(_) => panic!("expected error"),
        Err(error) => error,
    };
    assert!(err.message().contains("work_shape + reasoning_intent metadata required"));
}

#[test]
fn universal_invalid_metadata_errors() {
    let router = make_request_router(
        universal_candidates(),
        snapshot(openai_healthy(), deepseek_available()),
    );
    let result = drive(router, request_with_work_class("chatty", "hi"));
    assert!(result.is_err());
    let err = match result {
        Ok(_) => panic!("expected error"),
        Err(error) => error,
    };
    assert!(err.message().contains("invalid work_class"));
}

#[test]
fn universal_invalid_orthogonal_metadata_errors() {
    let router = make_request_router(
        universal_candidates(),
        snapshot(openai_healthy(), deepseek_available()),
    );
    let result = drive(router, request_with_contract("chatty", "none", "hi"));
    assert!(result.is_err());
    let err = match result {
        Ok(_) => panic!("expected error"),
        Err(error) => error,
    };
    assert!(err.message().contains("invalid work_shape"));
}

#[test]
fn universal_reasoning_deepseek_unknown_no_luna_substitution() {
    let router = make_request_router(
        universal_candidates(),
        snapshot(openai_healthy(), deepseek_unknown()),
    );
    let result = drive(router, request_with_work_class("reasoning", "hi"));
    assert!(result.is_err());
    let err = match result {
        Ok(_) => panic!("expected error"),
        Err(error) => error,
    };
    assert!(err.message().contains("no eligible target"));
    assert!(!err.message().contains("testing/luna"));
}

#[test]
fn the_selected_candidate_sets_the_effort() {
    let run = |reasoning: ReasoningPolicy, effort: Option<&str>| {
        let mut one = candidate("testing/one", Pool::Unpooled);
        one.reasoning = reasoning;
        let mut request = text_request_hi();
        request.reasoning.effort = effort.map(str::to_string);
        let routed = ResourceRouter::new("test_resource", vec![one])
            .route(Ok(&ResourceSnapshot::default()), request)
            .unwrap();
        assert_eq!(routed.target, "testing/one");
        assert_eq!(routed.request.model.as_deref(), Some("auto"));
        routed.request.reasoning.effort
    };
    assert_eq!(
        run(ReasoningPolicy::NonThinking, None).as_deref(),
        Some("none")
    );
    assert_eq!(
        run(ReasoningPolicy::NonThinking, Some("")).as_deref(),
        Some("none")
    );
    assert_eq!(run(ReasoningPolicy::Thinking, None).as_deref(), Some("high"));
    assert_eq!(run(ReasoningPolicy::Any, None), None);
    assert_eq!(
        run(ReasoningPolicy::Any, Some("low")).as_deref(),
        Some("low")
    );
}

#[test]
fn reasons_are_listed_in_order() {
    let mut image = candidate("testing/image", Pool::Unpooled);
    image.modalities = vec![Modality::Image];
    let lane = make_router(
        vec![
            candidate("testing/flash", Pool::DeepSeek),
            image,
            candidate("testing/luna", Pool::OpenAi),
        ],
        snapshot(openai_exhausted(), deepseek_empty()),
    );
    let err = drive(lane, text_request_hi()).unwrap_err();
    assert_eq!(
        err.message(),
        "test_resource: no eligible target (3); reasons: deepseek pool unavailable; \
         request modality not supported by candidate; openai pool exhausted (confirmed)"
    );
    let err = drive(make_router(vec![], ResourceSnapshot::default()), text_request_hi());
    assert_eq!(
        err.unwrap_err().message(),
        "test_resource: no eligible target (0); reasons: "
    );
}

#[test]
fn both_deepseek_objections_are_reported() {
    let mut luna = candidate("testing/luna", Pool::OpenAi);
    luna.context_cap_tokens = Some(0);
    let lane = make_router(
        vec![luna, candidate("testing/flash", Pool::DeepSeek)],
        snapshot(openai_healthy(), deepseek_unknown()),
    );
    let err = drive(lane, prompt("long enough")).unwrap_err();
    assert_eq!(
        err.message(),
        "test_resource: no eligible target (2); reasons: request exceeds candidate context cap; \
         deepseek pool unavailable; deepseek fallback blocked (openai not confirmed exhausted)"
    );
}

#[test]
fn a_failed_fetch_fails_the_route() {
    let router = ResourceRouter::new("test_resource", vec![]);
    let err = router
        .route(Err("HTTP 500".to_string()), text_request_hi())
        .unwrap_err();
    assert_eq!(
        err.message(),
        "test_resource: resource state fetch failed (HTTP 500); see server logs"
    );
}

#[test]
fn metadata_is_read_in_any_case() {
    assert_eq!(" Bounded ".parse::<WorkShape>(), Ok(WorkShape::Bounded));
    assert_eq!("AGENTIC".parse::<WorkClass>(), Ok(WorkClass::Agentic));
    assert_eq!(
        "Deliberate".parse::<ReasoningIntent>(),
        Ok(ReasoningIntent::Deliberate)
    );
    assert_eq!(
        " Chatty".parse::<WorkClass>().unwrap_err(),
        "invalid work_class \"chatty\" (expected bounded | agentic | reasoning)"
    );
    assert_eq!(
        "x".parse::<WorkShape>().unwrap_err(),
        "invalid work_shape \"x\" (expected bounded | agentic)"
    );
    assert_eq!(
        "x".parse::<ReasoningIntent>().unwrap_err(),
        "invalid reasoning_intent \"x\" (expected none | deliberate)"
    );
    assert_eq!(
        SemanticContract::from_work_class(WorkClass::Reasoning),
        SemanticContract {
            shape: WorkShape::Agentic,
            intent: ReasoningIntent::Deliberate
        }
    );
}

#[test]
fn a_fixed_contract_filters_without_metadata() {
    let contract = SemanticContract {
        shape: WorkShape::Agentic,
        intent: ReasoningIntent::Direct,
    };
    let router = ResourceRouter::new("test_resource", universal_candidates())
        .with_contract_filter(ContractFilter::Fixed(contract));
    let state = snapshot(openai_healthy(), deepseek_available());
    let routed = router.route(Ok(&state), text_request_hi()).unwrap();
    assert_eq!(routed.target, "testing/flash-nt");
    assert_eq!(
        router.effective_contract(&text_request_hi()).unwrap(),
        Some(contract)
    );
}

#[test]
fn a_fixed_contradictory_contract_is_rejected() {
    let router = ResourceRouter::new("test_resource", universal_candidates())
        .with_contract_filter(ContractFilter::Fixed(SemanticContract {
            shape: WorkShape::Bounded,
            intent: ReasoningIntent::Deliberate,
        }));
    let err = router.effective_contract(&text_request_hi()).unwrap_err();
    assert_eq!(
        err.message(),
        "test_resource: bounded work_shape with reasoning_intent=deliberate is contradictory; \
         reclassify the task as deliberate/non-bounded before routing"
    );
}

#[test]
fn a_selection_tells_its_pool_and_whether_it_is_a_fallback() {
    let both = || {
        vec![
            candidate("testing/luna", Pool::OpenAi),
            candidate("testing/flash", Pool::DeepSeek),
        ]
    };
    let run = |candidates, state: ResourceSnapshot| {
        ResourceRouter::new("test_resource", candidates)
            .route(Ok(&state), text_request_hi())
            .unwrap()
    };
    let spilled = run(both(), snapshot(openai_exhausted(), deepseek_available()));
    assert_eq!(spilled.pool, Pool::DeepSeek);
    assert!(spilled.sanctioned_fallback && spilled.contract.is_none());
    let first = run(both(), snapshot(openai_healthy(), deepseek_available()));
    assert_eq!(first.pool, Pool::OpenAi);
    assert!(!first.sanctioned_fallback);
    let lane = run(
        vec![candidate("testing/flash", Pool::DeepSeek)],
        snapshot(openai_exhausted(), deepseek_available()),
    );
    assert!(!lane.sanctioned_fallback);
}

#[test]
fn request_sizes_are_estimated() {
    let mut request = prompt("12345678901");
    request.messages[0].content.push(ContentBlock::Image);
    request.messages[0].content.push(ContentBlock::Other);
    request.instructions.push(Message {
        content: vec![ContentBlock::Text {
            text: "\u{e9}\u{e9}\u{e9}\u{e9}".to_string(),
        }],
    });
    assert_eq!(estimate_request_tokens(&request), 2 + 1024 + 1);
    assert_eq!(request_modality(&request), Modality::Image);
    assert_eq!(request_modality(&prompt("hi")), Modality::Text);
}

#[test]
fn allowance_is_read_from_the_used_share() {
    let mut state = openai_healthy();
    assert_eq!(
        state.weekly_remaining_percent(),
        Some(28 * ONE_PERCENT as i128)
    );
    assert!(state.weekly_eligible());
    state.weekly_used_percent = Some(FULL_ALLOWANCE - 1);
    assert!(state.weekly_eligible() && !state.confirmed_exhausted());
    state.weekly_used_percent = Some(FULL_ALLOWANCE);
    assert!(!state.weekly_eligible() && state.confirmed_exhausted());
    state.weekly_used_percent = None;
    assert_eq!(state.weekly_remaining_percent(), None);
    assert!(state.weekly_eligible() && !state.confirmed_exhausted());
    assert!(!openai_spend_control().weekly_eligible());
    assert!(!OpenAiResourceState::default().weekly_eligible());
}

#[test]
fn balances_are_read_as_floating_point_texts() {
    let positive = |text: &str| DeepSeekResourceState {
        is_available: true,
        total_balance: text.to_string(),
        ..DeepSeekResourceState::default()
    }
    .eligible();
    for text in [
        "23.98", " 1\n", "+5", ".5", "5.", "1e3", "1E+3", "0.001e-2", "inf", "+Infinity", "007",
        "5e-324", "2.5e-324", "1e-323", "1e400", "0.0000000000000000000000000000001",
        "2.470328229206232720882843964341106861825299013071623822127928412503378e-324",
    ] {
        assert!(positive(text), "{text}");
        assert!(text.trim().parse::<f64>().unwrap() > 0.0, "{text}");
    }
    for text in [
        "0.00", "-1", "-inf", "0", "+0.0e5", "2.4e-324", "1e-324", "1e-400", "1e-99999999999999",
        "2.470328229206232720882843964341106861825299013071623822127928412503377e-324",
    ] {
        assert!(!positive(text), "{text}");
        assert!(!(text.trim().parse::<f64>().unwrap() > 0.0), "{text}");
    }
    // Exactly half of the least positive number rounds to zero; anything more does not.
    let half = "2.4703282292062327208828439643411068618252990130716238221279284125033775363510437593264991818081799618989828234772285886546332835517796989819938739800539093906315035659515570226392290858392449105184435931802849936536152500319370457678249219365623669863658480757001585769269903706311928279558551332927834338409351978015531246597263579574622766465272827220056374006485499977096599470454020828166226237857393450736339007967761930577506740176324673600968951340535537458516661134223766678604162159680461914467291840300530057530849048765391711386591646239524912623653881879636239373280423891018672348497668235089863388587925628302755995657524455507255189313690836254779186948667994968324049705821028513185451396213837722826145437693412532098591327667236328125";
    assert!(!positive(&format!("{half}e-324")));
    assert!(positive(&format!("{half}01e-324")));
    assert!(!(format!("{half}e-324").parse::<f64>().unwrap() > 0.0));
    assert!(format!("{half}01e-324").parse::<f64>().unwrap() > 0.0);
    for text in ["", ".", "e5", "1e", "1e+", "1.2.3", "abc", "1 2", "0x10", "--1", "+-1", "1_000"] {
        assert!(!positive(text), "{text}");
        assert!(text.trim().parse::<f64>().is_err(), "{text}");
    }
    assert!(!positive("NaN") && !("NaN".parse::<f64>().unwrap() > 0.0));
    let unavailable = DeepSeekResourceState {
        is_available: false,
        ..deepseek_available()
    };
    assert!(!unavailable.eligible());
    let failed = DeepSeekResourceState {
        error: Some("read failed".to_string()),
        ..deepseek_available()
    };
    assert!(!failed.eligible());
}

#[test]
fn resource_state_caches_and_publishes() {
    let second = 1_000_000_000u128;
    let mut state = ResourceState::new(30 * second);
    let first = SharedResourceTelemetry::new();
    let other = SharedResourceTelemetry::new();
    state.attach_telemetry(first.clone());
    state.attach_telemetry(other.clone());
    assert!(state.cached(0).is_none());
    assert!(first.get().is_none());
    let failed: Result<ResourceSnapshot, String> = Err("down".to_string());
    let (refused, due) = state.fetched(second, failed);
    assert_eq!(refused.unwrap_err(), "down");
    assert!(due.is_none());
    assert!(first.get().is_none());
    let good: Result<ResourceSnapshot, String> =
        Ok(snapshot(openai_healthy(), deepseek_available()));
    let (stored, due) = state.fetched(second, good);
    assert!(stored.is_ok());
    let due = due.unwrap();
    due.slot.set(due.snapshot);
    let again: Result<ResourceSnapshot, String> = Ok(ResourceSnapshot::default());
    assert!(ResourceState::new(second).fetched(0, again).1.is_none());
    assert!(state.cached(30 * second).is_some());
    assert!(state.cached(31 * second).is_none());
    assert!(first.get().unwrap().openai.is_some());
    assert!(other.get().is_none());
}
