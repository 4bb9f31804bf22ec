//! Fleet routing: filters, ranking, readiness and validation.
use std::sync::Arc;

use switchyard::fleet_router::{
    CandidateProfile, CandidateState, ContextAdmissionPolicy, FleetRouter, FleetSnapshot,
    FleetStateSource, SharedFleetState, StaticFleetState, WorkShape, WorkShapeSource,
};
use switchyard::json::{Json, JsonNumber};
use switchyard::request::{ContentBlock, Message, ModelId, ReasoningParams, Request};

fn text_req() -> Request {
    Request {
        model: None,
        messages: vec![Message {
            content: vec![ContentBlock::Text {
                text: "hello".to_string(),
            }],
        }],
        instructions: vec![],
        tools: vec![],
        reasoning: ReasoningParams { effort: None },
        extensions: vec![],
        max_output_tokens: None,
        candidate_input_tokens: vec![],
    }
}

fn vision_req() -> Request {
    let mut req = text_req();
    req.messages.push(Message {
        content: vec![
            ContentBlock::Text {
                text: "what is in this image".to_string(),
            },
            ContentBlock::Image,
        ],
    });
    req
}

fn tool_req() -> Request {
    let mut req = text_req();
    req.tools.push("lookup".to_string());
    req
}

fn effort_req(effort: &str) -> Request {
    let mut req = text_req();
    req.reasoning = ReasoningParams {
        effort: Some(effort.to_string()),
    };
    req
}

fn reasoning_req() -> Request {
    effort_req("high")
}

/// An explicit non-thinking request via `effort = "none"`.
fn none_reasoning_req() -> Request {
    effort_req("none")
}

/// A request with explicit output budget and candidate input-token facts.
fn ctx_req(max_output_tokens: Option<u64>, input_tokens: &[(&str, u64)]) -> Request {
    let mut req = text_req();
    req.max_output_tokens = max_output_tokens;
    req.candidate_input_tokens = input_tokens
        .iter()
        .map(|(m, n)| (ModelId::from(*m), *n))
        .collect();
    req
}

fn extension_req(key: &str, value: Json) -> Request {
    let mut req = text_req();
    req.extensions.push((key.to_string(), value));
    req
}

/// A request carrying a declared `work_shape` in structured extensions.
fn work_shape_req(shape: &str) -> Request {
    extension_req("work_shape", Json::Text(shape.to_string()))
}

/// A request carrying the legacy `work_class` contract.
fn work_class_req(class: &str) -> Request {
    extension_req("work_class", Json::Text(class.to_string()))
}

/// A request with a declared `min_context_tokens` in structured extensions.
fn min_ctx_req(min: Option<u64>) -> Request {
    match min {
        Some(n) => extension_req(
            "min_context_tokens",
            Json::Number(JsonNumber::Unsigned(n)),
        ),
        None => text_req(),
    }
}

/// A request with a malformed (non-integer) `min_context_tokens`.
fn bad_min_ctx_req() -> Request {
    extension_req("min_context_tokens", Json::Text("lots".to_string()))
}

/// A request with a zero `min_context_tokens`.
fn zero_min_ctx_req() -> Request {
    min_ctx_req(Some(0))
}

#[test]
fn public_algorithm_path_produces_native_routing_outcome() {
    let router = FleetRouter::new(profiles(), all_ready()).unwrap();
    let outcome = router.route(text_req()).unwrap();
    assert_eq!(outcome.selected_model_id.to_string(), "luna");
    let fb = outcome
        .fallback_models
        .iter()
        .map(ToString::to_string)
        .collect::<Vec<_>>();
    assert_eq!(fb, ["deepseek-flash", "htpc-qwen3_5"]);
    // The selected model is stamped into the request.
    assert_eq!(outcome.request.model.as_deref(), Some("luna"));
}

#[test]
fn public_algorithm_path_propagates_fail_closed() {
    let states = vec![
        (ModelId::from("luna"), CandidateState::not_ready()),
        (ModelId::from("htpc-qwen3_5"), CandidateState::not_ready()),
        (
            ModelId::from("comfyninja-qwen3_8"),
            CandidateState::transition_required(),
        ),
    ];
    let router = FleetRouter::new(profiles(), states).unwrap();
    let err = match router.route(text_req()) {
        Ok(_) => panic!("expected fail-closed error, got a RoutingOutcome"),
        Err(e) => e,
    };
    assert!(err.message().contains("no immediately-eligible candidate"));
}

#[test]
fn vision_required_excludes_non_vision_candidates() {
    let router = FleetRouter::new(
        vec![
            CandidateProfile::new("text-only", true, true, 1),
            CandidateProfile::new("vision", true, true, 2).with_supports_vision(true),
        ],
        vec![
            (ModelId::from("text-only"), CandidateState::ready()),
            (ModelId::from("vision"), CandidateState::ready()),
        ],
    )
    .unwrap();
    let (selected, _) = router.decide(&vision_req()).unwrap();
    assert_eq!(selected.to_string(), "vision");
}

#[test]
fn vision_required_fails_closed_when_only_text_candidates() {
    let router = FleetRouter::new(
        vec![CandidateProfile::new("text-only", true, true, 1)],
        vec![(ModelId::from("text-only"), CandidateState::ready())],
    )
    .unwrap();
    let err = router.decide(&vision_req()).unwrap_err();
    assert!(err.message().contains("no immediately-eligible candidate"));
}

#[test]
fn text_only_request_unaffected_by_vision_filter() {
    let router = FleetRouter::new(
        vec![
            CandidateProfile::new("text-only", true, true, 1),
            CandidateProfile::new("vision", true, true, 2).with_supports_vision(true),
        ],
        vec![
            (ModelId::from("text-only"), CandidateState::ready()),
            (ModelId::from("vision"), CandidateState::ready()),
        ],
    )
    .unwrap();
    let (selected, _) = router.decide(&text_req()).unwrap();
    assert_eq!(selected.to_string(), "text-only");
}

fn profiles() -> Vec<CandidateProfile> {
    vec![
        CandidateProfile::new("luna", true, true, 1),
        CandidateProfile::new("deepseek-flash", true, true, 2),
        CandidateProfile::new("htpc-qwen3_5", false, false, 3),
        CandidateProfile::new("comfyninja-qwen3_8", true, true, 4),
    ]
}

fn all_ready() -> Vec<(ModelId, CandidateState)> {
    vec![
        (ModelId::from("luna"), CandidateState::ready()),
        (ModelId::from("deepseek-flash"), CandidateState::ready()),
        (ModelId::from("htpc-qwen3_5"), CandidateState::ready()),
        (
            ModelId::from("comfyninja-qwen3_8"),
            CandidateState::transition_required(),
        ),
    ]
}

#[test]
fn simple_chooses_top_preference_and_orders_fallbacks() {
    let router = FleetRouter::new(profiles(), all_ready()).unwrap();
    let (selected, fallbacks) = router.decide(&text_req()).unwrap();
    assert_eq!(selected.to_string(), "luna");
    let fb = fallbacks
        .iter()
        .map(ToString::to_string)
        .collect::<Vec<_>>();
    assert_eq!(fb, ["deepseek-flash", "htpc-qwen3_5"]);
}

#[test]
fn tool_required_excludes_htpc() {
    let router = FleetRouter::new(profiles(), all_ready()).unwrap();
    let (selected, fallbacks) = router.decide(&tool_req()).unwrap();
    assert_eq!(selected.to_string(), "luna");
    let fb = fallbacks
        .iter()
        .map(ToString::to_string)
        .collect::<Vec<_>>();
    assert!(!fb.contains(&"htpc-qwen3_5".to_string()));
    assert!(fb.contains(&"deepseek-flash".to_string()));
}

#[test]
fn reasoning_required_excludes_non_reasoning() {
    let router = FleetRouter::new(profiles(), all_ready()).unwrap();
    let (selected, fallbacks) = router.decide(&reasoning_req()).unwrap();
    assert_eq!(selected.to_string(), "luna");
    let fb = fallbacks
        .iter()
        .map(ToString::to_string)
        .collect::<Vec<_>>();
    assert!(!fb.contains(&"htpc-qwen3_5".to_string()));
}

#[test]
fn transition_required_comfy_is_never_selected_or_fallback() {
    let router = FleetRouter::new(profiles(), all_ready()).unwrap();
    let (selected, fallbacks) = router.decide(&text_req()).unwrap();
    assert_eq!(selected.to_string(), "luna");
    let fb = fallbacks
        .iter()
        .map(ToString::to_string)
        .collect::<Vec<_>>();
    assert!(!fb.contains(&"comfyninja-qwen3_8".to_string()));
    assert!(fb.contains(&"htpc-qwen3_5".to_string()));
}

#[test]
fn unready_candidate_excluded() {
    let states = vec![
        (ModelId::from("luna"), CandidateState::ready()),
        (ModelId::from("deepseek-flash"), CandidateState::ready()),
        (ModelId::from("htpc-qwen3_5"), CandidateState::not_ready()),
        (
            ModelId::from("comfyninja-qwen3_8"),
            CandidateState::transition_required(),
        ),
    ];
    let router = FleetRouter::new(profiles(), states).unwrap();
    let (selected, fallbacks) = router.decide(&text_req()).unwrap();
    assert_eq!(selected.to_string(), "luna");
    let fb = fallbacks
        .iter()
        .map(ToString::to_string)
        .collect::<Vec<_>>();
    assert!(!fb.contains(&"htpc-qwen3_5".to_string()));
    assert!(fb.contains(&"deepseek-flash".to_string()));
}

#[test]
fn no_eligible_fails_closed() {
    let states = vec![
        (ModelId::from("luna"), CandidateState::not_ready()),
        (ModelId::from("deepseek-flash"), CandidateState::not_ready()),
        (ModelId::from("htpc-qwen3_5"), CandidateState::not_ready()),
        (
            ModelId::from("comfyninja-qwen3_8"),
            CandidateState::transition_required(),
        ),
    ];
    let router = FleetRouter::new(profiles(), states).unwrap();
    let err = router.decide(&text_req()).unwrap_err();
    assert!(
        err.message()
            .contains("no immediately-eligible candidate")
    );
}

#[test]
fn fallback_purity() {
    let router = FleetRouter::new(profiles(), all_ready()).unwrap();
    let (_, fallbacks) = router.decide(&tool_req()).unwrap();
    let fb = fallbacks
        .iter()
        .map(ToString::to_string)
        .collect::<Vec<_>>();
    assert!(!fb.contains(&"htpc-qwen3_5".to_string()));
    assert!(!fb.contains(&"comfyninja-qwen3_8".to_string()));
}

#[test]
fn stateless_repeatability() {
    let router = FleetRouter::new(profiles(), all_ready()).unwrap();
    let first = router.decide(&text_req()).unwrap();
    for _ in 0..25 {
        assert_eq!(router.decide(&text_req()).unwrap(), first);
    }
}

#[test]
fn contradictory_state_transition_takes_precedence() {
    let states = vec![
        (ModelId::from("luna"), CandidateState::ready()),
        (
            ModelId::from("comfyninja-qwen3_8"),
            CandidateState {
                ready: true,
                transition_required: true,
            },
        ),
    ];
    let profiles_v = vec![
        CandidateProfile::new("luna", true, true, 1),
        CandidateProfile::new("comfyninja-qwen3_8", true, true, 2),
    ];
    let router = FleetRouter::new(profiles_v, states).unwrap();
    let (selected, back) = router.decide(&text_req()).unwrap();
    assert_eq!(selected.to_string(), "luna");
    assert!(
        back.is_empty(),
        "transition-required Comfy must not be an immediate fallback"
    );
}

#[test]
fn rejects_unknown_or_duplicate_state_keys() {
    let states_unknown = vec![(ModelId::from("does-not-exist"), CandidateState::ready())];
    assert!(
        FleetRouter::new(profiles(), states_unknown).is_err(),
        "state key with no matching profile must be rejected"
    );
    let states_dup = vec![
        (ModelId::from("luna"), CandidateState::ready()),
        (ModelId::from("luna"), CandidateState::not_ready()),
    ];
    assert!(
        FleetRouter::new(profiles(), states_dup).is_err(),
        "duplicate state key must be rejected"
    );
}

#[test]
fn effort_none_is_not_a_reasoning_requirement() {
    let router = FleetRouter::new(profiles(), all_ready()).unwrap();

    let (_, fb) = router.decide(&none_reasoning_req()).unwrap();
    let fb = fb.iter().map(ToString::to_string).collect::<Vec<_>>();
    assert!(fb.contains(&"htpc-qwen3_5".to_string()));

    let (_, fb) = router.decide(&none_reasoning_req()).unwrap();
    let fb = fb.iter().map(ToString::to_string).collect::<Vec<_>>();
    assert!(fb.contains(&"htpc-qwen3_5".to_string()));
}

#[test]
fn reasoning_absent_keeps_non_reasoning_candidate_eligible() {
    let router = FleetRouter::new(profiles(), all_ready()).unwrap();
    let (_, fb) = router.decide(&text_req()).unwrap();
    let fb = fb.iter().map(ToString::to_string).collect::<Vec<_>>();
    assert!(fb.contains(&"htpc-qwen3_5".to_string()));
}

#[test]
fn positive_reasoning_excludes_non_reasoning_candidate() {
    let router = FleetRouter::new(profiles(), all_ready()).unwrap();
    let (_, fb) = router.decide(&reasoning_req()).unwrap();
    let fb = fb.iter().map(ToString::to_string).collect::<Vec<_>>();
    assert!(
        !fb.contains(&"htpc-qwen3_5".to_string()),
        "a high-effort reasoning request must exclude the non-reasoning candidate"
    );
}

fn snapshot(entries: &[(&str, bool, bool)]) -> FleetSnapshot {
    FleetSnapshot::new(
        entries
            .iter()
            .map(|(t, ready, transition)| {
                (
                    ModelId::from(*t),
                    CandidateState {
                        ready: *ready,
                        transition_required: *transition,
                    },
                )
            })
            .collect(),
    )
    .unwrap()
}

#[test]
fn same_router_reacts_to_atomically_replaced_snapshot() {
    let shared = SharedFleetState::new(snapshot(&[
        ("luna", true, false),
        ("deepseek-flash", true, false),
        ("htpc-qwen3_5", true, false),
        ("comfyninja-qwen3_8", false, true),
    ]));
    let router = FleetRouter::with_source(profiles(), Arc::new(shared.clone())).unwrap();

    let (selected, fb) = router.decide(&text_req()).unwrap();
    assert_eq!(selected.to_string(), "luna");
    let fb = fb.iter().map(ToString::to_string).collect::<Vec<_>>();
    assert_eq!(fb, ["deepseek-flash", "htpc-qwen3_5"]);

    shared.set(snapshot(&[
        ("luna", false, false),
        ("deepseek-flash", true, false),
        ("htpc-qwen3_5", true, false),
        ("comfyninja-qwen3_8", false, true),
    ]));
    let (selected, fb) = router.decide(&text_req()).unwrap();
    assert_eq!(selected.to_string(), "deepseek-flash");
    let fb = fb.iter().map(ToString::to_string).collect::<Vec<_>>();
    assert_eq!(fb, ["htpc-qwen3_5"]);

    shared.set(snapshot(&[
        ("luna", false, false),
        ("deepseek-flash", false, false),
        ("htpc-qwen3_5", true, false),
        ("comfyninja-qwen3_8", false, true),
    ]));
    let (selected, fb) = router.decide(&text_req()).unwrap();
    assert_eq!(selected.to_string(), "htpc-qwen3_5");
    assert!(fb.is_empty());

}

#[test]
fn missing_state_is_fail_closed() {
    let shared = SharedFleetState::new(snapshot(&[
        ("htpc-qwen3_5", true, false),
        ("comfyninja-qwen3_8", false, true),
    ]));
    let router = FleetRouter::with_source(profiles(), Arc::new(shared)).unwrap();
    let (selected, fb) = router.decide(&text_req()).unwrap();
    assert_eq!(selected.to_string(), "htpc-qwen3_5");
    assert!(fb.is_empty());

    let empty = SharedFleetState::new(snapshot(&[]));
    let router = FleetRouter::with_source(profiles(), Arc::new(empty)).unwrap();
    let err = router.decide(&text_req()).unwrap_err();
    assert!(
        err.message()
            .contains("no immediately-eligible candidate")
    );
}

fn bounded_profile(target: &str, rank: u16, cap: u64) -> CandidateProfile {
    CandidateProfile::new(target, true, true, rank).with_context_policy(
        ContextAdmissionPolicy::Bounded {
            usable_context_tokens: cap,
        },
    )
}

#[test]
fn context_unmanaged_candidate_unchanged() {
    let router = FleetRouter::new(
        vec![CandidateProfile::new("cloud", true, true, 1)],
        vec![(ModelId::from("cloud"), CandidateState::ready())],
    )
    .unwrap();
    let (selected, _) = router.decide(&text_req()).unwrap();
    assert_eq!(selected.to_string(), "cloud");
}

#[test]
fn bounded_known_fit_eligible() {
    let router = FleetRouter::new(
        vec![bounded_profile("local", 1, 65_536)],
        vec![(ModelId::from("local"), CandidateState::ready())],
    )
    .unwrap();
    let (selected, _) = router
        .decide(&ctx_req(Some(8_000), &[("local", 50_000)]))
        .unwrap();
    assert_eq!(selected.to_string(), "local");
}

#[test]
fn bounded_exact_boundary_eligible() {
    let router = FleetRouter::new(
        vec![bounded_profile("local", 1, 65_536)],
        vec![(ModelId::from("local"), CandidateState::ready())],
    )
    .unwrap();
    let (selected, _) = router
        .decide(&ctx_req(Some(15_536), &[("local", 50_000)]))
        .unwrap();
    assert_eq!(selected.to_string(), "local");
}

#[test]
fn bounded_overflow_excluded() {
    let router = FleetRouter::new(
        vec![bounded_profile("local", 1, 65_536)],
        vec![(ModelId::from("local"), CandidateState::ready())],
    )
    .unwrap();
    assert!(
        router
            .decide(&ctx_req(Some(15_537), &[("local", 50_000)]))
            .is_err()
    );
}

#[test]
fn bounded_input_fits_but_output_overflows_excluded() {
    let router = FleetRouter::new(
        vec![bounded_profile("local", 1, 65_536)],
        vec![(ModelId::from("local"), CandidateState::ready())],
    )
    .unwrap();
    assert!(
        router
            .decide(&ctx_req(Some(2_000), &[("local", 65_000)]))
            .is_err()
    );
}

#[test]
fn bounded_missing_candidate_count_excluded() {
    let router = FleetRouter::new(
        vec![bounded_profile("local", 1, 65_536)],
        vec![(ModelId::from("local"), CandidateState::ready())],
    )
    .unwrap();
    assert!(router.decide(&ctx_req(Some(8_000), &[])).is_err());
}

#[test]
fn bounded_missing_output_budget_excluded() {
    let router = FleetRouter::new(
        vec![bounded_profile("local", 1, 65_536)],
        vec![(ModelId::from("local"), CandidateState::ready())],
    )
    .unwrap();
    assert!(router.decide(&ctx_req(None, &[("local", 8_000)])).is_err());
}

#[test]
fn bounded_arithmetic_overflow_excluded() {
    let router = FleetRouter::new(
        vec![bounded_profile("local", 1, u64::MAX)],
        vec![(ModelId::from("local"), CandidateState::ready())],
    )
    .unwrap();
    assert!(
        router
            .decide(&ctx_req(Some(u64::MAX), &[("local", u64::MAX)]))
            .is_err()
    );
}

#[test]
fn candidate_specific_counts_never_borrowed() {
    let router = FleetRouter::new(
        vec![
            bounded_profile("htpc", 1, 65_536),
            bounded_profile("comfy", 2, 69_888),
        ],
        vec![
            (ModelId::from("htpc"), CandidateState::ready()),
            (ModelId::from("comfy"), CandidateState::ready()),
        ],
    )
    .unwrap();
    let (selected, fallbacks) = router
        .decide(&ctx_req(Some(4_096), &[("htpc", 30_000)]))
        .unwrap();
    assert_eq!(selected.to_string(), "htpc");
    assert!(fallbacks.is_empty());
}

#[test]
fn context_fit_filters_before_preference() {
    let router = FleetRouter::new(
        vec![
            bounded_profile("pref", 1, 65_536),
            bounded_profile("fit", 2, 200_000),
        ],
        vec![
            (ModelId::from("pref"), CandidateState::ready()),
            (ModelId::from("fit"), CandidateState::ready()),
        ],
    )
    .unwrap();
    let (selected, _) = router
        .decide(&ctx_req(Some(1_000), &[("fit", 50_000)]))
        .unwrap();
    assert_eq!(selected.to_string(), "fit");
}

#[test]
fn fallback_purity_selected_and_fallbacks_admitted() {
    let router = FleetRouter::new(
        vec![
            bounded_profile("a", 1, 65_536),
            bounded_profile("b", 2, 65_536),
            bounded_profile("c", 3, 65_536),
        ],
        vec![
            (ModelId::from("a"), CandidateState::ready()),
            (ModelId::from("b"), CandidateState::ready()),
            (ModelId::from("c"), CandidateState::ready()),
        ],
    )
    .unwrap();
    let (selected, fallbacks) = router
        .decide(&ctx_req(Some(1_000), &[("a", 1_000), ("c", 1_000)]))
        .unwrap();
    let fbs = fallbacks
        .iter()
        .map(ToString::to_string)
        .collect::<Vec<_>>();
    assert_eq!(selected.to_string(), "a");
    assert!(
        !fbs.contains(&"b".to_string()),
        "b must not leak into fallbacks"
    );
    assert_eq!(fbs, ["c"]);
}

#[test]
fn context_fit_does_not_override_readiness() {
    let router = FleetRouter::new(
        vec![bounded_profile("local", 1, 65_536)],
        vec![(ModelId::from("local"), CandidateState::not_ready())],
    )
    .unwrap();
    assert!(
        router
            .decide(&ctx_req(Some(1_000), &[("local", 1_000)]))
            .is_err()
    );
}

#[test]
fn context_fit_does_not_override_capability() {
    let router = FleetRouter::new(
        vec![
            CandidateProfile::new("local", false, false, 1).with_context_policy(
                ContextAdmissionPolicy::Bounded {
                    usable_context_tokens: 65_536,
                },
            ),
        ],
        vec![(ModelId::from("local"), CandidateState::ready())],
    )
    .unwrap();
    let mut req = tool_req();
    req.max_output_tokens = Some(1_000);
    req.candidate_input_tokens = vec![(ModelId::from("local"), 1_000)];
    assert!(router.decide(&req).is_err());
}

#[test]
fn context_decision_is_deterministic() {
    let router = FleetRouter::new(
        vec![
            bounded_profile("a", 1, 65_536),
            bounded_profile("b", 2, 65_536),
        ],
        vec![
            (ModelId::from("a"), CandidateState::ready()),
            (ModelId::from("b"), CandidateState::ready()),
        ],
    )
    .unwrap();
    let req = ctx_req(Some(1_000), &[("a", 1_000), ("b", 1_000)]);
    let d1 = router.decide(&req).unwrap();
    let d2 = router.decide(&req).unwrap();
    assert_eq!(d1.0, d2.0);
    assert_eq!(d1.1, d2.1);
}

#[test]
fn zero_bounded_capacity_rejected_at_new() {
    let profile = CandidateProfile::new("local", true, true, 1).with_context_policy(
        ContextAdmissionPolicy::Bounded {
            usable_context_tokens: 0,
        },
    );
    let err = FleetRouter::new(
        vec![profile],
        vec![(ModelId::from("local"), CandidateState::ready())],
    )
    .unwrap_err();
    assert!(
        err.message()
            .contains("invalid zero usable_context_tokens"),
        "error must name the invalid zero capacity: {err:?}"
    );
}

#[test]
fn zero_bounded_capacity_rejected_at_with_source() {
    let profile = CandidateProfile::new("local", true, true, 1).with_context_policy(
        ContextAdmissionPolicy::Bounded {
            usable_context_tokens: 0,
        },
    );
    let source = SharedFleetState::new(
        FleetSnapshot::new(vec![(ModelId::from("local"), CandidateState::ready())]).unwrap(),
    );
    let err = FleetRouter::with_source(vec![profile], Arc::new(source)).unwrap_err();
    assert!(
        err.message()
            .contains("invalid zero usable_context_tokens"),
        "error must name the invalid zero capacity: {err:?}"
    );
}

#[test]
fn unmanaged_policy_is_valid_and_zero_bounded_is_not() {
    let unmanaged = CandidateProfile::new("local", true, true, 1);
    FleetRouter::with_source(
        vec![unmanaged],
        Arc::new(SharedFleetState::new(FleetSnapshot::new(vec![]).unwrap())),
    )
    .unwrap();
}

fn work_shape_router() -> FleetRouter<SharedFleetState> {
    let profiles = vec![
        CandidateProfile::new("luna", true, false, 1).with_work_shape(WorkShape::Bounded),
        CandidateProfile::new("deepseek", true, false, 2),
    ];
    let state = SharedFleetState::new(
        FleetSnapshot::new(vec![
            (ModelId::from("luna"), CandidateState::ready()),
            (ModelId::from("deepseek"), CandidateState::ready()),
        ])
        .unwrap(),
    );
    FleetRouter::with_source(profiles, Arc::new(state))
        .unwrap()
        .with_request_work_shape()
}

#[test]
fn request_work_shape_bounded_prefers_luna() {
    let router = work_shape_router();
    let (selected, _fb) = router.decide(&work_shape_req("bounded")).unwrap();
    assert_eq!(selected.to_string(), "luna");
}

#[test]
fn request_work_shape_agentic_excludes_luna_never_selects_it() {
    let router = work_shape_router();
    let (selected, fb) = router.decide(&work_shape_req("agentic")).unwrap();
    assert_eq!(selected.to_string(), "deepseek");
    let all: Vec<String> = std::iter::once(selected.to_string())
        .chain(fb.iter().map(ToString::to_string))
        .collect();
    assert!(
        !all.contains(&"luna".to_string()),
        "agentic/non-thinking must NEVER select or fall back to the bounded-only luna: {all:?}"
    );
}

#[test]
fn request_work_shape_missing_metadata_is_not_prompt_guessed() {
    let router = work_shape_router();
    let (selected, _fb) = router.decide(&text_req()).unwrap();
    assert_eq!(selected.to_string(), "luna");
}

#[test]
fn legacy_work_class_bounded_prefers_luna() {
    let router = work_shape_router();
    let (selected, _fb) = router.decide(&work_class_req("bounded")).unwrap();
    assert_eq!(selected.to_string(), "luna");
}

#[test]
fn legacy_work_class_agentic_never_selects_luna() {
    let router = work_shape_router();
    let (selected, fb) = router.decide(&work_class_req("agentic")).unwrap();
    assert_eq!(selected.to_string(), "deepseek");
    let all: Vec<String> = std::iter::once(selected.to_string())
        .chain(fb.iter().map(ToString::to_string))
        .collect();
    assert!(
        !all.contains(&"luna".to_string()),
        "legacy work_class=agentic must NEVER select or fall back to the bounded-only luna: {all:?}"
    );
}

#[test]
fn legacy_work_class_reasoning_requires_thinking_never_luna() {
    let profiles = vec![
        CandidateProfile::new("luna", true, false, 1).with_work_shape(WorkShape::Bounded),
        CandidateProfile::new("deepseek", true, true, 2),
    ];
    let state = SharedFleetState::new(
        FleetSnapshot::new(vec![
            (ModelId::from("luna"), CandidateState::ready()),
            (ModelId::from("deepseek"), CandidateState::ready()),
        ])
        .unwrap(),
    );
    let router = FleetRouter::with_source(profiles, Arc::new(state))
        .unwrap()
        .with_request_work_shape();
    let (selected, fb) = router.decide(&work_class_req("reasoning")).unwrap();
    assert_eq!(selected.to_string(), "deepseek");
    let all: Vec<String> = std::iter::once(selected.to_string())
        .chain(fb.iter().map(ToString::to_string))
        .collect();
    assert!(
        !all.contains(&"luna".to_string()),
        "legacy work_class=reasoning must select the thinking candidate, never luna: {all:?}"
    );
}

fn capacity_profile(target: &str, rank: u16, cap: u64) -> CandidateProfile {
    CandidateProfile::new(target, true, true, rank).with_usable_context_tokens(cap)
}

#[test]
fn min_context_absent_preserves_behavior() {
    let router = FleetRouter::new(
        vec![CandidateProfile::new("cloud", true, true, 1)],
        vec![(ModelId::from("cloud"), CandidateState::ready())],
    )
    .unwrap();
    let (selected, _) = router.decide(&text_req()).unwrap();
    assert_eq!(selected.to_string(), "cloud");
}

#[test]
fn min_context_below_capacity_eligible() {
    let router = FleetRouter::new(
        vec![capacity_profile("cloud", 1, 200_000)],
        vec![(ModelId::from("cloud"), CandidateState::ready())],
    )
    .unwrap();
    let (selected, _) = router.decide(&min_ctx_req(Some(50_000))).unwrap();
    assert_eq!(selected.to_string(), "cloud");
}

#[test]
fn min_context_exact_boundary_eligible() {
    let router = FleetRouter::new(
        vec![capacity_profile("cloud", 1, 200_000)],
        vec![(ModelId::from("cloud"), CandidateState::ready())],
    )
    .unwrap();
    let (selected, _) = router.decide(&min_ctx_req(Some(200_000))).unwrap();
    assert_eq!(selected.to_string(), "cloud");
}

#[test]
fn min_context_above_capacity_excluded() {
    let router = FleetRouter::new(
        vec![capacity_profile("cloud", 1, 200_000)],
        vec![(ModelId::from("cloud"), CandidateState::ready())],
    )
    .unwrap();
    assert!(router.decide(&min_ctx_req(Some(200_001))).is_err());
}

#[test]
fn min_context_unknown_capacity_declared_excluded() {
    let router = FleetRouter::new(
        vec![CandidateProfile::new("cloud", true, true, 1)],
        vec![(ModelId::from("cloud"), CandidateState::ready())],
    )
    .unwrap();
    assert!(router.decide(&min_ctx_req(Some(1_000))).is_err());
}

#[test]
fn min_context_unknown_capacity_no_requirement_preserved() {
    let router = FleetRouter::new(
        vec![CandidateProfile::new("cloud", true, true, 1)],
        vec![(ModelId::from("cloud"), CandidateState::ready())],
    )
    .unwrap();
    let (selected, _) = router.decide(&text_req()).unwrap();
    assert_eq!(selected.to_string(), "cloud");
}

#[test]
fn min_context_malformed_hard_failure() {
    let router = FleetRouter::new(
        vec![capacity_profile("cloud", 1, 200_000)],
        vec![(ModelId::from("cloud"), CandidateState::ready())],
    )
    .unwrap();
    let err = router.decide(&bad_min_ctx_req()).unwrap_err();
    assert!(
        err.message().contains("min_context_tokens"),
        "expected min_context_tokens error, got {err:?}"
    );
}

#[test]
fn min_context_zero_hard_failure() {
    let router = FleetRouter::new(
        vec![capacity_profile("cloud", 1, 200_000)],
        vec![(ModelId::from("cloud"), CandidateState::ready())],
    )
    .unwrap();
    let err = router.decide(&zero_min_ctx_req()).unwrap_err();
    assert!(
        err.message().contains("positive"),
        "expected positive-integer error, got {err:?}"
    );
}

#[test]
fn min_context_larger_capacity_does_not_rank() {
    let profiles = vec![
        capacity_profile("small", 1, 100_000),
        capacity_profile("large", 2, 500_000),
    ];
    let state = SharedFleetState::new(
        FleetSnapshot::new(vec![
            (ModelId::from("small"), CandidateState::ready()),
            (ModelId::from("large"), CandidateState::ready()),
        ])
        .unwrap(),
    );
    let router = FleetRouter::with_source(profiles, Arc::new(state)).unwrap();
    let (selected, _) = router.decide(&min_ctx_req(Some(50_000))).unwrap();
    assert_eq!(selected.to_string(), "small");
    let (selected, _) = router.decide(&min_ctx_req(Some(400_000))).unwrap();
    assert_eq!(selected.to_string(), "large");
}

#[test]
fn min_context_combined_bounded_exact_fit() {
    let profiles = vec![bounded_profile("local", 1, 65_536).with_usable_context_tokens(65_536)];
    let router = FleetRouter::new(
        profiles.clone(),
        vec![(ModelId::from("local"), CandidateState::ready())],
    )
    .unwrap();
    let mut req = min_ctx_req(Some(60_000));
    req.max_output_tokens = Some(8_000);
    req.candidate_input_tokens = vec![(ModelId::from("local"), 60_000)];
    assert!(router.decide(&req).is_err());
    let mut req = min_ctx_req(Some(100_000));
    req.max_output_tokens = Some(8_000);
    req.candidate_input_tokens = vec![(ModelId::from("local"), 10_000)];
    assert!(router.decide(&req).is_err());
    let mut req = min_ctx_req(Some(60_000));
    req.max_output_tokens = Some(5_000);
    req.candidate_input_tokens = vec![(ModelId::from("local"), 60_000)];
    let (selected, _) = router.decide(&req).unwrap();
    assert_eq!(selected.to_string(), "local");
}

#[test]
fn min_context_zero_capacity_config_rejected() {
    let err = FleetRouter::new(
        vec![CandidateProfile::new("cloud", true, true, 1).with_usable_context_tokens(0)],
        vec![(ModelId::from("cloud"), CandidateState::ready())],
    )
    .unwrap_err();
    assert!(
        err.message().contains("zero"),
        "expected zero-capacity config error, got {err:?}"
    );
}

#[test]
fn bounded_without_static_uses_policy_capacity_for_min() {
    let router = FleetRouter::new(
        vec![bounded_profile("local", 1, 65_536)],
        vec![(ModelId::from("local"), CandidateState::ready())],
    )
    .unwrap();
    let mut req = min_ctx_req(Some(65_536));
    req.max_output_tokens = Some(8_000);
    req.candidate_input_tokens = vec![(ModelId::from("local"), 50_000)];
    let (selected, _) = router.decide(&req).unwrap();
    assert_eq!(selected.to_string(), "local");
    let mut req = min_ctx_req(Some(65_537));
    req.max_output_tokens = Some(8_000);
    req.candidate_input_tokens = vec![(ModelId::from("local"), 50_000)];
    assert!(router.decide(&req).is_err());
}

#[test]
fn bounded_with_matching_static_accepted() {
    let router = FleetRouter::new(
        vec![bounded_profile("local", 1, 65_536).with_usable_context_tokens(65_536)],
        vec![(ModelId::from("local"), CandidateState::ready())],
    )
    .unwrap();
    let mut req = min_ctx_req(Some(65_536));
    req.max_output_tokens = Some(8_000);
    req.candidate_input_tokens = vec![(ModelId::from("local"), 50_000)];
    let (selected, _) = router.decide(&req).unwrap();
    assert_eq!(selected.to_string(), "local");
}

#[test]
fn bounded_with_mismatched_static_rejected() {
    let err = FleetRouter::new(
        vec![bounded_profile("local", 1, 65_536).with_usable_context_tokens(69_888)],
        vec![(ModelId::from("local"), CandidateState::ready())],
    )
    .unwrap_err();
    assert!(
        err.message().contains("disagrees"),
        "expected capacity-coherence error, got {err:?}"
    );
}

#[test]
fn bounded_combined_min_and_exact_fit_unchanged() {
    let profiles = vec![bounded_profile("local", 1, 65_536).with_usable_context_tokens(65_536)];
    let router = FleetRouter::new(
        profiles,
        vec![(ModelId::from("local"), CandidateState::ready())],
    )
    .unwrap();
    let mut req = min_ctx_req(Some(60_000));
    req.max_output_tokens = Some(8_000);
    req.candidate_input_tokens = vec![(ModelId::from("local"), 60_000)];
    assert!(router.decide(&req).is_err());
    let mut req = min_ctx_req(Some(100_000));
    req.max_output_tokens = Some(8_000);
    req.candidate_input_tokens = vec![(ModelId::from("local"), 10_000)];
    assert!(router.decide(&req).is_err());
    let mut req = min_ctx_req(Some(60_000));
    req.max_output_tokens = Some(5_000);
    req.candidate_input_tokens = vec![(ModelId::from("local"), 60_000)];
    let (selected, _) = router.decide(&req).unwrap();
    assert_eq!(selected.to_string(), "local");
}

#[test]
fn error_texts_are_exact() {
    let err = router_error(vec![], vec![]);
    assert_eq!(err, "fleet router requires at least one candidate profile");
    let err = router_error(
        vec![bounded_profile("a\"b", 1, 10).with_usable_context_tokens(7)],
        vec![],
    );
    assert_eq!(
        err,
        "fleet router candidate \"a\\\"b\" has a static usable_context_tokens (7) that disagrees \
         with its Bounded context-policy capacity (10); they must be equal"
    );
    let twice = vec![
        CandidateProfile::new("x", true, true, 1),
        CandidateProfile::new("y", true, true, 2),
        CandidateProfile::new("x", true, true, 3),
    ];
    assert_eq!(
        router_error(twice, vec![]),
        "fleet router profiles must not repeat target \"x\""
    );
    let one = || vec![CandidateProfile::new("x", true, true, 1)];
    assert_eq!(
        router_error(one(), vec![("z".to_string(), CandidateState::ready())]),
        "fleet router state key \"z\" has no matching candidate profile"
    );
    assert_eq!(
        router_error(
            one(),
            vec![
                ("x".to_string(), CandidateState::ready()),
                ("x".to_string(), CandidateState::ready()),
            ]
        ),
        "fleet snapshot key \"x\" appears more than once"
    );
}

fn router_error(
    profiles: Vec<CandidateProfile>,
    states: Vec<(ModelId, CandidateState)>,
) -> String {
    FleetRouter::new(profiles, states)
        .unwrap_err()
        .message()
        .to_string()
}

#[test]
fn malformed_minimum_context_is_shown_as_json() {
    let router = FleetRouter::new(profiles(), all_ready()).unwrap();
    let shown = |value: Json| {
        router
            .decide(&extension_req("min_context_tokens", value))
            .unwrap_err()
            .message()
            .to_string()
    };
    assert_eq!(
        shown(Json::Text("lots".to_string())),
        "declared min_context_tokens must be a positive integer, got \"lots\""
    );
    assert_eq!(
        shown(Json::Number(JsonNumber::Negative(-5))),
        "declared min_context_tokens must be a positive integer, got -5"
    );
    assert_eq!(
        shown(Json::Number(JsonNumber::Real("1.5".to_string()))),
        "declared min_context_tokens must be a positive integer, got 1.5"
    );
    assert_eq!(
        shown(Json::Array(vec![
            Json::Null,
            Json::Bool(true),
            Json::Object(vec![(
                "k".to_string(),
                Json::Number(JsonNumber::Unsigned(3))
            )])
        ])),
        "declared min_context_tokens must be a positive integer, got [null,true,{\"k\":3}]"
    );
}

#[test]
fn equal_ranks_are_ordered_by_target() {
    let router = FleetRouter::new(
        vec![
            CandidateProfile::new("b", true, true, 1),
            CandidateProfile::new("ab", true, true, 1),
            CandidateProfile::new("a", true, true, 1),
            CandidateProfile::new("z", true, true, 0),
        ],
        ["a", "b", "ab", "z"]
            .iter()
            .map(|t| (t.to_string(), CandidateState::ready()))
            .collect(),
    )
    .unwrap();
    let (selected, fallbacks) = router.decide(&text_req()).unwrap();
    assert_eq!(selected, "z");
    assert_eq!(fallbacks, ["a", "ab", "b"]);
}

#[test]
fn work_shape_is_read_in_any_case_and_only_on_request() {
    let router = work_shape_router();
    assert_eq!(
        router.declared_work_shape(&work_shape_req("AGENTIC")),
        Some(WorkShape::Agentic)
    );
    assert_eq!(router.declared_work_shape(&work_shape_req(" agentic")), None);
    assert!(router.declared_legacy_reasoning(&work_class_req("Reasoning")));
    let plain = FleetRouter::new(profiles(), all_ready()).unwrap();
    assert_eq!(plain.work_shape_source, WorkShapeSource::default());
    assert_eq!(plain.declared_work_shape(&work_shape_req("agentic")), None);
    assert!(!plain.declared_legacy_reasoning(&work_class_req("reasoning")));
}

#[test]
fn readiness_sources_report_their_snapshot() {
    let one = || snapshot(&[("a", true, false)]);
    let fixed = StaticFleetState::new(one());
    assert_eq!(*fixed.snapshot(), one());
    let shared = SharedFleetState::new(one());
    assert_eq!(*shared.snapshot(), one());
    shared.set(snapshot(&[("b", false, true)]));
    assert_eq!(*shared.snapshot(), snapshot(&[("b", false, true)]));
    assert_eq!(
        shared.snapshot().state_for(&"b".to_string()),
        CandidateState::transition_required()
    );
    assert_eq!(
        shared.snapshot().state_for(&"a".to_string()),
        CandidateState::default()
    );
}

#[test]
fn a_decision_on_one_snapshot_repeats() {
    let router = FleetRouter::with_source(
        profiles(),
        Arc::new(SharedFleetState::new(snapshot(&[]))),
    )
    .unwrap();
    let ready = snapshot(&[("luna", true, false), ("htpc-qwen3_5", true, false)]);
    let first = router.decide_on(&ready, &text_req()).unwrap();
    assert_eq!(first.0, "luna");
    assert_eq!(first.1, ["htpc-qwen3_5"]);
    assert_eq!(router.decide_on(&ready, &text_req()).unwrap(), first);
    assert!(router.decide(&text_req()).is_err());
    assert_eq!(router.name(), "fleet_router");
}
