//! Route table, readiness configuration and capability routes.
use std::sync::Arc;

use switchyard::backend::WireFormat;
use switchyard::capability::{
    CapabilityClientConfig, CapabilityClientFormat, CapabilityKind, CapabilityRouteConfig,
    RawCapabilityRoute, DEFAULT_CAPABILITY_TIMEOUT_SECONDS,
};
use switchyard::facts_config::{
    ComfyFactConfig, FleetReadinessConfig, HtpcFactConfig, ResourceFactConfig,
    DEFAULT_OBSERVE_INTERVAL_SECONDS,
};
use switchyard::fleet_router::{FleetRouter, FleetSnapshot, SharedFleetState};
use switchyard::json::Json;
use switchyard::runner::{DecisionTarget, ModelCapabilities, Route, Runner};

fn readiness(ready: &[&str]) -> FleetReadinessConfig {
    FleetReadinessConfig {
        observe_interval_seconds: DEFAULT_OBSERVE_INTERVAL_SECONDS,
        comfy: None,
        htpc: None,
        resource: None,
        ready: ready.iter().map(|m| m.to_string()).collect(),
        transition_required: vec![],
    }
}

fn resource() -> ResourceFactConfig {
    ResourceFactConfig {
        openai_url: None,
        openai_auth_token_env: None,
        openclaw_openai_url: None,
        openclaw_openai_auth_token_env: None,
        deepseek_url: None,
        deepseek_api_key_env: None,
        deepseek_currency: None,
        openai_gated: vec![],
        openclaw_openai_gated: vec![],
        deepseek_gated: vec![],
    }
}

fn some(text: &str) -> Option<String> {
    Some(text.to_string())
}

fn error_of(config: &FleetReadinessConfig) -> String {
    config.validate().unwrap_err().message().to_string()
}

#[test]
fn readiness_gated_list_requires_its_source() {
    let mut config = readiness(&["vendor/primary-served"]);
    config.resource = Some(ResourceFactConfig {
        openai_gated: vec!["gpt-5.6-luna".to_string()],
        ..resource()
    });
    assert!(error_of(&config)
        .contains("openai_gated candidates require openai_url and openai_auth_token_env"));
    config.resource = Some(ResourceFactConfig {
        openai_gated: vec!["gpt-5.6-luna".to_string()],
        openai_url: some("http://x"),
        openai_auth_token_env: some("TOKEN"),
        ..resource()
    });
    assert!(config.validate().is_ok());
}

#[test]
fn every_gated_list_names_what_it_lacks() {
    let mut config = readiness(&[]);
    config.resource = Some(ResourceFactConfig {
        openclaw_openai_gated: vec!["a".to_string()],
        openclaw_openai_url: some("http://x"),
        ..resource()
    });
    assert_eq!(
        error_of(&config),
        "openclaw_openai_gated candidates require openclaw_openai_url and \
         openclaw_openai_auth_token_env"
    );
    config.resource = Some(ResourceFactConfig {
        deepseek_gated: vec!["a".to_string()],
        deepseek_url: some("http://x"),
        deepseek_api_key_env: some("KEY"),
        ..resource()
    });
    assert_eq!(
        error_of(&config),
        "deepseek_gated candidates require deepseek_url, deepseek_api_key_env and deepseek_currency"
    );
    config.resource = Some(ResourceFactConfig {
        openclaw_openai_auth_token_env: some("TOKEN"),
        ..resource()
    });
    assert_eq!(
        error_of(&config),
        "openclaw_openai_url and openclaw_openai_auth_token_env must be set together"
    );
    config.resource = Some(resource());
    assert!(config.validate().is_ok());
}

#[test]
fn a_model_belongs_to_one_readiness_source() {
    let mut config = readiness(&["a", "b"]);
    assert!(config.validate().is_ok());
    config.transition_required = vec!["c".to_string(), "b".to_string()];
    assert_eq!(
        error_of(&config),
        "[fleet_readiness] model \"b\" appears in both ready and transition_required"
    );
    config.transition_required = vec![];
    config.comfy = Some(ComfyFactConfig {
        url: "http://x".to_string(),
        auth_token_env: "TOKEN".to_string(),
        model: "c".to_string(),
    });
    config.htpc = Some(HtpcFactConfig {
        base_url: "http://y".to_string(),
        expected_model: "m".to_string(),
        model: "c".to_string(),
    });
    assert_eq!(
        error_of(&config),
        "[fleet_readiness] model \"c\" appears in both comfy and htpc"
    );
    config.htpc = None;
    config.resource = Some(ResourceFactConfig {
        deepseek_gated: vec!["d".to_string()],
        openai_gated: vec!["d".to_string()],
        ..resource()
    });
    assert_eq!(
        error_of(&config),
        "[fleet_readiness] model \"d\" appears in both resource-gated and resource-gated"
    );
    assert_eq!(
        error_of(&readiness(&["x", "x"])),
        "[fleet_readiness] model \"x\" appears in both ready and ready"
    );
}

#[test]
fn empty_candidate_fleet_is_rejected() {
    let error = FleetRouter::new(vec![], vec![]).unwrap_err();
    assert!(error
        .message()
        .contains("requires at least one candidate profile"));
}

fn raw() -> RawCapabilityRoute {
    RawCapabilityRoute {
        id: "route/id".to_string(),
        target: "executor".to_string(),
        contract: None,
        dimensions: None,
        normalization: None,
        max_batch: None,
        max_candidates: None,
        top_n: None,
        max_doc_chars: None,
        max_query_chars: None,
    }
}

#[test]
fn capability_routes_are_told_apart_by_their_fields() {
    let rerank = CapabilityRouteConfig::from_raw(RawCapabilityRoute {
        top_n: Some(9),
        ..raw()
    })
    .unwrap();
    assert_eq!(rerank.id, "route/id");
    assert_eq!(rerank.target, "executor");
    assert_eq!(
        rerank.kind,
        CapabilityKind::Rerank {
            max_candidates: 32,
            top_n: 9,
            max_doc_chars: 4096,
            max_query_chars: 2048,
        }
    );
    let embedding = CapabilityRouteConfig::from_raw(RawCapabilityRoute {
        contract: some("space:v1"),
        dimensions: Some(1024),
        ..raw()
    })
    .unwrap();
    assert_eq!(
        embedding.kind,
        CapabilityKind::Embedding {
            contract: "space:v1".to_string(),
            dimensions: 1024,
            normalization: "L2".to_string(),
            max_batch: 64,
        }
    );
    assert_eq!(
        CapabilityRouteConfig::from_raw(RawCapabilityRoute {
            contract: some("space:v1"),
            ..raw()
        })
        .unwrap_err(),
        "embedding capability requires `dimensions`"
    );
    assert_eq!(
        CapabilityRouteConfig::from_raw(RawCapabilityRoute {
            dimensions: Some(3),
            ..raw()
        })
        .unwrap_err(),
        "embedding capability requires `contract`"
    );
}

#[test]
fn capability_formats_have_their_spellings() {
    assert_eq!(
        CapabilityClientFormat::from_config("openai_embeddings"),
        Some(CapabilityClientFormat::OpenAiEmbeddings)
    );
    assert_eq!(
        CapabilityClientFormat::from_config("cohere_jina_rerank"),
        Some(CapabilityClientFormat::CohereJinaRerank)
    );
    assert_eq!(CapabilityClientFormat::from_config("rerank"), None);
}

fn target(name: &str) -> DecisionTarget {
    DecisionTarget {
        target: name.to_string(),
        model: format!("vendor/{name}"),
        format: WireFormat::OpenAiChat,
        base_url: "http://x/v1".to_string(),
        extra_body: vec![("k".to_string(), Json::Array(vec![Json::Null]))],
    }
}

fn route(algorithm: &str, targets: &[&str]) -> Route {
    Route {
        algorithm: algorithm.to_string(),
        capabilities: ModelCapabilities {
            context_window: Some(266_000),
            tool_calling: Some(true),
            reasoning: None,
            supports_vision: Some(false),
        },
        targets: targets
            .iter()
            .map(|t| (format!("vendor/{t}"), target(t)))
            .collect(),
    }
}

fn runner() -> Runner {
    Runner::new(vec![
        ("fleet/smart".to_string(), route("fleet_router", &["a", "b"])),
        ("plain".to_string(), route("passthrough", &["a"])),
        ("plain".to_string(), route("shadowed", &[])),
    ])
}

#[test]
fn routes_are_found_by_name_and_listed_in_order() {
    let runner = runner();
    assert_eq!(runner.route("plain").unwrap().algorithm, "passthrough");
    assert!(runner.route("missing").is_none());
    let listed: Vec<_> = runner
        .models()
        .iter()
        .map(|m| (m.id.clone(), m.algorithm.to_string()))
        .collect();
    assert_eq!(listed[0], ("fleet/smart".to_string(), "fleet_router".to_string()));
    assert_eq!(listed.len(), 3);
    assert_eq!(runner.models()[0].capabilities.context_window, Some(266_000));
}

#[test]
fn decisions_resolve_to_targets_or_not_at_all() {
    let runner = runner();
    let ids = |names: &[&str]| names.iter().map(|n| n.to_string()).collect::<Vec<_>>();
    let fleet = "fleet/smart".to_string();
    let description = runner
        .describe_decision(&fleet, &ids(&["vendor/b", "vendor/a"]))
        .unwrap();
    assert_eq!(description.selected, target("b"));
    assert_eq!(description.fallbacks, vec![target("a")]);
    assert!(runner.describe_decision(&fleet, &ids(&[])).is_none());
    assert!(runner
        .describe_decision(&fleet, &ids(&["vendor/a", "vendor/z"]))
        .is_none());
    assert!(runner
        .describe_decision(&"missing".to_string(), &ids(&["vendor/a"]))
        .is_none());
}

#[test]
fn a_runner_carries_what_it_is_given() {
    let state = Arc::new(SharedFleetState::new(FleetSnapshot::new(vec![]).unwrap()));
    let runner = runner()
        .with_fleet_state(Some(Arc::clone(&state)))
        .with_fleet_readiness(Some(readiness(&["a"])))
        .with_fallback_url(some("http://fallback"))
        .with_capabilities(
            vec![(
                "e".to_string(),
                CapabilityClientConfig {
                    format: CapabilityClientFormat::OpenAiEmbeddings,
                    base_url: "http://e".to_string(),
                    model: "m".to_string(),
                    api_key_env: None,
                    extra_headers: vec![],
                    timeout_seconds: DEFAULT_CAPABILITY_TIMEOUT_SECONDS,
                },
            )],
            vec![(
                "r".to_string(),
                CapabilityRouteConfig::from_raw(raw()).unwrap(),
            )],
        );
    assert!(Arc::ptr_eq(runner.fleet_state().unwrap(), &state));
    assert_eq!(runner.fleet_readiness().unwrap().ready, ["a"]);
    assert_eq!(runner.fallback_base_url(), Some("http://fallback"));
    assert_eq!(runner.capability_clients()[0].1.timeout_seconds, 30);
    assert_eq!(runner.capabilities()[0].0, "r");
    let bare = Runner::new(vec![]);
    assert!(bare.fleet_state().is_none() && bare.fallback_base_url().is_none());
}
