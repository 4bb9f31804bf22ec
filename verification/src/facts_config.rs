//! Fleet-readiness monitor configuration.
//!
//! Every section is optional; without any, no monitor is built and fleet routes
//! fail closed.
use vstd::prelude::*;
use vstd::string::StringExecFns;
use crate::fleet_router::{distinct_targets, Entries};
use crate::text;

verus! {

/// An error of the runner.
#[derive(Debug, PartialEq, Eq)]
pub enum RunnerError {
    /// The deployment's configuration is invalid.
    Configuration { message: String },
}

impl View for RunnerError {
    type V = Seq<char>;

    open spec fn view(&self) -> Seq<char> {
        match self {
            RunnerError::Configuration { message } => message@,
        }
    }
}

impl RunnerError {
    /// A configuration error.
    pub fn configuration(message: String) -> (r: Self)
        ensures
            r == (RunnerError::Configuration { message }),
    {
        RunnerError::Configuration { message }
    }

    /// The text of the error.
    pub fn message(&self) -> (r: &str)
        ensures
            r@ == self@,
    {
        match self {
            RunnerError::Configuration { message } => message.as_str(),
        }
    }
}

/// Seconds between observation cycles, where none are configured.
pub const DEFAULT_OBSERVE_INTERVAL_SECONDS: u64 = 30;

/// Declares the components of the fleet-readiness monitor.
#[derive(Debug, PartialEq, Eq)]
pub struct FleetReadinessConfig {
    /// Seconds between observation cycles.
    pub observe_interval_seconds: u64,
    /// GPU-host readiness probe.
    pub comfy: Option<ComfyFactConfig>,
    /// HTPC readiness probe.
    pub htpc: Option<HtpcFactConfig>,
    /// Live resource-state facts.
    pub resource: Option<ResourceFactConfig>,
    /// Candidates that need no live probe.
    pub ready: Vec<String>,
    /// Candidates that are valid but not yet loaded.
    pub transition_required: Vec<String>,
}

/// GPU-host readiness probe.
#[derive(Debug, PartialEq, Eq)]
pub struct ComfyFactConfig {
    /// Read-only resource endpoint URL.
    pub url: String,
    /// Environment variable holding the bearer token.
    pub auth_token_env: String,
    /// The candidate target model id that this fact gates.
    pub model: String,
}

/// HTPC readiness probe.
#[derive(Debug, PartialEq, Eq)]
pub struct HtpcFactConfig {
    pub base_url: String,
    /// Model basename that must be served for readiness.
    pub expected_model: String,
    /// The candidate target model id that this fact gates.
    pub model: String,
}

/// Live resource-state facts that gate cloud candidates.
#[derive(Debug, PartialEq, Eq)]
pub struct ResourceFactConfig {
    pub openai_url: Option<String>,
    pub openai_auth_token_env: Option<String>,
    pub openclaw_openai_url: Option<String>,
    pub openclaw_openai_auth_token_env: Option<String>,
    pub deepseek_url: Option<String>,
    pub deepseek_api_key_env: Option<String>,
    pub deepseek_currency: Option<String>,
    /// Target model ids gated by the primary OpenAI weekly allowance.
    pub openai_gated: Vec<String>,
    /// Target model ids gated by the separate OpenClaw-owned OpenAI allowance.
    pub openclaw_openai_gated: Vec<String>,
    /// Target model ids gated by the DeepSeek balance.
    pub deepseek_gated: Vec<String>,
}

/// A model and the source that declares it.
pub type Declaration = (Seq<char>, Seq<char>);

/// The models of a list, declared by one source.
pub open spec fn declared_by(models: Seq<String>, source: Seq<char>) -> Seq<Declaration> {
    Seq::new(models.len(), |i: int| (models[i]@, source))
}

/// The models that the resource facts gate.
pub open spec fn gated_models(resource: Option<ResourceFactConfig>) -> Seq<Declaration> {
    match resource {
        Some(r) => declared_by(r.openai_gated@, "resource-gated"@) + declared_by(
            r.openclaw_openai_gated@,
            "resource-gated"@,
        ) + declared_by(r.deepseek_gated@, "resource-gated"@),
        None => Seq::empty(),
    }
}

/// Every model that a configuration declares, with its source, in order.
pub open spec fn declarations(config: FleetReadinessConfig) -> Seq<Declaration> {
    let comfy = match config.comfy {
        Some(c) => seq![(c.model@, "comfy"@)],
        None => Seq::empty(),
    };
    let htpc = match config.htpc {
        Some(h) => seq![(h.model@, "htpc"@)],
        None => Seq::empty(),
    };
    declared_by(config.ready@, "ready"@) + declared_by(
        config.transition_required@,
        "transition_required"@,
    ) + comfy + htpc + gated_models(config.resource)
}

/// No model is declared twice.
pub open spec fn disjoint(all: Seq<Declaration>) -> bool {
    forall|i: int, j: int| 0 <= i < j < all.len() ==> (#[trigger] all[i]).0 != (#[trigger] all[j]).0
}

/// Declaration `j` is the first to repeat a model, that of declaration `i`.
pub open spec fn first_clash(all: Seq<Declaration>, i: int, j: int) -> bool {
    &&& 0 <= i < j < all.len()
    &&& all[i].0 == all[j].0
    &&& disjoint(all.take(j))
}

/// The text of the error for a model that two sources declare.
pub open spec fn clash_text(model: Seq<char>, origin: Seq<char>, source: Seq<char>) -> Seq<char> {
    "[fleet_readiness] model "@ + text::debug_text(model) + " appears in both "@ + origin
        + " and "@ + source
}

/// What is wrong with the sources of the gated lists, as the text of an error.
pub open spec fn source_fault(resource: Option<ResourceFactConfig>) -> Option<Seq<char>> {
    match resource {
        None => None,
        Some(r) => if r.openai_gated@.len() > 0 && (r.openai_url is None
            || r.openai_auth_token_env is None) {
            Some("openai_gated candidates require openai_url and openai_auth_token_env"@)
        } else if r.openclaw_openai_gated@.len() > 0 && (r.openclaw_openai_url is None
            || r.openclaw_openai_auth_token_env is None) {
            Some(
                "openclaw_openai_gated candidates require openclaw_openai_url and openclaw_openai_auth_token_env"@,
            )
        } else if r.deepseek_gated@.len() > 0 && (r.deepseek_url is None || r.deepseek_api_key_env
            is None || r.deepseek_currency is None) {
            Some(
                "deepseek_gated candidates require deepseek_url, deepseek_api_key_env and deepseek_currency"@,
            )
        } else if (r.openclaw_openai_url is Some) != (r.openclaw_openai_auth_token_env is Some) {
            Some("openclaw_openai_url and openclaw_openai_auth_token_env must be set together"@)
        } else {
            None
        },
    }
}

spec fn declared_view(all: Seq<(String, &'static str)>) -> Seq<Declaration> {
    Seq::new(all.len(), |i: int| (all[i].0@, all[i].1@))
}

fn declare(all: &mut Vec<(String, &'static str)>, models: &Vec<String>, source: &'static str)
    ensures
        declared_view(final(all)@) == declared_view(old(all)@) + declared_by(models@, source@),
{
    let ghost before = declared_view(all@);
    let ghost added = declared_by(models@, source@);
    let mut i: usize = 0;
    proof {
        assert(before + added.take(0) =~= before);
    }
    while i < models.len()
        invariant
            i <= models.len(),
            added == declared_by(models@, source@),
            declared_view(all@) == before + added.take(i as int),
        decreases models.len() - i,
    {
        let ghost was = declared_view(all@);
        all.push((text::copy_str(models[i].as_str()), source));
        proof {
            assert(declared_view(all@) =~= was.push(added[i as int]));
            assert(before + added.take(i + 1) =~= (before + added.take(i as int)).push(
                added[i as int],
            ));
        }
        i = i + 1;
    }
    proof {
        assert(added.take(added.len() as int) =~= added);
    }
}

fn declare_one(all: &mut Vec<(String, &'static str)>, model: &str, source: &'static str)
    ensures
        declared_view(final(all)@) == declared_view(old(all)@) + seq![(model@, source@)],
{
    let ghost before = declared_view(all@);
    all.push((text::copy_str(model), source));
    proof {
        assert(declared_view(all@) =~= before + seq![(model@, source@)]);
    }
}

impl FleetReadinessConfig {
    fn declared(&self) -> (r: Vec<(String, &'static str)>)
        ensures
            declared_view(r@) == declarations(*self),
    {
        let mut all: Vec<(String, &'static str)> = Vec::new();
        proof {
            assert(declared_view(all@) =~= Seq::empty());
        }
        declare(&mut all, &self.ready, "ready");
        declare(&mut all, &self.transition_required, "transition_required");
        if let Some(c) = &self.comfy {
            declare_one(&mut all, c.model.as_str(), "comfy");
        }
        if let Some(h) = &self.htpc {
            declare_one(&mut all, h.model.as_str(), "htpc");
        }
        if let Some(r) = &self.resource {
            declare(&mut all, &r.openai_gated, "resource-gated");
            declare(&mut all, &r.openclaw_openai_gated, "resource-gated");
            declare(&mut all, &r.deepseek_gated, "resource-gated");
        }
        proof {
            assert(declared_view(all@) =~= declarations(*self));
        }
        all
    }

    /// Validates the declared readiness sources: a model belongs to one source,
    /// and every gated list has its observation source configured.
    ///
    /// # Errors
    ///
    /// The first repeated model, else the first gated list without its source,
    /// else OpenClaw credentials of which only one is set.
    pub fn validate(&self) -> (r: Result<(), RunnerError>)
        ensures
            match r {
                Ok(_) => disjoint(declarations(*self)) && source_fault(self.resource) is None,
                Err(e) => if disjoint(declarations(*self)) {
                    source_fault(self.resource) == Some(e@)
                } else {
                    exists|i: int, j: int| #[trigger]
                        first_clash(declarations(*self), i, j) && e@ == clash_text(
                            declarations(*self)[j].0,
                            declarations(*self)[i].1,
                            declarations(*self)[j].1,
                        )
                },
            },
    {
        let declared = self.declared();
        let ghost all = declarations(*self);
        let mut j: usize = 0;
        while j < declared.len()
            invariant
                j <= declared.len(),
                all == declarations(*self),
                declared_view(declared@) == all,
                disjoint(all.take(j as int)),
            decreases declared.len() - j,
        {
            let mut i: usize = 0;
            while i < j
                invariant
                    i <= j < declared.len(),
                    all == declarations(*self),
                    declared_view(declared@) == all,
                    disjoint(all.take(j as int)),
                    forall|k: int| 0 <= k < i ==> (#[trigger] all[k]).0 != all[j as int].0,
                decreases j - i,
            {
                proof {
                    assert(all[i as int] == (declared@[i as int].0@, declared@[i as int].1@));
                    assert(all[j as int] == (declared@[j as int].0@, declared@[j as int].1@));
                }
                if text::str_eq(declared[i].0.as_str(), declared[j].0.as_str()) {
                    let q = text::quoted(declared[j].0.as_str());
                    let mut message = text::join3(
                        "[fleet_readiness] model ",
                        q.as_str(),
                        " appears in both ",
                    );
                    message.append(declared[i].1);
                    message.append(" and ");
                    message.append(declared[j].1);
                    proof {
                        assert(first_clash(all, i as int, j as int));
                        assert(!disjoint(all));
                    }
                    return Err(RunnerError::configuration(message));
                }
                i = i + 1;
            }
            proof {
                let next = all.take(j + 1);
                assert forall|a: int, b: int| 0 <= a < b < next.len() implies (#[trigger] next[a]).0
                    != (#[trigger] next[b]).0 by {
                    assert(next[a] == all[a]);
                    if b < j {
                        assert(all.take(j as int)[a] == next[a]);
                        assert(all.take(j as int)[b] == next[b]);
                    }
                }
            }
            j = j + 1;
        }
        proof {
            assert(all.take(all.len() as int) =~= all);
        }
        match &self.resource {
            Some(r) => r.check_sources(),
            None => Ok(()),
        }
    }
}

impl ResourceFactConfig {
    fn check_sources(&self) -> (r: Result<(), RunnerError>)
        ensures
            match r {
                Ok(_) => source_fault(Some(*self)) is None,
                Err(e) => source_fault(Some(*self)) == Some(e@),
            },
    {
        if self.openai_gated.len() > 0 && (self.openai_url.is_none()
            || self.openai_auth_token_env.is_none()) {
            return Err(
                RunnerError::configuration(
                    text::copy_str(
                        "openai_gated candidates require openai_url and openai_auth_token_env",
                    ),
                ),
            );
        }
        if self.openclaw_openai_gated.len() > 0 && (self.openclaw_openai_url.is_none()
            || self.openclaw_openai_auth_token_env.is_none()) {
            return Err(
                RunnerError::configuration(
                    text::copy_str(
                        "openclaw_openai_gated candidates require openclaw_openai_url and openclaw_openai_auth_token_env",
                    ),
                ),
            );
        }
        if self.deepseek_gated.len() > 0 && (self.deepseek_url.is_none()
            || self.deepseek_api_key_env.is_none() || self.deepseek_currency.is_none()) {
            return Err(
                RunnerError::configuration(
                    text::copy_str(
                        "deepseek_gated candidates require deepseek_url, deepseek_api_key_env and deepseek_currency",
                    ),
                ),
            );
        }
        if self.openclaw_openai_url.is_some() != self.openclaw_openai_auth_token_env.is_some() {
            return Err(
                RunnerError::configuration(
                    text::copy_str(
                        "openclaw_openai_url and openclaw_openai_auth_token_env must be set together",
                    ),
                ),
            );
        }
        Ok(())
    }
}

/// A valid configuration declares every model once: a snapshot with one entry for
/// each declaration names no target twice, so the fleet does not stay empty.
pub proof fn valid_config_snapshots_name_no_target_twice(
    config: FleetReadinessConfig,
    entries: Entries,
)
    requires
        disjoint(declarations(config)),
        entries.len() == declarations(config).len(),
        forall|i: int|
            0 <= i < entries.len() ==> (#[trigger] entries[i]).0 == declarations(config)[i].0,
    ensures
        distinct_targets(entries),
{
    let all = declarations(config);
    assert forall|i: int, j: int| 0 <= i < j < entries.len() implies (#[trigger] entries[i]).0 != (
    #[trigger] entries[j]).0 by {
        assert(all[i].0 != all[j].0);
    }
}

/// In a valid configuration every gated model has the source that is observed
/// for it.
pub proof fn gated_models_are_observed(config: FleetReadinessConfig)
    requires
        config.resource is Some,
        source_fault(config.resource) is None,
    ensures
        config.resource->0.openai_gated@.len() > 0 ==> config.resource->0.openai_url is Some
            && config.resource->0.openai_auth_token_env is Some,
        config.resource->0.openclaw_openai_gated@.len() > 0
            ==> config.resource->0.openclaw_openai_url is Some
            && config.resource->0.openclaw_openai_auth_token_env is Some,
        config.resource->0.deepseek_gated@.len() > 0 ==> config.resource->0.deepseek_url is Some
            && config.resource->0.deepseek_api_key_env is Some
            && config.resource->0.deepseek_currency is Some,
{
}

/// Every model that a configuration names is declared, by the source that names it,
/// and nothing else is.
pub proof fn declarations_cover_every_source(config: FleetReadinessConfig, i: int)
    ensures
        0 <= i < config.ready@.len() ==> declarations(config).contains(
            (config.ready@[i]@, "ready"@),
        ),
        0 <= i < config.transition_required@.len() ==> declarations(config).contains(
            (config.transition_required@[i]@, "transition_required"@),
        ),
        config.comfy is Some ==> declarations(config).contains(
            (config.comfy->0.model@, "comfy"@),
        ),
        config.htpc is Some ==> declarations(config).contains((config.htpc->0.model@, "htpc"@)),
        config.resource is Some && 0 <= i < config.resource->0.openai_gated@.len()
            ==> declarations(config).contains(
            (config.resource->0.openai_gated@[i]@, "resource-gated"@),
        ),
        config.resource is Some && 0 <= i < config.resource->0.openclaw_openai_gated@.len()
            ==> declarations(config).contains(
            (config.resource->0.openclaw_openai_gated@[i]@, "resource-gated"@),
        ),
        config.resource is Some && 0 <= i < config.resource->0.deepseek_gated@.len()
            ==> declarations(config).contains(
            (config.resource->0.deepseek_gated@[i]@, "resource-gated"@),
        ),
        declarations(config).len() == config.ready@.len() + config.transition_required@.len() + (
        if config.comfy is Some {
            1int
        } else {
            0int
        }) + (if config.htpc is Some {
            1int
        } else {
            0int
        }) + (if config.resource is Some {
            config.resource->0.openai_gated@.len() + config.resource->0.openclaw_openai_gated@.len()
                + config.resource->0.deepseek_gated@.len()
        } else {
            0
        }),
{
    let all = declarations(config);
    let a = config.ready@.len() as int;
    let b = a + config.transition_required@.len();
    let c = b + if config.comfy is Some {
        1int
    } else {
        0int
    };
    let d = c + if config.htpc is Some {
        1int
    } else {
        0int
    };
    if 0 <= i < config.ready@.len() {
        assert(all[i] == (config.ready@[i]@, "ready"@));
    }
    if 0 <= i < config.transition_required@.len() {
        assert(all[a + i] == (config.transition_required@[i]@, "transition_required"@));
    }
    if config.comfy is Some {
        assert(all[b] == (config.comfy->0.model@, "comfy"@));
    }
    if config.htpc is Some {
        assert(all[c] == (config.htpc->0.model@, "htpc"@));
    }
    if config.resource is Some {
        let r = config.resource->0;
        let e = d + r.openai_gated@.len();
        let f = e + r.openclaw_openai_gated@.len();
        if 0 <= i < r.openai_gated@.len() {
            assert(all[d + i] == (r.openai_gated@[i]@, "resource-gated"@));
        }
        if 0 <= i < r.openclaw_openai_gated@.len() {
            assert(all[e + i] == (r.openclaw_openai_gated@[i]@, "resource-gated"@));
        }
        if 0 <= i < r.deepseek_gated@.len() {
            assert(all[f + i] == (r.deepseek_gated@[i]@, "resource-gated"@));
        }
    }
}

/// A configuration is valid exactly where no model is declared twice, every gated
/// list that is not empty has the source that is observed for it, and the OpenClaw
/// credentials are both set or both unset.
pub proof fn valid_configurations(config: FleetReadinessConfig, r: Result<(), RunnerError>)
    requires
        call_ensures(FleetReadinessConfig::validate, (&config,), r),
    ensures
        r is Ok <==> {
            &&& forall|i: int, j: int|
                0 <= i < j < declarations(config).len() ==> (#[trigger] declarations(config)[i]).0
                    != (#[trigger] declarations(config)[j]).0
            &&& config.resource is Some ==> {
                let s = config.resource->0;
                &&& s.openai_gated@.len() > 0 ==> s.openai_url is Some && s.openai_auth_token_env
                    is Some
                &&& s.openclaw_openai_gated@.len() > 0 ==> s.openclaw_openai_url is Some
                    && s.openclaw_openai_auth_token_env is Some
                &&& s.deepseek_gated@.len() > 0 ==> s.deepseek_url is Some && s.deepseek_api_key_env
                    is Some && s.deepseek_currency is Some
                &&& s.openclaw_openai_url is Some <==> s.openclaw_openai_auth_token_env is Some
            }
        },
{
    if r is Err && !disjoint(declarations(config)) {
        let all = declarations(config);
        let (i, j) = choose|i: int, j: int| #[trigger]
            first_clash(all, i, j) && r->Err_0@ == clash_text(all[j].0, all[i].1, all[j].1);
        assert(all[i].0 == all[j].0);
    }
}

/// An invalid configuration is told why: the model that two sources declare, with
/// both, or else the first gated list without its source, or else the credentials of
/// which only one is set.
pub proof fn invalid_configurations_are_explained(
    config: FleetReadinessConfig,
    r: Result<(), RunnerError>,
)
    requires
        call_ensures(FleetReadinessConfig::validate, (&config,), r),
        r is Err,
    ensures
        disjoint(declarations(config)) ==> config.resource is Some && {
            let s = config.resource->0;
            r->Err_0@ == (if s.openai_gated@.len() > 0 && !(s.openai_url is Some
                && s.openai_auth_token_env is Some) {
                "openai_gated candidates require openai_url and openai_auth_token_env"@
            } else if s.openclaw_openai_gated@.len() > 0 && !(s.openclaw_openai_url is Some
                && s.openclaw_openai_auth_token_env is Some) {
                "openclaw_openai_gated candidates require openclaw_openai_url and openclaw_openai_auth_token_env"@
            } else if s.deepseek_gated@.len() > 0 && !(s.deepseek_url is Some
                && s.deepseek_api_key_env is Some && s.deepseek_currency is Some) {
                "deepseek_gated candidates require deepseek_url, deepseek_api_key_env and deepseek_currency"@
            } else {
                "openclaw_openai_url and openclaw_openai_auth_token_env must be set together"@
            })
        },
        !disjoint(declarations(config)) ==> exists|i: int, j: int|
            #![trigger declarations(config)[i], declarations(config)[j]]
            {
                let all = declarations(config);
                &&& 0 <= i < j < all.len()
                &&& all[i].0 == all[j].0
                &&& r->Err_0@ == "[fleet_readiness] model "@ + text::debug_text(all[j].0)
                    + " appears in both "@ + all[i].1 + " and "@ + all[j].1
            },
{
    let all = declarations(config);
    if !disjoint(all) {
        let (i, j) = choose|i: int, j: int| #[trigger]
            first_clash(all, i, j) && r->Err_0@ == clash_text(all[j].0, all[i].1, all[j].1);
        assert(all[i].0 == all[j].0);
        assert(declarations(config)[i] == all[i] && declarations(config)[j] == all[j]);
    }
}

} // verus!
