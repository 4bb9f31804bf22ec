//! Named route table and server-facing route metadata.
use std::sync::Arc;

use vstd::prelude::*;
use crate::backend::WireFormat;
use crate::capability::{CapabilityClientConfig, CapabilityRouteConfig};
use crate::facts_config::FleetReadinessConfig;
use crate::fleet_router::SharedFleetState;
use crate::json::{members_view, Json, Members};
use crate::request::ModelId;
use crate::text;

verus! {

/// What a route advertises.
#[derive(Clone, Copy, Debug, PartialEq, Eq, Structural)]
pub struct ModelCapabilities {
    pub context_window: Option<u64>,
    pub tool_calling: Option<bool>,
    pub reasoning: Option<bool>,
    pub supports_vision: Option<bool>,
}

/// Non-secret configured target details.
#[derive(Debug, PartialEq, Eq)]
pub struct DecisionTarget {
    pub target: String,
    pub model: ModelId,
    pub format: WireFormat,
    pub base_url: String,
    pub extra_body: Vec<(String, Json)>,
}

/// What the details of a target say.
#[verifier::ext_equal]
pub struct TargetView {
    pub target: Seq<char>,
    pub model: Seq<char>,
    pub format: WireFormat,
    pub base_url: Seq<char>,
    pub extra_body: Members,
}

impl View for DecisionTarget {
    type V = TargetView;

    open spec fn view(&self) -> TargetView {
        TargetView {
            target: self.target@,
            model: self.model@,
            format: self.format,
            base_url: self.base_url@,
            extra_body: members_view(self.extra_body@),
        }
    }
}

impl DecisionTarget {
    /// An equal copy.
    pub fn copy(&self) -> (r: Self)
        ensures
            r@ == self@,
    {
        let mut extra_body: Vec<(String, Json)> = Vec::new();
        let mut i: usize = 0;
        while i < self.extra_body.len()
            invariant
                i <= self.extra_body.len(),
                extra_body.len() == i,
                forall|j: int|
                    0 <= j < i ==> (#[trigger] extra_body@[j]).0@ == self.extra_body@[j].0@
                        && extra_body@[j].1@ == self.extra_body@[j].1@,
            decreases self.extra_body.len() - i,
        {
            extra_body.push(
                (text::copy_str(self.extra_body[i].0.as_str()), self.extra_body[i].1.copy()),
            );
            i = i + 1;
        }
        proof {
            assert(members_view(extra_body@) =~= members_view(self.extra_body@));
        }
        DecisionTarget {
            target: text::copy_str(self.target.as_str()),
            model: text::copy_str(self.model.as_str()),
            format: self.format,
            base_url: text::copy_str(self.base_url.as_str()),
            extra_body,
        }
    }
}

/// A configured route: the algorithm that serves it, what it advertises, and the
/// targets that it can reach.
#[derive(Debug)]
pub struct Route {
    pub algorithm: String,
    pub capabilities: ModelCapabilities,
    /// The targets, by the model id that selects them.
    pub targets: Vec<(ModelId, DecisionTarget)>,
}

/// The target that a model id selects: the first of that id.
pub open spec fn target_called(targets: Seq<(ModelId, DecisionTarget)>, model: Seq<char>) -> Option<
    TargetView,
>
    decreases targets.len(),
{
    if targets.len() == 0 {
        None
    } else if targets[0].0@ == model {
        Some(targets[0].1@)
    } else {
        target_called(targets.drop_first(), model)
    }
}

impl Route {
    /// The target that a model id selects.
    pub fn decision_target(&self, selected: &ModelId) -> (r: Option<DecisionTarget>)
        ensures
            match r {
                Some(target) => target_called(self.targets@, selected@) == Some(target@),
                None => target_called(self.targets@, selected@) is None,
            },
    {
        let mut i: usize = 0;
        proof {
            assert(self.targets@.skip(0) =~= self.targets@);
        }
        while i < self.targets.len()
            invariant
                i <= self.targets.len(),
                target_called(self.targets@, selected@) == target_called(
                    self.targets@.skip(i as int),
                    selected@,
                ),
            decreases self.targets.len() - i,
        {
            if text::str_eq(self.targets[i].0.as_str(), selected.as_str()) {
                return Some(self.targets[i].1.copy());
            }
            proof {
                assert(self.targets@.skip(i as int).drop_first() =~= self.targets@.skip(i + 1));
            }
            i = i + 1;
        }
        None
    }
}

/// Model metadata returned while listing routes.
#[derive(Debug)]
pub struct ModelInfo<'a> {
    pub id: &'a ModelId,
    pub algorithm: &'a str,
    pub capabilities: ModelCapabilities,
}

/// Fully resolved routing decision.
#[derive(Debug)]
pub struct DecisionDescription {
    pub selected: DecisionTarget,
    pub fallbacks: Vec<DecisionTarget>,
}

/// Immutable named route table.
#[derive(Debug)]
pub struct Runner {
    pub routes: Vec<(ModelId, Route)>,
    pub fallback_base_url: Option<String>,
    /// The fleet-state handle shared by every fleet route.
    pub fleet_state: Option<Arc<SharedFleetState>>,
    pub fleet_readiness: Option<FleetReadinessConfig>,
    pub capability_clients: Vec<(String, CapabilityClientConfig)>,
    pub capabilities: Vec<(String, CapabilityRouteConfig)>,
}

/// The route registered for a model: the first of that name.
pub open spec fn route_called(routes: Seq<(ModelId, Route)>, model: Seq<char>) -> Option<Route>
    decreases routes.len(),
{
    if routes.len() == 0 {
        None
    } else if routes[0].0@ == model {
        Some(routes[0].1)
    } else {
        route_called(routes.drop_first(), model)
    }
}

/// A decision resolves on a route: there is a selected id, and every id selects
/// a target.
pub open spec fn resolves(route: Option<Route>, selected: Seq<ModelId>) -> bool {
    &&& route is Some
    &&& selected.len() > 0
    &&& forall|i: int|
        0 <= i < selected.len() ==> target_called(
            route->0.targets@,
            (#[trigger] selected[i])@,
        ) is Some
}

impl Runner {
    /// A runner over named routes, in the given order.
    pub fn new(routes: Vec<(ModelId, Route)>) -> (r: Self)
        ensures
            r.routes == routes,
            r.fallback_base_url is None && r.fleet_state is None && r.fleet_readiness is None,
            r.capability_clients@.len() == 0 && r.capabilities@.len() == 0,
    {
        Runner {
            routes,
            fallback_base_url: None,
            fleet_state: None,
            fleet_readiness: None,
            capability_clients: Vec::new(),
            capabilities: Vec::new(),
        }
    }

    /// Declares the fleet-state handle for the host's readiness monitor.
    pub fn with_fleet_state(self, fleet_state: Option<Arc<SharedFleetState>>) -> (r: Self)
        ensures
            r == (Runner { fleet_state, ..self }),
    {
        Runner { fleet_state, ..self }
    }

    /// The fleet-state handle, when any fleet route is configured.
    pub fn fleet_state(&self) -> (r: Option<&Arc<SharedFleetState>>)
        ensures
            match r {
                Some(state) => self.fleet_state == Some(*state),
                None => self.fleet_state is None,
            },
    {
        self.fleet_state.as_ref()
    }

    /// Declares the readiness monitor's configuration.
    pub fn with_fleet_readiness(self, fleet_readiness: Option<FleetReadinessConfig>) -> (r: Self)
        ensures
            r == (Runner { fleet_readiness, ..self }),
    {
        Runner { fleet_readiness, ..self }
    }

    /// The readiness monitor's configuration, when declared.
    pub fn fleet_readiness(&self) -> (r: Option<&FleetReadinessConfig>)
        ensures
            match r {
                Some(config) => self.fleet_readiness == Some(*config),
                None => self.fleet_readiness is None,
            },
    {
        self.fleet_readiness.as_ref()
    }

    /// Declares the capability executors and routes.
    pub fn with_capabilities(
        self,
        capability_clients: Vec<(String, CapabilityClientConfig)>,
        capabilities: Vec<(String, CapabilityRouteConfig)>,
    ) -> (r: Self)
        ensures
            r == (Runner { capability_clients, capabilities, ..self }),
    {
        Runner { capability_clients, capabilities, ..self }
    }

    /// The capability executors, by name.
    pub fn capability_clients(&self) -> (r: &Vec<(String, CapabilityClientConfig)>)
        ensures
            *r == self.capability_clients,
    {
        &self.capability_clients
    }

    /// The capability routes, by name.
    pub fn capabilities(&self) -> (r: &Vec<(String, CapabilityRouteConfig)>)
        ensures
            *r == self.capabilities,
    {
        &self.capabilities
    }

    /// Declares the API root used for unmatched HTTP requests.
    pub fn with_fallback_url(self, fallback_base_url: Option<String>) -> (r: Self)
        ensures
            r == (Runner { fallback_base_url, ..self }),
    {
        Runner { fallback_base_url, ..self }
    }

    /// The API root used for unmatched HTTP requests.
    pub fn fallback_base_url(&self) -> (r: Option<&str>)
        ensures
            match r {
                Some(url) => text::opt_text(self.fallback_base_url) == Some(url@),
                None => self.fallback_base_url is None,
            },
    {
        match &self.fallback_base_url {
            Some(url) => Some(url.as_str()),
            None => None,
        }
    }

    /// The route registered for a model.
    pub fn route(&self, model: &str) -> (r: Option<&Route>)
        ensures
            match r {
                Some(route) => route_called(self.routes@, model@) == Some(*route),
                None => route_called(self.routes@, model@) is None,
            },
    {
        let mut i: usize = 0;
        proof {
            assert(self.routes@.skip(0) =~= self.routes@);
        }
        while i < self.routes.len()
            invariant
                i <= self.routes.len(),
                route_called(self.routes@, model@) == route_called(
                    self.routes@.skip(i as int),
                    model@,
                ),
            decreases self.routes.len() - i,
        {
            if text::str_eq(self.routes[i].0.as_str(), model) {
                return Some(&self.routes[i].1);
            }
            proof {
                assert(self.routes@.skip(i as int).drop_first() =~= self.routes@.skip(i + 1));
            }
            i = i + 1;
        }
        None
    }

    /// The metadata of every configured route, in order.
    pub fn models(&self) -> (r: Vec<ModelInfo<'_>>)
        ensures
            r@.len() == self.routes@.len(),
            forall|i: int|
                0 <= i < r@.len() ==> {
                    &&& *(#[trigger] r@[i]).id == self.routes@[i].0
                    &&& r@[i].algorithm@ == self.routes@[i].1.algorithm@
                    &&& r@[i].capabilities == self.routes@[i].1.capabilities
                },
    {
        let mut out: Vec<ModelInfo<'_>> = Vec::new();
        let mut i: usize = 0;
        while i < self.routes.len()
            invariant
                i <= self.routes.len(),
                out@.len() == i,
                forall|j: int|
                    0 <= j < i ==> {
                        &&& *(#[trigger] out@[j]).id == self.routes@[j].0
                        &&& out@[j].algorithm@ == self.routes@[j].1.algorithm@
                        &&& out@[j].capabilities == self.routes@[j].1.capabilities
                    },
            decreases self.routes.len() - i,
        {
            let entry = &self.routes[i];
            out.push(
                ModelInfo {
                    id: &entry.0,
                    algorithm: entry.1.algorithm.as_str(),
                    capabilities: entry.1.capabilities,
                },
            );
            i = i + 1;
        }
        out
    }

    /// Resolves the selected model ids of a decision, in order, to configured
    /// targets. Without a route, without a selected id, or where any id has no
    /// target, there is no description.
    pub fn describe_decision(&self, model: &ModelId, selected_model_ids: &Vec<ModelId>) -> (r:
        Option<DecisionDescription>)
        ensures
            match r {
                None => !resolves(route_called(self.routes@, model@), selected_model_ids@),
                Some(description) => {
                    let route = route_called(self.routes@, model@);
                    &&& resolves(route, selected_model_ids@)
                    &&& target_called(route->0.targets@, selected_model_ids@[0]@) == Some(
                        description.selected@,
                    )
                    &&& description.fallbacks@.len() == selected_model_ids@.len() - 1
                    &&& forall|i: int|
                        0 <= i < description.fallbacks@.len() ==> target_called(
                            route->0.targets@,
                            selected_model_ids@[i + 1]@,
                        ) == Some((#[trigger] description.fallbacks@[i])@)
                },
            },
    {
        let route = match self.route(model.as_str()) {
            Some(route) => route,
            None => {
                return None;
            },
        };
        if selected_model_ids.len() == 0 {
            return None;
        }
        let selected = match route.decision_target(&selected_model_ids[0]) {
            Some(target) => target,
            None => {
                assert(target_called(route.targets@, selected_model_ids@[0]@) is None);
                return None;
            },
        };
        let mut fallbacks: Vec<DecisionTarget> = Vec::new();
        let mut i: usize = 1;
        while i < selected_model_ids.len()
            invariant
                1 <= i <= selected_model_ids.len(),
                route_called(self.routes@, model@) == Some(*route),
                target_called(route.targets@, selected_model_ids@[0]@) == Some(selected@),
                fallbacks@.len() == i - 1,
                forall|j: int|
                    0 <= j < i - 1 ==> target_called(route.targets@, selected_model_ids@[j + 1]@)
                        == Some((#[trigger] fallbacks@[j])@),
                forall|j: int|
                    0 <= j < i ==> target_called(
                        route.targets@,
                        (#[trigger] selected_model_ids@[j])@,
                    ) is Some,
            decreases selected_model_ids.len() - i,
        {
            match route.decision_target(&selected_model_ids[i]) {
                Some(target) => fallbacks.push(target),
                None => {
                    assert(target_called(route.targets@, selected_model_ids@[i as int]@) is None);
                    return None;
                },
            }
            i = i + 1;
        }
        Some(DecisionDescription { selected, fallbacks })
    }
}

/// A model id selects the first target of that id, and none where no target has it.
pub proof fn first_target_is_selected(
    route: Route,
    selected: ModelId,
    r: Option<DecisionTarget>,
    i: int,
)
    requires
        call_ensures(Route::decision_target, (&route, &selected), r),
    ensures
        0 <= i < route.targets@.len() && route.targets@[i].0@ == selected@ && (forall|j: int|
            0 <= j < i ==> (#[trigger] route.targets@[j]).0@ != selected@) ==> r is Some && r->0@
            == route.targets@[i].1@,
        (forall|j: int|
            0 <= j < route.targets@.len() ==> (#[trigger] route.targets@[j]).0@ != selected@)
            ==> r is None,
{
    target_at(route.targets@, selected@, i);
}

proof fn target_at(targets: Seq<(ModelId, DecisionTarget)>, model: Seq<char>, i: int)
    ensures
        0 <= i < targets.len() && targets[i].0@ == model && (forall|j: int|
            0 <= j < i ==> (#[trigger] targets[j]).0@ != model) ==> target_called(targets, model)
            == Some(targets[i].1@),
        (forall|j: int| 0 <= j < targets.len() ==> (#[trigger] targets[j]).0@ != model)
            ==> target_called(targets, model) is None,
    decreases targets.len(),
{
    if targets.len() > 0 {
        let rest = targets.drop_first();
        target_at(rest, model, i - 1);
        assert(forall|j: int| 0 <= j < rest.len() ==> #[trigger] rest[j] == targets[j + 1]);
        if i > 0 && i < targets.len() {
            assert(rest[i - 1] == targets[i]);
            if forall|j: int| 0 <= j < i ==> (#[trigger] targets[j]).0@ != model {
                assert(targets[0].0@ != model);
                assert forall|j: int| 0 <= j < i - 1 implies (#[trigger] rest[j]).0@ != model by {
                    assert(targets[j + 1].0@ != model);
                }
            }
        }
        if forall|j: int| 0 <= j < targets.len() ==> (#[trigger] targets[j]).0@ != model {
            assert(targets[0].0@ != model);
            assert forall|j: int| 0 <= j < rest.len() implies (#[trigger] rest[j]).0@ != model by {
                assert(targets[j + 1].0@ != model);
            }
        }
    }
}

/// A model has the first route of its name, and none where no route has it.
pub proof fn first_route_is_registered(runner: Runner, model: &str, r: Option<&Route>, i: int)
    requires
        call_ensures(Runner::route, (&runner, model), r),
    ensures
        0 <= i < runner.routes@.len() && runner.routes@[i].0@ == model@ && (forall|j: int|
            0 <= j < i ==> (#[trigger] runner.routes@[j]).0@ != model@) ==> r is Some && *r->0
            == runner.routes@[i].1,
        (forall|j: int|
            0 <= j < runner.routes@.len() ==> (#[trigger] runner.routes@[j]).0@ != model@)
            ==> r is None,
{
    route_at(runner.routes@, model@, i);
}

proof fn route_at(routes: Seq<(ModelId, Route)>, model: Seq<char>, i: int)
    ensures
        0 <= i < routes.len() && routes[i].0@ == model && (forall|j: int|
            0 <= j < i ==> (#[trigger] routes[j]).0@ != model) ==> route_called(routes, model)
            == Some(routes[i].1),
        (forall|j: int| 0 <= j < routes.len() ==> (#[trigger] routes[j]).0@ != model)
            ==> route_called(routes, model) is None,
    decreases routes.len(),
{
    if routes.len() > 0 {
        let rest = routes.drop_first();
        route_at(rest, model, i - 1);
        assert(forall|j: int| 0 <= j < rest.len() ==> #[trigger] rest[j] == routes[j + 1]);
        if i > 0 && i < routes.len() {
            assert(rest[i - 1] == routes[i]);
            if forall|j: int| 0 <= j < i ==> (#[trigger] routes[j]).0@ != model {
                assert(routes[0].0@ != model);
                assert forall|j: int| 0 <= j < i - 1 implies (#[trigger] rest[j]).0@ != model by {
                    assert(routes[j + 1].0@ != model);
                }
            }
        }
        if forall|j: int| 0 <= j < routes.len() ==> (#[trigger] routes[j]).0@ != model {
            assert(routes[0].0@ != model);
            assert forall|j: int| 0 <= j < rest.len() implies (#[trigger] rest[j]).0@ != model by {
                assert(routes[j + 1].0@ != model);
            }
        }
    }
}

/// A decision is described where its model has a route and every one of its ids, of
/// which there is one, selects a target there: the first id's target is the selected
/// one, and the others are the fallbacks, in order.
pub proof fn decisions_are_described_id_by_id(
    runner: Runner,
    model: ModelId,
    name: &str,
    ids: Vec<ModelId>,
    route: Option<&Route>,
    r: Option<DecisionDescription>,
    i: int,
)
    requires
        call_ensures(Runner::describe_decision, (&runner, &model, &ids), r),
        call_ensures(Runner::route, (&runner, name), route),
        name@ == model@,
    ensures
        route is None || ids@.len() == 0 ==> r is None,
        r is Some ==> r->0.fallbacks@.len() == ids@.len() - 1,
        r is Some && 0 <= i < ids@.len() ==> target_called(route->0.targets@, ids@[i]@) == Some(
            if i == 0 {
                r->0.selected@
            } else {
                r->0.fallbacks@[i - 1]@
            },
        ),
        r is None && route is Some && ids@.len() > 0 ==> exists|k: int|
            0 <= k < ids@.len() && target_called(route->0.targets@, (#[trigger] ids@[k])@) is None,
{
    if r is Some && 0 < i < ids@.len() {
        assert(r->0.fallbacks@[i - 1]@ == r->0.fallbacks@[i - 1]@);
    }
}

/// Every route is listed, in order, with what it advertises.
pub proof fn routes_are_listed_in_order(runner: Runner, r: Vec<ModelInfo<'_>>, i: int)
    requires
        call_ensures(Runner::models, (&runner,), r),
    ensures
        r@.len() == runner.routes@.len(),
        0 <= i < r@.len() ==> *r@[i].id == runner.routes@[i].0 && r@[i].capabilities
            == runner.routes@[i].1.capabilities && r@[i].algorithm@
            == runner.routes@[i].1.algorithm@,
{
}

} // verus!
