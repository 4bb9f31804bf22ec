//! Fleet routing as a small stateless filter and ranker.
//!
//! [`FleetRouter`] filters a candidate set by two kinds of input that are kept
//! apart: static candidate profiles, which say what each target can do and how
//! much it is preferred, and an injected readiness snapshot. The decision
//! depends on the request, the profiles and the snapshot alone.
use std::sync::Arc;

use vstd::prelude::*;
use vstd::string::StringExecFns;
use crate::error::LibsyError;
use crate::json::{json_text, text_of, to_text, unsigned_of, JsonView, NumberView};
use crate::request::{any_image, extension, has_image, messages_hold_image, ModelId, Request};
use crate::text;

verus! {

/// How a candidate's context capacity is treated before dispatch.
#[derive(Clone, Copy, Debug, PartialEq, Eq, Structural)]
pub enum ContextAdmissionPolicy {
    /// No preflight context assertion for this candidate.
    Unmanaged,
    /// Admission needs a trusted input-token count for this candidate and an
    /// explicit output budget.
    Bounded {
        /// The usable context that this deployment guarantees.
        usable_context_tokens: u64,
    },
}

/// Declared work shape of a request.
#[derive(Clone, Copy, Debug, PartialEq, Eq, Structural)]
pub enum WorkShape {
    /// A finite, self-contained task.
    Bounded,
    /// A long-lived, multi-step agentic session.
    Agentic,
}

/// How the router learns a request's declared work shape.
#[derive(Clone, Copy, Debug, PartialEq, Eq, Structural)]
pub enum WorkShapeSource {
    /// No work-shape filtering.
    Unfiltered,
    /// `work_shape` is read from structured request metadata.
    Request,
}

impl Default for WorkShapeSource {
    fn default() -> (r: Self)
        ensures
            r == WorkShapeSource::Unfiltered,
    {
        WorkShapeSource::Unfiltered
    }
}

/// Static capability and preference profile of one candidate target.
#[derive(Clone, Debug, PartialEq, Eq)]
pub struct CandidateProfile {
    /// Target model id that is selected when this candidate wins.
    pub target: ModelId,
    /// Whether the target advertises tool calling.
    pub tool_calling: bool,
    /// Whether the target advertises reasoning support.
    pub reasoning: bool,
    /// Preference ordering; lower is preferred.
    pub preference_rank: u16,
    /// Preflight context admission policy.
    pub context_policy: ContextAdmissionPolicy,
    /// Static usable context capacity; `None` is unknown, zero is invalid.
    pub usable_context_tokens: Option<u64>,
    /// Declared work-shape limitation; `None` serves any shape.
    pub work_shape: Option<WorkShape>,
    /// Whether the target advertises vision (image input) support.
    pub supports_vision: bool,
}

impl CandidateProfile {
    /// A profile without preflight context concern, of unknown capacity, serving
    /// any work shape, without vision.
    pub fn new(target: &str, tool_calling: bool, reasoning: bool, preference_rank: u16) -> (r: Self)
        ensures
            r.target@ == target@,
            r == (CandidateProfile {
                target: r.target,
                tool_calling,
                reasoning,
                preference_rank,
                context_policy: ContextAdmissionPolicy::Unmanaged,
                usable_context_tokens: None,
                work_shape: None,
                supports_vision: false,
            }),
    {
        CandidateProfile {
            target: text::copy_str(target),
            tool_calling,
            reasoning,
            preference_rank,
            context_policy: ContextAdmissionPolicy::Unmanaged,
            usable_context_tokens: None,
            work_shape: None,
            supports_vision: false,
        }
    }

    /// Sets whether the candidate advertises vision.
    pub fn with_supports_vision(self, supports_vision: bool) -> (r: Self)
        ensures
            r == (CandidateProfile { supports_vision, ..self }),
    {
        CandidateProfile { supports_vision, ..self }
    }

    /// Sets the preflight context admission policy.
    pub fn with_context_policy(self, policy: ContextAdmissionPolicy) -> (r: Self)
        ensures
            r == (CandidateProfile { context_policy: policy, ..self }),
    {
        CandidateProfile { context_policy: policy, ..self }
    }

    /// Sets the static usable context capacity.
    pub fn with_usable_context_tokens(self, capacity: u64) -> (r: Self)
        ensures
            r == (CandidateProfile { usable_context_tokens: Some(capacity), ..self }),
    {
        CandidateProfile { usable_context_tokens: Some(capacity), ..self }
    }

    /// Limits the candidate to a declared work shape.
    pub fn with_work_shape(self, shape: WorkShape) -> (r: Self)
        ensures
            r == (CandidateProfile { work_shape: Some(shape), ..self }),
    {
        CandidateProfile { work_shape: Some(shape), ..self }
    }
}

/// Live readiness of a candidate.
#[derive(Clone, Copy, Debug, PartialEq, Eq, Structural)]
pub struct CandidateState {
    /// Whether the target is immediately usable.
    pub ready: bool,
    /// Whether the target needs an external transition before it is usable.
    pub transition_required: bool,
}

impl Default for CandidateState {
    fn default() -> (r: Self)
        ensures
            r == absent_state(),
    {
        CandidateState { ready: false, transition_required: false }
    }
}

/// The state of a target without an entry: not ready.
pub open spec fn absent_state() -> CandidateState {
    CandidateState { ready: false, transition_required: false }
}

/// Whether a state allows immediate selection.
pub open spec fn usable_now(state: CandidateState) -> bool {
    state.ready && !state.transition_required
}

impl CandidateState {
    /// A target that is immediately usable with no transition required.
    pub fn ready() -> (r: Self)
        ensures
            r == (CandidateState { ready: true, transition_required: false }),
    {
        CandidateState { ready: true, transition_required: false }
    }

    /// A target that is not currently usable.
    pub fn not_ready() -> (r: Self)
        ensures
            r == (CandidateState { ready: false, transition_required: false }),
    {
        CandidateState { ready: false, transition_required: false }
    }

    /// A capable target that needs an external transition before use.
    pub fn transition_required() -> (r: Self)
        ensures
            r == (CandidateState { ready: false, transition_required: true }),
    {
        CandidateState { ready: false, transition_required: true }
    }

    /// Whether this candidate is immediately eligible for selection.
    pub fn immediately_eligible(&self) -> (r: bool)
        ensures
            r == usable_now(*self),
    {
        self.ready && !self.transition_required
    }
}

/// Readiness entries, by target.
pub type Entries = Seq<(Seq<char>, CandidateState)>;

/// What a list of readiness entries says.
pub open spec fn entries_view(states: Seq<(ModelId, CandidateState)>) -> Entries {
    Seq::new(states.len(), |i: int| (states[i].0@, states[i].1))
}

/// No target has two entries.
pub open spec fn distinct_targets(entries: Entries) -> bool {
    forall|i: int, j: int|
        0 <= i < j < entries.len() ==> (#[trigger] entries[i]).0 != (#[trigger] entries[j]).0
}

/// The state of a target: that of its first entry, or not ready without one.
pub open spec fn state_in(entries: Entries, target: Seq<char>) -> CandidateState
    decreases entries.len(),
{
    if entries.len() == 0 {
        absent_state()
    } else if entries[0].0 == target {
        entries[0].1
    } else {
        state_in(entries.drop_first(), target)
    }
}

proof fn state_at(entries: Entries, target: Seq<char>, i: int)
    requires
        0 <= i < entries.len(),
        entries[i].0 == target,
        forall|j: int| 0 <= j < i ==> (#[trigger] entries[j]).0 != target,
    ensures
        state_in(entries, target) == entries[i].1,
    decreases entries.len(),
{
    if i > 0 {
        let rest = entries.drop_first();
        assert forall|j: int| 0 <= j < i - 1 implies (#[trigger] rest[j]).0 != target by {
            assert(rest[j] == entries[j + 1]);
        }
        state_at(rest, target, i - 1);
    }
}

/// Missing state is fail-closed: a target without an entry is not usable now.
pub proof fn missing_state_is_not_ready(entries: Entries, target: Seq<char>)
    requires
        forall|j: int| 0 <= j < entries.len() ==> (#[trigger] entries[j]).0 != target,
    ensures
        !usable_now(state_in(entries, target)),
        state_in(entries, target) == absent_state(),
    decreases entries.len(),
{
    if entries.len() > 0 {
        let rest = entries.drop_first();
        assert forall|j: int| 0 <= j < rest.len() implies (#[trigger] rest[j]).0 != target by {
            assert(rest[j] == entries[j + 1]);
        }
        missing_state_is_not_ready(rest, target);
    }
}

/// With distinct targets every entry is reported as it stands.
pub proof fn every_entry_is_reported(entries: Entries, i: int)
    requires
        distinct_targets(entries),
        0 <= i < entries.len(),
    ensures
        state_in(entries, entries[i].0) == entries[i].1,
{
    state_at(entries, entries[i].0, i);
}

/// One coherent, immutable readiness snapshot for the whole fleet. A target
/// absent here is treated as not ready.
#[derive(Debug, PartialEq, Eq)]
pub struct FleetSnapshot {
    states: Vec<(ModelId, CandidateState)>,
}

impl View for FleetSnapshot {
    type V = Entries;

    closed spec fn view(&self) -> Entries {
        entries_view(self.states@)
    }
}

impl Default for FleetSnapshot {
    fn default() -> (r: Self)
        ensures
            r@.len() == 0,
    {
        FleetSnapshot { states: Vec::new() }
    }
}

impl Clone for FleetSnapshot {
    fn clone(&self) -> (r: Self)
        ensures
            r@ == self@,
    {
        proof {
            use_type_invariant(self);
        }
        let mut states: Vec<(ModelId, CandidateState)> = Vec::new();
        let mut i: usize = 0;
        while i < self.states.len()
            invariant
                i <= self.states.len(),
                states@.len() == i,
                forall|j: int|
                    0 <= j < i ==> (#[trigger] states@[j]).0@ == self.states@[j].0@ && states@[j].1
                        == self.states@[j].1,
            decreases self.states.len() - i,
        {
            states.push((text::copy_str(self.states[i].0.as_str()), self.states[i].1));
            i = i + 1;
        }
        proof {
            assert(entries_view(states@) =~= entries_view(self.states@));
        }
        FleetSnapshot { states }
    }
}

/// The text of the error for a repeated snapshot key.
pub open spec fn repeated_key_text(key: Seq<char>) -> Seq<char> {
    "fleet snapshot key "@ + text::debug_text(key) + " appears more than once"@
}

/// Entry `i` is the first to repeat the target of an earlier one.
pub open spec fn first_repeat(entries: Entries, i: int) -> bool {
    &&& 0 <= i < entries.len()
    &&& distinct_targets(entries.take(i))
    &&& exists|j: int| 0 <= j < i && (#[trigger] entries[j]).0 == entries[i].0
}

impl FleetSnapshot {
    /// No target has two entries.
    #[verifier::type_invariant]
    pub closed spec fn inv(&self) -> bool {
        distinct_targets(entries_view(self.states@))
    }

    /// Builds a snapshot from per-target readiness entries.
    ///
    /// # Errors
    ///
    /// Where a target repeats: the error names the first that does.
    pub fn new(states: Vec<(ModelId, CandidateState)>) -> (r: Result<Self, LibsyError>)
        ensures
            match r {
                Ok(snapshot) => {
                    &&& distinct_targets(entries_view(states@))
                    &&& snapshot@ == entries_view(states@)
                },
                Err(e) => exists|i: int| #[trigger]
                    first_repeat(entries_view(states@), i) && e@ == repeated_key_text(
                        states@[i].0@,
                    ),
            },
    {
        let ghost entries = entries_view(states@);
        let mut i: usize = 0;
        while i < states.len()
            invariant
                i <= states.len(),
                entries == entries_view(states@),
                distinct_targets(entries.take(i as int)),
            decreases states.len() - i,
        {
            let mut j: usize = 0;
            while j < i
                invariant
                    j <= i < states.len(),
                    entries == entries_view(states@),
                    distinct_targets(entries.take(i as int)),
                    forall|k: int| 0 <= k < j ==> (#[trigger] entries[k]).0 != entries[i as int].0,
                decreases i - j,
            {
                if text::str_eq(states[j].0.as_str(), states[i].0.as_str()) {
                    proof {
                        assert(entries[j as int].0 == entries[i as int].0);
                        assert(first_repeat(entries, i as int));
                    }
                    let quoted = text::quoted(states[i].0.as_str());
                    return Err(
                        LibsyError::AlgorithmError {
                            message: text::join3(
                                "fleet snapshot key ",
                                quoted.as_str(),
                                " appears more than once",
                            ),
                        },
                    );
                }
                j = j + 1;
            }
            proof {
                let next = entries.take(i + 1);
                assert forall|a: int, b: int| 0 <= a < b < next.len() implies (#[trigger] next[a]).0
                    != (#[trigger] next[b]).0 by {
                    assert(next[a] == entries[a]);
                    if b < i {
                        assert(entries.take(i as int)[a] == next[a]);
                        assert(entries.take(i as int)[b] == next[b]);
                    }
                }
            }
            i = i + 1;
        }
        proof {
            assert(entries.take(entries.len() as int) =~= entries);
        }
        Ok(FleetSnapshot { states })
    }

    /// The readiness of `target`, or not ready where the snapshot has none.
    pub fn state_for(&self, target: &ModelId) -> (r: CandidateState)
        ensures
            r == state_in(self@, target@),
    {
        let ghost entries = entries_view(self.states@);
        let mut i: usize = 0;
        while i < self.states.len()
            invariant
                i <= self.states.len(),
                entries == entries_view(self.states@),
                forall|k: int| 0 <= k < i ==> (#[trigger] entries[k]).0 != target@,
            decreases self.states.len() - i,
        {
            if text::str_eq(self.states[i].0.as_str(), target.as_str()) {
                proof {
                    state_at(entries, target@, i as int);
                }
                return self.states[i].1;
            }
            i = i + 1;
        }
        proof {
            missing_state_is_not_ready(entries, target@);
        }
        CandidateState { ready: false, transition_required: false }
    }
}

/// What is wrong with one profile taken alone, as the text of an error.
pub open spec fn profile_fault(profile: CandidateProfile) -> Option<Seq<char>> {
    let name = "fleet router candidate "@ + text::debug_text(profile.target@);
    match profile.context_policy {
        ContextAdmissionPolicy::Bounded { usable_context_tokens } if usable_context_tokens == 0 => Some(
            name
                + " has an invalid zero usable_context_tokens; a bounded context policy must declare a positive usable capacity"@,
        ),
        ContextAdmissionPolicy::Bounded { usable_context_tokens } if profile.usable_context_tokens
            is Some && profile.usable_context_tokens->0 != usable_context_tokens => Some(
            name + " has a static usable_context_tokens ("@ + text::decimal(
                profile.usable_context_tokens->0 as nat,
            ) + ") that disagrees with its Bounded context-policy capacity ("@ + text::decimal(
                usable_context_tokens as nat,
            ) + "); they must be equal"@,
        ),
        _ => if profile.usable_context_tokens == Some(0u64) {
            Some(
                name
                    + " has an invalid zero static usable_context_tokens; a configured capacity must be positive"@,
            )
        } else {
            None
        },
    }
}

/// What is wrong at profile `i`: a fault of its own, or a later profile of the
/// same target.
pub open spec fn fault_at(profiles: Seq<CandidateProfile>, i: int) -> Option<Seq<char>> {
    let own = profile_fault(profiles[i]);
    if own is Some {
        own
    } else if exists|j: int|
        i < j < profiles.len() && (#[trigger] profiles[j]).target@ == profiles[i].target@ {
        Some(
            "fleet router profiles must not repeat target "@ + text::debug_text(
                profiles[i].target@,
            ),
        )
    } else {
        None
    }
}

/// Profile `i` is the first at which something is wrong.
pub open spec fn first_fault(profiles: Seq<CandidateProfile>, i: int) -> bool {
    &&& 0 <= i < profiles.len()
    &&& fault_at(profiles, i) is Some
    &&& forall|j: int| 0 <= j < i ==> (#[trigger] fault_at(profiles, j)) is None
}

/// A usable profile set: there is one, nothing is wrong with any of them.
pub open spec fn valid_profiles(profiles: Seq<CandidateProfile>) -> bool {
    &&& profiles.len() > 0
    &&& forall|i: int| 0 <= i < profiles.len() ==> (#[trigger] fault_at(profiles, i)) is None
}

/// How a profile set fails validation: the text of the error.
pub open spec fn rejected_with(profiles: Seq<CandidateProfile>, e: Seq<char>) -> bool {
    if profiles.len() == 0 {
        e == "fleet router requires at least one candidate profile"@
    } else {
        exists|i: int| #[trigger] first_fault(profiles, i) && e == fault_at(profiles, i)->0
    }
}

/// A profile set is valid exactly where it is not empty, no target repeats, and
/// every declared capacity is positive and agrees with the bounded policy's.
pub proof fn validity_in_plain_terms(profiles: Seq<CandidateProfile>)
    ensures
        valid_profiles(profiles) <==> {
            &&& profiles.len() > 0
            &&& forall|i: int, j: int|
                0 <= i < j < profiles.len() ==> (#[trigger] profiles[i]).target@ != (
                #[trigger] profiles[j]).target@
            &&& forall|i: int|
                0 <= i < profiles.len() ==> {
                    let p = #[trigger] profiles[i];
                    &&& p.usable_context_tokens is Some ==> p.usable_context_tokens->0 > 0
                    &&& p.context_policy is Bounded ==> p.context_policy->usable_context_tokens > 0
                    &&& p.context_policy is Bounded && p.usable_context_tokens is Some
                        ==> p.usable_context_tokens->0 == p.context_policy->usable_context_tokens
                }
        },
{
    if valid_profiles(profiles) {
        assert forall|i: int, j: int| 0 <= i < j < profiles.len() implies (
        #[trigger] profiles[i]).target@ != (#[trigger] profiles[j]).target@ by {
            assert(fault_at(profiles, i) is None);
        }
        assert forall|i: int| 0 <= i < profiles.len() implies {
            let p = #[trigger] profiles[i];
            &&& p.usable_context_tokens is Some ==> p.usable_context_tokens->0 > 0
            &&& p.context_policy is Bounded ==> p.context_policy->usable_context_tokens > 0
            &&& p.context_policy is Bounded && p.usable_context_tokens is Some
                ==> p.usable_context_tokens->0 == p.context_policy->usable_context_tokens
        } by {
            assert(fault_at(profiles, i) is None);
        }
    }
}

/// Checks the invariants of a candidate profile set.
///
/// # Errors
///
/// Where the set is empty, a bounded capacity is zero or disagrees with the
/// static capacity, a static capacity is zero, or a target repeats: the error
/// tells of the first profile at which one of these holds.
pub fn validate_profiles(profiles: &Vec<CandidateProfile>) -> (r: Result<(), LibsyError>)
    ensures
        match r {
            Ok(_) => valid_profiles(profiles@),
            Err(e) => rejected_with(profiles@, e@),
        },
{
    if profiles.len() == 0 {
        return Err(
            LibsyError::AlgorithmError {
                message: text::copy_str("fleet router requires at least one candidate profile"),
            },
        );
    }
    let mut i: usize = 0;
    while i < profiles.len()
        invariant
            i <= profiles.len(),
            profiles@.len() > 0,
            forall|j: int| 0 <= j < i ==> (#[trigger] fault_at(profiles@, j)) is None,
        decreases profiles.len() - i,
    {
        let profile = &profiles[i];
        match own_fault(profile) {
            Some(message) => {
                proof {
                    assert(first_fault(profiles@, i as int));
                }
                return Err(LibsyError::AlgorithmError { message });
            },
            None => {},
        }
        let mut j: usize = i + 1;
        while j < profiles.len()
            invariant
                i < j <= profiles.len(),
                profile_fault(profiles@[i as int]) is None,
                forall|k: int| 0 <= k < i ==> (#[trigger] fault_at(profiles@, k)) is None,
                forall|k: int|
                    i < k < j ==> (#[trigger] profiles@[k]).target@ != profiles@[i as int].target@,
            decreases profiles.len() - j,
        {
            if text::str_eq(profiles[i].target.as_str(), profiles[j].target.as_str()) {
                proof {
                    assert(profiles@[j as int].target@ == profiles@[i as int].target@);
                    assert(first_fault(profiles@, i as int));
                }
                let quoted = text::quoted(profiles[i].target.as_str());
                let mut message = text::copy_str("fleet router profiles must not repeat target ");
                message.append(quoted.as_str());
                return Err(LibsyError::AlgorithmError { message });
            }
            j = j + 1;
        }
        i = i + 1;
    }
    Ok(())
}

fn own_fault(profile: &CandidateProfile) -> (r: Option<String>)
    ensures
        text::opt_text(r) == profile_fault(*profile),
{
    let quoted = text::quoted(profile.target.as_str());
    let mut message = text::copy_str("fleet router candidate ");
    message.append(quoted.as_str());
    if let ContextAdmissionPolicy::Bounded { usable_context_tokens } = profile.context_policy {
        if usable_context_tokens == 0 {
            message.append(
                " has an invalid zero usable_context_tokens; a bounded context policy must declare a positive usable capacity",
            );
            return Some(message);
        }
        if let Some(capacity) = profile.usable_context_tokens {
            if capacity != usable_context_tokens {
                message.append(" has a static usable_context_tokens (");
                text::push_decimal(&mut message, capacity);
                message.append(") that disagrees with its Bounded context-policy capacity (");
                text::push_decimal(&mut message, usable_context_tokens);
                message.append("); they must be equal");
                return Some(message);
            }
        }
    }
    if let Some(capacity) = profile.usable_context_tokens {
        if capacity == 0 {
            message.append(
                " has an invalid zero static usable_context_tokens; a configured capacity must be positive",
            );
            return Some(message);
        }
    }
    None
}

/// Produces one coherent [`FleetSnapshot`] synchronously.
///
/// An external fact producer updates the source outside the routing path; a
/// routing decision reads it once.
pub trait FleetStateSource: Send + Sync {
    /// Whether the source may report a snapshot of these entries.
    spec fn may_report(&self, entries: Entries) -> bool;

    /// The current coherent fleet readiness snapshot.
    fn snapshot(&self) -> (r: Arc<FleetSnapshot>)
        ensures
            self.may_report(r@),
    ;
}

/// A fixed readiness source returning the same snapshot every decision.
#[derive(Clone, Debug)]
pub struct StaticFleetState {
    snapshot: Arc<FleetSnapshot>,
}

impl StaticFleetState {
    /// The entries that the source reports.
    pub closed spec fn entries(&self) -> Entries {
        self.snapshot@
    }

    /// A source that always reports `snapshot`.
    pub fn new(snapshot: FleetSnapshot) -> (r: Self)
        ensures
            r.entries() == snapshot@,
    {
        StaticFleetState { snapshot: Arc::new(snapshot) }
    }
}

impl FleetStateSource for StaticFleetState {
    open spec fn may_report(&self, entries: Entries) -> bool {
        entries == self.entries()
    }

    fn snapshot(&self) -> (r: Arc<FleetSnapshot>) {
        Arc::clone(&self.snapshot)
    }
}

/// `parking_lot`'s raw reader-writer lock.
#[verifier::external_type_specification]
#[verifier::external_body]
pub struct ExRawRwLock(parking_lot::RawRwLock);

/// `lock_api`'s reader-writer lock, of which `parking_lot::RwLock` is an instance.
#[verifier::external_type_specification]
#[verifier::external_body]
#[verifier::reject_recursive_types(R)]
#[verifier::reject_recursive_types(T)]
pub struct ExRwLock<R, T: ?Sized>(parking_lot::lock_api::RwLock<R, T>);

/// Calls `parking_lot::RwLock::new`. Nothing is claimed of the lock: what it
/// holds later depends on its writers.
#[verifier::external_body]
fn lock_over(snapshot: Arc<FleetSnapshot>) -> parking_lot::RwLock<Arc<FleetSnapshot>> {
    parking_lot::RwLock::new(snapshot)
}

/// Calls `parking_lot::RwLock::read` and shares the snapshot that it guards.
/// Nothing is claimed of which: it is what some writer last stored.
#[verifier::external_body]
fn lock_read(lock: &parking_lot::RwLock<Arc<FleetSnapshot>>) -> Arc<FleetSnapshot> {
    Arc::clone(&lock.read())
}

/// Calls `parking_lot::RwLock::write` and stores a snapshot. Nothing is claimed
/// of later reads: another writer may come between.
#[verifier::external_body]
fn lock_write(lock: &parking_lot::RwLock<Arc<FleetSnapshot>>, snapshot: Arc<FleetSnapshot>) {
    *lock.write() = snapshot;
}

/// A readiness source whose whole snapshot an external writer replaces
/// atomically between decisions. What it reports depends on its writers.
#[derive(Clone, Debug)]
pub struct SharedFleetState {
    current: Arc<parking_lot::RwLock<Arc<FleetSnapshot>>>,
}

impl SharedFleetState {
    /// A source initially reporting `snapshot`.
    pub fn new(snapshot: FleetSnapshot) -> Self {
        SharedFleetState { current: Arc::new(lock_over(Arc::new(snapshot))) }
    }

    /// Atomically replaces the whole fleet snapshot.
    pub fn set(&self, snapshot: FleetSnapshot) {
        lock_write(&self.current, Arc::new(snapshot));
    }
}

impl FleetStateSource for SharedFleetState {
    open spec fn may_report(&self, entries: Entries) -> bool {
        distinct_targets(entries)
    }

    fn snapshot(&self) -> (r: Arc<FleetSnapshot>) {
        let r = lock_read(&self.current);
        proof {
            use_type_invariant(&*r);
        }
        r
    }
}

/// A history-free fleet router with injected readiness state.
#[derive(Debug)]
pub struct FleetRouter<S> {
    pub profiles: Vec<CandidateProfile>,
    /// Injected coherent readiness source.
    pub state: Arc<S>,
    /// How the router learns a request's declared work shape.
    pub work_shape_source: WorkShapeSource,
}

/// The work shape that a request declares in `work_shape`, else in the legacy
/// `work_class`. Legacy `reasoning` declares no shape.
pub open spec fn shape_declared(source: WorkShapeSource, request: Request) -> Option<WorkShape> {
    let shape = text_of(extension(request, "work_shape"@));
    let class = text_of(extension(request, "work_class"@));
    if source != WorkShapeSource::Request {
        None
    } else if shape is Some && text::lower(shape->0) == "bounded"@ {
        Some(WorkShape::Bounded)
    } else if shape is Some && text::lower(shape->0) == "agentic"@ {
        Some(WorkShape::Agentic)
    } else if class is Some && text::lower(class->0) == "bounded"@ {
        Some(WorkShape::Bounded)
    } else if class is Some && text::lower(class->0) == "agentic"@ {
        Some(WorkShape::Agentic)
    } else {
        None
    }
}

/// The legacy `work_class` asks for reasoning.
pub open spec fn legacy_reasoning(source: WorkShapeSource, request: Request) -> bool {
    let class = text_of(extension(request, "work_class"@));
    source == WorkShapeSource::Request && class is Some && text::lower(class->0) == "reasoning"@
}

/// The minimum usable context that a request declares, or the text of the error.
pub open spec fn min_context_declared(request: Request) -> Result<Option<u64>, Seq<char>> {
    match extension(request, "min_context_tokens"@) {
        None => Ok(None),
        Some(value) => match unsigned_of(Some(value)) {
            None => Err(
                "declared min_context_tokens must be a positive integer, got "@ + json_text(value),
            ),
            Some(n) => if n == 0 {
                Err("declared min_context_tokens must be positive (zero is invalid)"@)
            } else {
                Ok(Some(n))
            },
        },
    }
}

/// A reasoning effort other than `none` asks for reasoning.
pub open spec fn effort_asks_reasoning(effort: Option<Seq<char>>) -> bool {
    effort is Some && effort->0 != "none"@
}

/// The capacity that a profile is known to have.
pub open spec fn known_capacity(profile: CandidateProfile) -> Option<u64> {
    match profile.usable_context_tokens {
        Some(capacity) => Some(capacity),
        None => match profile.context_policy {
            ContextAdmissionPolicy::Bounded { usable_context_tokens } => Some(
                usable_context_tokens,
            ),
            ContextAdmissionPolicy::Unmanaged => None,
        },
    }
}

/// The count recorded first for a target.
pub open spec fn tokens_for(counts: Seq<(ModelId, u64)>, target: Seq<char>) -> Option<u64>
    decreases counts.len(),
{
    if counts.len() == 0 {
        None
    } else if counts[0].0@ == target {
        Some(counts[0].1)
    } else {
        tokens_for(counts.drop_first(), target)
    }
}

/// A bounded policy admits a request of known input and output size that fits.
pub open spec fn fits_context(
    policy: ContextAdmissionPolicy,
    input: Option<u64>,
    output: Option<u64>,
) -> bool {
    match policy {
        ContextAdmissionPolicy::Unmanaged => true,
        ContextAdmissionPolicy::Bounded { usable_context_tokens } => input is Some && output is Some
            && input->0 + output->0 <= usable_context_tokens,
    }
}

/// A candidate may serve a request: capabilities, work shape, minimum context,
/// readiness and context fit all hold.
pub open spec fn admits(
    profile: CandidateProfile,
    entries: Entries,
    source: WorkShapeSource,
    request: Request,
    min_context: Option<u64>,
) -> bool {
    &&& request.tools@.len() > 0 ==> profile.tool_calling
    &&& effort_asks_reasoning(text::opt_text(request.reasoning.effort)) || legacy_reasoning(
        source,
        request,
    ) ==> profile.reasoning
    &&& any_image(request.messages@) ==> profile.supports_vision
    &&& shape_declared(source, request) is Some && profile.work_shape is Some
        ==> profile.work_shape == shape_declared(source, request)
    &&& min_context is Some ==> known_capacity(profile) is Some && known_capacity(profile)->0
        >= min_context->0
    &&& usable_now(state_in(entries, profile.target@))
    &&& fits_context(
        profile.context_policy,
        tokens_for(request.candidate_input_tokens@, profile.target@),
        request.max_output_tokens,
    )
}

/// Profile `i` ranks before profile `j`: by preference rank, then target id,
/// then place.
pub open spec fn precedes(profiles: Seq<CandidateProfile>, i: int, j: int) -> bool {
    let a = profiles[i];
    let b = profiles[j];
    if a.preference_rank != b.preference_rank {
        a.preference_rank < b.preference_rank
    } else if a.target@ != b.target@ {
        text::text_before(a.target@, b.target@)
    } else {
        i < j
    }
}

/// `order` lists the profiles that satisfy `ok`, each once, in rank order.
pub open spec fn is_ranking(
    profiles: Seq<CandidateProfile>,
    ok: spec_fn(int) -> bool,
    order: Seq<int>,
) -> bool {
    &&& forall|k: int|
        0 <= k < order.len() ==> 0 <= #[trigger] order[k] < profiles.len() && ok(order[k])
    &&& forall|i: int| 0 <= i < profiles.len() && #[trigger] ok(i) ==> order.contains(i)
    &&& forall|k: int, l: int|
        0 <= k < l < order.len() ==> precedes(profiles, #[trigger] order[k], #[trigger] order[l])
}

/// Which profiles may serve a request.
pub open spec fn admitted(
    profiles: Seq<CandidateProfile>,
    entries: Entries,
    source: WorkShapeSource,
    request: Request,
    min_context: Option<u64>,
) -> spec_fn(int) -> bool {
    |i: int|
        0 <= i < profiles.len() && admits(profiles[i], entries, source, request, min_context)
}

/// The outcome of a decision: the ids of the admitted candidates in rank order,
/// the first selected and the rest as fallbacks; or the text of the error.
pub open spec fn decides(
    profiles: Seq<CandidateProfile>,
    entries: Entries,
    source: WorkShapeSource,
    request: Request,
    r: Result<(ModelId, Vec<ModelId>), LibsyError>,
) -> bool {
    match min_context_declared(request) {
        Err(text) => r is Err && r->Err_0@ == text,
        Ok(min_context) => {
            let ok = admitted(profiles, entries, source, request, min_context);
            match r {
                Ok((selected, fallbacks)) => exists|order: Seq<int>|
                    {
                        &&& #[trigger] is_ranking(profiles, ok, order)
                        &&& order.len() == 1 + fallbacks@.len()
                        &&& selected@ == profiles[order[0]].target@
                        &&& forall|k: int|
                            0 <= k < fallbacks@.len() ==> (#[trigger] fallbacks@[k])@
                                == profiles[order[k + 1]].target@
                    },
                Err(e) => {
                    &&& forall|i: int| 0 <= i < profiles.len() ==> !(#[trigger] ok(i))
                    &&& e@
                        == "fleet router found no immediately-eligible candidate for this request"@
                },
            }
        },
    }
}

proof fn precedes_total(profiles: Seq<CandidateProfile>, i: int, j: int)
    requires
        i != j,
        !precedes(profiles, i, j),
    ensures
        precedes(profiles, j, i),
{
    text::text_before_total(profiles[i].target@, profiles[j].target@);
}

proof fn precedes_asymmetric(profiles: Seq<CandidateProfile>, i: int, j: int)
    requires
        precedes(profiles, i, j),
    ensures
        !precedes(profiles, j, i),
{
    let a = profiles[i].target@;
    let b = profiles[j].target@;
    if profiles[i].preference_rank == profiles[j].preference_rank && a != b && text::text_before(
        b,
        a,
    ) {
        text::text_before_transitive(a, b, a);
        text::text_before_irreflexive(a);
    }
}

proof fn precedes_transitive(profiles: Seq<CandidateProfile>, i: int, j: int, k: int)
    requires
        precedes(profiles, i, j),
        precedes(profiles, j, k),
    ensures
        precedes(profiles, i, k),
{
    let a = profiles[i].target@;
    let b = profiles[j].target@;
    let c = profiles[k].target@;
    if profiles[i].preference_rank == profiles[j].preference_rank
        && profiles[j].preference_rank == profiles[k].preference_rank {
        if a != b && b != c {
            text::text_before_transitive(a, b, c);
            text::text_before_irreflexive(a);
        }
    }
}

/// A request, profile set and snapshot have one ranking: repeating them gives
/// the same decision.
pub proof fn ranking_is_unique(
    profiles: Seq<CandidateProfile>,
    ok: spec_fn(int) -> bool,
    a: Seq<int>,
    b: Seq<int>,
)
    requires
        is_ranking(profiles, ok, a),
        is_ranking(profiles, ok, b),
    ensures
        a == b,
{
    assert forall|k: int| 0 <= k < a.len() && 0 <= k < b.len() implies a[k] == b[k] by {
        rankings_agree_at(profiles, ok, a, b, k);
    }
    if a.len() <= b.len() {
        ranking_has_no_tail(profiles, ok, a, b);
    } else {
        ranking_has_no_tail(profiles, ok, b, a);
    }
    assert(a =~= b);
}

proof fn ranking_has_no_tail(
    profiles: Seq<CandidateProfile>,
    ok: spec_fn(int) -> bool,
    a: Seq<int>,
    b: Seq<int>,
)
    requires
        is_ranking(profiles, ok, a),
        is_ranking(profiles, ok, b),
        a.len() <= b.len(),
        forall|k: int| 0 <= k < a.len() ==> a[k] == b[k],
    ensures
        a.len() == b.len(),
{
    if a.len() < b.len() {
        let extra = b[a.len() as int];
        assert(ok(extra));
        assert(a.contains(extra));
        let k = choose|k: int| 0 <= k < a.len() && a[k] == extra;
        assert(precedes(profiles, b[k], b[a.len() as int]));
        precedes_asymmetric(profiles, b[k], b[a.len() as int]);
    }
}

proof fn rankings_agree_at(
    profiles: Seq<CandidateProfile>,
    ok: spec_fn(int) -> bool,
    a: Seq<int>,
    b: Seq<int>,
    k: int,
)
    requires
        is_ranking(profiles, ok, a),
        is_ranking(profiles, ok, b),
        0 <= k < a.len(),
        0 <= k < b.len(),
    ensures
        a[k] == b[k],
    decreases k,
{
    assert forall|m: int| 0 <= m < k implies a[m] == b[m] by {
        rankings_agree_at(profiles, ok, a, b, m);
    }
    if a[k] != b[k] {
        assert(ok(a[k]) && ok(b[k]));
        assert(b.contains(a[k]) && a.contains(b[k]));
        let p = choose|p: int| 0 <= p < b.len() && b[p] == a[k];
        let q = choose|q: int| 0 <= q < a.len() && a[q] == b[k];
        if p < k {
            assert(a[p] == b[p]);
            assert(precedes(profiles, a[p], a[k]));
            precedes_asymmetric(profiles, a[p], a[k]);
        } else if q < k {
            assert(a[q] == b[q]);
            assert(precedes(profiles, b[q], b[k]));
            precedes_asymmetric(profiles, b[q], b[k]);
        } else {
            assert(precedes(profiles, b[k], b[p]));
            assert(precedes(profiles, a[k], a[q]));
            precedes_asymmetric(profiles, a[k], a[q]);
        }
    }
}

/// Whether a reasoning effort asks for a reasoning-capable target.
pub fn reasoning_requested(effort: &Option<String>) -> (r: bool)
    ensures
        r == effort_asks_reasoning(text::opt_text(*effort)),
{
    match effort {
        Some(effort) => !text::str_eq(effort.as_str(), "none"),
        None => false,
    }
}

/// Whether a message of the request carries an image.
pub fn request_requires_vision(request: &Request) -> (r: bool)
    ensures
        r == any_image(request.messages@),
{
    messages_hold_image(&request.messages)
}

proof fn tokens_at(counts: Seq<(ModelId, u64)>, target: Seq<char>, i: int)
    requires
        0 <= i < counts.len(),
        counts[i].0@ == target,
        forall|j: int| 0 <= j < i ==> (#[trigger] counts[j]).0@ != target,
    ensures
        tokens_for(counts, target) == Some(counts[i].1),
    decreases counts.len(),
{
    if i > 0 {
        let rest = counts.drop_first();
        assert forall|j: int| 0 <= j < i - 1 implies (#[trigger] rest[j]).0@ != target by {
            assert(rest[j] == counts[j + 1]);
        }
        tokens_at(rest, target, i - 1);
    }
}

proof fn tokens_absent(counts: Seq<(ModelId, u64)>, target: Seq<char>)
    requires
        forall|j: int| 0 <= j < counts.len() ==> (#[trigger] counts[j]).0@ != target,
    ensures
        tokens_for(counts, target) is None,
    decreases counts.len(),
{
    if counts.len() > 0 {
        let rest = counts.drop_first();
        assert forall|j: int| 0 <= j < rest.len() implies (#[trigger] rest[j]).0@ != target by {
            assert(rest[j] == counts[j + 1]);
        }
        tokens_absent(rest, target);
    }
}

fn input_tokens(request: &Request, target: &ModelId) -> (r: Option<u64>)
    ensures
        r == tokens_for(request.candidate_input_tokens@, target@),
{
    let counts = &request.candidate_input_tokens;
    let mut i: usize = 0;
    while i < counts.len()
        invariant
            i <= counts.len(),
            counts@ == request.candidate_input_tokens@,
            forall|k: int| 0 <= k < i ==> (#[trigger] counts@[k]).0@ != target@,
        decreases counts.len() - i,
    {
        if text::str_eq(counts[i].0.as_str(), target.as_str()) {
            proof {
                tokens_at(counts@, target@, i as int);
            }
            return Some(counts[i].1);
        }
        i = i + 1;
    }
    proof {
        tokens_absent(counts@, target@);
    }
    None
}

/// The text of the error for a state key without a profile.
pub open spec fn unmatched_key_text(key: Seq<char>) -> Seq<char> {
    "fleet router state key "@ + text::debug_text(key) + " has no matching candidate profile"@
}

/// Some profile has this target.
pub open spec fn has_profile(profiles: Seq<CandidateProfile>, target: Seq<char>) -> bool {
    exists|i: int| 0 <= i < profiles.len() && (#[trigger] profiles[i]).target@ == target
}

/// Entry `i` is the first whose target has no profile.
pub open spec fn first_unmatched(
    profiles: Seq<CandidateProfile>,
    entries: Entries,
    i: int,
) -> bool {
    &&& 0 <= i < entries.len()
    &&& !has_profile(profiles, entries[i].0)
    &&& forall|j: int| 0 <= j < i ==> has_profile(profiles, (#[trigger] entries[j]).0)
}

fn profile_exists(profiles: &Vec<CandidateProfile>, target: &str) -> (r: bool)
    ensures
        r == has_profile(profiles@, target@),
{
    let mut i: usize = 0;
    while i < profiles.len()
        invariant
            i <= profiles.len(),
            forall|j: int| 0 <= j < i ==> (#[trigger] profiles@[j]).target@ != target@,
        decreases profiles.len() - i,
    {
        if text::str_eq(profiles[i].target.as_str(), target) {
            assert(profiles@[i as int].target@ == target@);
            return true;
        }
        i = i + 1;
    }
    false
}

impl FleetRouter<StaticFleetState> {
    /// A router over static profiles and a fixed readiness state.
    ///
    /// # Errors
    ///
    /// Where the profiles are invalid, a state key repeats, or a state key has no
    /// matching profile; the first of these, in that order, is reported.
    pub fn new(profiles: Vec<CandidateProfile>, state: Vec<(ModelId, CandidateState)>) -> (r: Result<
        Self,
        LibsyError,
    >)
        ensures
            match r {
                Ok(router) => {
                    let entries = entries_view(state@);
                    &&& valid_profiles(profiles@)
                    &&& distinct_targets(entries)
                    &&& forall|i: int|
                        0 <= i < entries.len() ==> has_profile(
                            profiles@,
                            (#[trigger] entries[i]).0,
                        )
                    &&& router.profiles == profiles
                    &&& router.work_shape_source == WorkShapeSource::Unfiltered
                    &&& forall|e: Entries| #[trigger] router.state.may_report(e) <==> e == entries
                },
                Err(e) => {
                    let entries = entries_view(state@);
                    if !valid_profiles(profiles@) {
                        rejected_with(profiles@, e@)
                    } else if !distinct_targets(entries) {
                        exists|i: int| #[trigger]
                            first_repeat(entries, i) && e@ == repeated_key_text(entries[i].0)
                    } else {
                        exists|i: int| #[trigger]
                            first_unmatched(profiles@, entries, i) && e@ == unmatched_key_text(
                                entries[i].0,
                            )
                    }
                },
            },
    {
        let ghost entries = entries_view(state@);
        match validate_profiles(&profiles) {
            Ok(_) => {},
            Err(e) => {
                proof {
                    rejection_means_invalid(profiles@, e@);
                }
                return Err(e);
            },
        }
        let snapshot = match FleetSnapshot::new(state) {
            Ok(snapshot) => snapshot,
            Err(e) => {
                proof {
                    let i = choose|i: int| #[trigger]
                        first_repeat(entries, i) && e@ == repeated_key_text(state@[i].0@);
                    let j = choose|j: int| 0 <= j < i && (#[trigger] entries[j]).0 == entries[i].0;
                    assert(entries[j].0 == entries[i].0);
                    assert(!distinct_targets(entries));
                }
                return Err(e);
            },
        };
        let mut i: usize = 0;
        while i < snapshot.states.len()
            invariant
                i <= snapshot.states.len(),
                snapshot@ == entries,
                valid_profiles(profiles@),
                distinct_targets(entries),
                entries == entries_view(state@),
                forall|j: int| 0 <= j < i ==> has_profile(profiles@, (#[trigger] entries[j]).0),
            decreases snapshot.states.len() - i,
        {
            if !profile_exists(&profiles, snapshot.states[i].0.as_str()) {
                proof {
                    assert(entries[i as int].0 == snapshot.states@[i as int].0@);
                    assert(first_unmatched(profiles@, entries, i as int));
                }
                let quoted = text::quoted(snapshot.states[i].0.as_str());
                return Err(
                    LibsyError::AlgorithmError {
                        message: text::join3(
                            "fleet router state key ",
                            quoted.as_str(),
                            " has no matching candidate profile",
                        ),
                    },
                );
            }
            assert(entries[i as int].0 == snapshot.states@[i as int].0@);
            i = i + 1;
        }
        let source = Arc::new(StaticFleetState::new(snapshot));
        Ok(
            FleetRouter {
                profiles,
                state: source,
                work_shape_source: WorkShapeSource::Unfiltered,
            },
        )
    }

}

impl<S: FleetStateSource> FleetRouter<S> {
    /// A router over static profiles and a readiness source that is read once per
    /// decision. Only the profiles are validated: a snapshot key without a
    /// profile is never selected.
    ///
    /// # Errors
    ///
    /// Where the profiles are invalid.
    pub fn with_source(profiles: Vec<CandidateProfile>, state: Arc<S>) -> (r:
        Result<Self, LibsyError>)
        ensures
            match r {
                Ok(router) => {
                    &&& valid_profiles(profiles@)
                    &&& router == (FleetRouter {
                        profiles,
                        state,
                        work_shape_source: WorkShapeSource::Unfiltered,
                    })
                },
                Err(e) => !valid_profiles(profiles@) && rejected_with(profiles@, e@),
            },
    {
        match validate_profiles(&profiles) {
            Ok(_) => Ok(
                FleetRouter { profiles, state, work_shape_source: WorkShapeSource::Unfiltered },
            ),
            Err(e) => {
                proof {
                    rejection_means_invalid(profiles@, e@);
                }
                Err(e)
            },
        }
    }

    /// Has the router read the declared work shape from request metadata.
    pub fn with_request_work_shape(self) -> (r: Self)
        ensures
            r == (FleetRouter { work_shape_source: WorkShapeSource::Request, ..self }),
    {
        FleetRouter {
            profiles: self.profiles,
            state: self.state,
            work_shape_source: WorkShapeSource::Request,
        }
    }

    /// The algorithm's name.
    pub fn name(&self) -> (r: &'static str)
        ensures
            r@ == "fleet_router"@,
    {
        "fleet_router"
    }

    /// The work shape that the request declares in structured metadata.
    pub fn declared_work_shape(&self, request: &Request) -> (r: Option<WorkShape>)
        ensures
            r == shape_declared(self.work_shape_source, *request),
    {
        if self.work_shape_source != WorkShapeSource::Request {
            return None;
        }
        if let Some(shape) = request.extension_text("work_shape") {
            let shape = text::to_lower(shape);
            if text::str_eq(shape.as_str(), "bounded") {
                return Some(WorkShape::Bounded);
            }
            if text::str_eq(shape.as_str(), "agentic") {
                return Some(WorkShape::Agentic);
            }
        }
        if let Some(class) = request.extension_text("work_class") {
            let class = text::to_lower(class);
            if text::str_eq(class.as_str(), "bounded") {
                return Some(WorkShape::Bounded);
            }
            if text::str_eq(class.as_str(), "agentic") {
                return Some(WorkShape::Agentic);
            }
        }
        None
    }

    /// Whether the legacy `work_class` asks for reasoning.
    pub fn declared_legacy_reasoning(&self, request: &Request) -> (r: bool)
        ensures
            r == legacy_reasoning(self.work_shape_source, *request),
    {
        if self.work_shape_source != WorkShapeSource::Request {
            return false;
        }
        match request.extension_text("work_class") {
            Some(class) => {
                let class = text::to_lower(class);
                text::str_eq(class.as_str(), "reasoning")
            },
            None => false,
        }
    }

    /// The minimum usable context that the request declares.
    ///
    /// # Errors
    ///
    /// Where the declared value is not a positive integer of 64 bits.
    pub fn declared_min_context_tokens(&self, request: &Request) -> (r: Result<
        Option<u64>,
        LibsyError,
    >)
        ensures
            match r {
                Ok(n) => min_context_declared(*request) == Ok::<Option<u64>, Seq<char>>(n),
                Err(e) => min_context_declared(*request) == Err::<Option<u64>, Seq<char>>(e@),
            },
    {
        let value = match request.extension_field("min_context_tokens") {
            Some(value) => value,
            None => {
                return Ok(None);
            },
        };
        match value.as_u64() {
            None => {
                let shown = to_text(value);
                let mut message = text::copy_str(
                    "declared min_context_tokens must be a positive integer, got ",
                );
                message.append(shown.as_str());
                Err(LibsyError::AlgorithmError { message })
            },
            Some(n) => {
                if n == 0 {
                    Err(
                        LibsyError::AlgorithmError {
                            message: text::copy_str(
                                "declared min_context_tokens must be positive (zero is invalid)",
                            ),
                        },
                    )
                } else {
                    Ok(Some(n))
                }
            },
        }
    }

    /// Minimum-context eligibility of one candidate. Unknown capacity fails a
    /// declared requirement.
    pub fn min_context_eligible(profile: &CandidateProfile, declared: Option<u64>) -> (r: bool)
        ensures
            r == (declared is Some ==> known_capacity(*profile) is Some && known_capacity(
                *profile,
            )->0 >= declared->0),
    {
        let min: u64 = match declared {
            Some(min) => min,
            None => {
                return true;
            },
        };
        match profile.usable_context_tokens {
            Some(capacity) => capacity >= min,
            None => match profile.context_policy {
                ContextAdmissionPolicy::Bounded { usable_context_tokens } => usable_context_tokens
                    >= min,
                ContextAdmissionPolicy::Unmanaged => false,
            },
        }
    }

    /// Work-shape eligibility of one candidate under the declared shape.
    pub fn work_shape_eligible(profile: &CandidateProfile, declared: Option<WorkShape>) -> (r: bool)
        ensures
            r == (declared is Some && profile.work_shape is Some ==> profile.work_shape
                == declared),
    {
        match (declared, profile.work_shape) {
            (Some(shape), Some(served)) => served == shape,
            _ => true,
        }
    }

    /// Preflight context-fit admission of one candidate. A missing input count, a
    /// missing output budget and a sum beyond 64 bits all fail a bounded candidate.
    pub fn context_fits(
        &self,
        policy: &ContextAdmissionPolicy,
        target: &ModelId,
        request: &Request,
        max_output: Option<u64>,
    ) -> (r: bool)
        ensures
            r == fits_context(
                *policy,
                tokens_for(request.candidate_input_tokens@, target@),
                max_output,
            ),
    {
        let capacity: u64 = match policy {
            ContextAdmissionPolicy::Bounded { usable_context_tokens } => *usable_context_tokens,
            ContextAdmissionPolicy::Unmanaged => {
                return true;
            },
        };
        let input: u64 = match input_tokens(request, target) {
            Some(input) => input,
            None => {
                return false;
            },
        };
        let output: u64 = match max_output {
            Some(output) => output,
            None => {
                return false;
            },
        };
        match input.checked_add(output) {
            Some(fit) => fit <= capacity,
            None => false,
        }
    }

    /// The decision on one snapshot: filters the candidates, ranks those that are
    /// left, and gives the selected one and its fallbacks.
    ///
    /// # Errors
    ///
    /// Where the declared minimum context is invalid, or no candidate is left.
    pub fn decide_on(&self, snapshot: &FleetSnapshot, request: &Request) -> (r: Result<
        (ModelId, Vec<ModelId>),
        LibsyError,
    >)
        ensures
            decides(self.profiles@, snapshot@, self.work_shape_source, *request, r),
    {
        let require_tools = request.tools.len() > 0;
        let require_vision = request_requires_vision(request);
        let require_reasoning = reasoning_requested(&request.reasoning.effort)
            || self.declared_legacy_reasoning(request);
        let declared_shape = self.declared_work_shape(request);
        let min_context = match self.declared_min_context_tokens(request) {
            Ok(n) => n,
            Err(e) => {
                return Err(e);
            },
        };
        let ghost ok = admitted(
            self.profiles@,
            snapshot@,
            self.work_shape_source,
            *request,
            min_context,
        );
        let mut order: Vec<usize> = Vec::new();
        let mut i: usize = 0;
        while i < self.profiles.len()
            invariant
                i <= self.profiles.len(),
                ok == admitted(
                    self.profiles@,
                    snapshot@,
                    self.work_shape_source,
                    *request,
                    min_context,
                ),
                require_tools == (request.tools@.len() > 0),
                require_vision == any_image(request.messages@),
                require_reasoning == (effort_asks_reasoning(
                    text::opt_text(request.reasoning.effort),
                ) || legacy_reasoning(self.work_shape_source, *request)),
                declared_shape == shape_declared(self.work_shape_source, *request),
                ranked_prefix(self.profiles@, ok, indices(order@), i as int),
            decreases self.profiles.len() - i,
        {
            let profile = &self.profiles[i];
            let eligible = (!require_tools || profile.tool_calling) && (!require_reasoning
                || profile.reasoning) && (!require_vision || profile.supports_vision)
                && Self::work_shape_eligible(profile, declared_shape)
                && Self::min_context_eligible(profile, min_context) && snapshot.state_for(
                &profile.target,
            ).immediately_eligible() && self.context_fits(
                &profile.context_policy,
                &profile.target,
                request,
                request.max_output_tokens,
            );
            proof {
                assert(eligible == ok(i as int));
            }
            if eligible {
                insert_ranked(&self.profiles, &mut order, i, Ghost(ok));
            } else {
                proof {
                    assert(ranked_prefix(self.profiles@, ok, indices(order@), i + 1));
                }
            }
            i = i + 1;
        }
        proof {
            assert(is_ranking(self.profiles@, ok, indices(order@)));
        }
        if order.len() == 0 {
            proof {
                assert forall|i: int| 0 <= i < self.profiles@.len() implies !(#[trigger] ok(i)) by {
                    if ok(i) {
                        assert(indices(order@).contains(i));
                    }
                }
            }
            return Err(
                LibsyError::AlgorithmError {
                    message: text::copy_str(
                        "fleet router found no immediately-eligible candidate for this request",
                    ),
                },
            );
        }
        let first: usize = order[0];
        proof {
            assert(indices(order@)[0] == first);
        }
        let selected = text::copy_str(self.profiles[first].target.as_str());
        let mut fallbacks: Vec<ModelId> = Vec::new();
        let mut k: usize = 1;
        while k < order.len()
            invariant
                1 <= k <= order.len(),
                fallbacks@.len() == k - 1,
                is_ranking(self.profiles@, ok, indices(order@)),
                forall|m: int|
                    0 <= m < k - 1 ==> (#[trigger] fallbacks@[m])@ == self.profiles@[indices(
                        order@,
                    )[m + 1]].target@,
            decreases order.len() - k,
        {
            let at: usize = order[k];
            proof {
                assert(indices(order@)[k as int] == at);
            }
            fallbacks.push(text::copy_str(self.profiles[at].target.as_str()));
            k = k + 1;
        }
        Ok((selected, fallbacks))
    }

    /// The stateless decision core: reads one coherent snapshot of the readiness
    /// source and decides on it.
    ///
    /// # Errors
    ///
    /// As for [`Self::decide_on`].
    pub fn decide(&self, request: &Request) -> (r: Result<(ModelId, Vec<ModelId>), LibsyError>)
        ensures
            exists|entries: Entries|
                self.state.may_report(entries) && #[trigger] decides(
                    self.profiles@,
                    entries,
                    self.work_shape_source,
                    *request,
                    r,
                ),
    {
        let snapshot = self.state.snapshot();
        let r = self.decide_on(&snapshot, request);
        proof {
            assert(self.state.may_report(snapshot@));
        }
        r
    }
}

proof fn rejection_means_invalid(profiles: Seq<CandidateProfile>, e: Seq<char>)
    requires
        rejected_with(profiles, e),
    ensures
        !valid_profiles(profiles),
{
    if profiles.len() > 0 {
        let i = choose|i: int| #[trigger]
            first_fault(profiles, i) && e == fault_at(profiles, i)->0;
        assert(fault_at(profiles, i) is Some);
    }
}

spec fn indices(order: Seq<usize>) -> Seq<int> {
    Seq::new(order.len(), |k: int| order[k] as int)
}

/// `order` ranks those of the first `n` profiles that satisfy `ok`.
spec fn ranked_prefix(
    profiles: Seq<CandidateProfile>,
    ok: spec_fn(int) -> bool,
    order: Seq<int>,
    n: int,
) -> bool {
    &&& forall|k: int| 0 <= k < order.len() ==> 0 <= #[trigger] order[k] < n && ok(order[k])
    &&& forall|i: int| 0 <= i < n && #[trigger] ok(i) ==> order.contains(i)
    &&& forall|k: int, l: int|
        0 <= k < l < order.len() ==> precedes(profiles, #[trigger] order[k], #[trigger] order[l])
}

fn ranks_before(profiles: &Vec<CandidateProfile>, i: usize, j: usize) -> (r: bool)
    requires
        i < profiles.len(),
        j < profiles.len(),
    ensures
        r == precedes(profiles@, i as int, j as int),
{
    let a = &profiles[i];
    let b = &profiles[j];
    if a.preference_rank != b.preference_rank {
        a.preference_rank < b.preference_rank
    } else if !text::str_eq(a.target.as_str(), b.target.as_str()) {
        text::comes_before(a.target.as_str(), b.target.as_str())
    } else {
        i < j
    }
}

fn insert_ranked(
    profiles: &Vec<CandidateProfile>,
    order: &mut Vec<usize>,
    i: usize,
    Ghost(ok): Ghost<spec_fn(int) -> bool>,
)
    requires
        i < profiles.len(),
        ok(i as int),
        ranked_prefix(profiles@, ok, indices(old(order)@), i as int),
    ensures
        ranked_prefix(profiles@, ok, indices(final(order)@), i + 1),
{
    let ghost was = indices(order@);
    let mut at: usize = 0;
    proof {
        assert forall|k: int| 0 <= k < order.len() implies (#[trigger] order@[k]) < i by {
            assert(was[k] == order@[k]);
        }
    }
    while at < order.len() && !ranks_before(profiles, i, order[at])
        invariant
            at <= order.len(),
            i < profiles.len(),
            was == indices(order@),
            ranked_prefix(profiles@, ok, was, i as int),
            forall|k: int| 0 <= k < order.len() ==> (#[trigger] order@[k]) < i,
            forall|k: int| 0 <= k < at ==> precedes(profiles@, #[trigger] was[k], i as int),
        decreases order.len() - at,
    {
        proof {
            assert(was[at as int] == order@[at as int]);
            precedes_total(profiles@, i as int, was[at as int]);
        }
        at = at + 1;
    }
    order.insert(at, i);
    proof {
        let now = indices(order@);
        assert(now =~= was.insert(at as int, i as int));
        assert forall|k: int| at <= k < was.len() implies precedes(
            profiles@,
            i as int,
            #[trigger] was[k],
        ) by {
            if k > at {
                assert(precedes(profiles@, was[at as int], was[k]));
                precedes_transitive(profiles@, i as int, was[at as int], was[k]);
            }
        }
        assert forall|k: int, l: int| 0 <= k < l < now.len() implies precedes(
            profiles@,
            #[trigger] now[k],
            #[trigger] now[l],
        ) by {
            let pk = if k < at { k } else { k - 1 };
            let pl = if l < at { l } else { l - 1 };
            if k != at {
                assert(now[k] == was[pk]);
            }
            if l != at {
                assert(now[l] == was[pl]);
            }
        }
        assert forall|j: int| 0 <= j < i + 1 && #[trigger] ok(j) implies now.contains(j) by {
            if j < i {
                assert(was.contains(j));
                let k = choose|k: int| 0 <= k < was.len() && was[k] == j;
                if k < at {
                    assert(now[k] == j);
                } else {
                    assert(now[k + 1] == j);
                }
            } else {
                assert(now[at as int] == j);
            }
        }
        assert forall|k: int| 0 <= k < now.len() implies 0 <= #[trigger] now[k] < i + 1 && ok(
            now[k],
        ) by {
            if k < at {
                assert(now[k] == was[k]);
            } else if k > at {
                assert(now[k] == was[k - 1]);
            }
        }
    }
}

/// The outcome of routing a request.
#[derive(Debug)]
pub struct RoutingOutcome {
    /// The model that serves the request.
    pub selected_model_id: ModelId,
    /// The models that may serve it instead, in order.
    pub fallback_models: Vec<ModelId>,
    /// The request, naming the selected model.
    pub request: Request,
}

impl RoutingOutcome {
    /// Routes a request to a model: the request is made to name it.
    pub fn route_to(selected: ModelId, fallbacks: Vec<ModelId>, request: Request) -> (r: Self)
        ensures
            r.selected_model_id == selected,
            r.fallback_models == fallbacks,
            text::opt_text(r.request.model) == Some(selected@),
            r.request == (Request { model: r.request.model, ..request }),
    {
        let mut routed = request;
        routed.model = Some(text::copy_str(selected.as_str()));
        RoutingOutcome { selected_model_id: selected, fallback_models: fallbacks, request: routed }
    }
}

/// The decision in a routing outcome.
pub open spec fn decision_of(r: Result<RoutingOutcome, LibsyError>) -> Result<
    (ModelId, Vec<ModelId>),
    LibsyError,
> {
    match r {
        Ok(outcome) => Ok((outcome.selected_model_id, outcome.fallback_models)),
        Err(e) => Err(e),
    }
}

impl<S: FleetStateSource> FleetRouter<S> {
    /// Routes a request by a decision on one coherent snapshot.
    ///
    /// # Errors
    ///
    /// As for [`Self::decide`].
    pub fn route(&self, request: Request) -> (r: Result<RoutingOutcome, LibsyError>)
        ensures
            exists|entries: Entries|
                self.state.may_report(entries) && #[trigger] decides(
                    self.profiles@,
                    entries,
                    self.work_shape_source,
                    request,
                    decision_of(r),
                ),
            r is Ok ==> text::opt_text(r->Ok_0.request.model) == Some(r->Ok_0.selected_model_id@)
                && r->Ok_0.request == (Request { model: r->Ok_0.request.model, ..request }),
    {
        match self.decide(&request) {
            Ok((selected, fallbacks)) => Ok(
                RoutingOutcome::route_to(selected, fallbacks, request),
            ),
            Err(e) => Err(e),
        }
    }
}

/// The ids of a successful decision, in order: the selected one, then the fallbacks.
pub open spec fn chosen_ids(selected: ModelId, fallbacks: Seq<ModelId>) -> Seq<Seq<char>> {
    Seq::new(
        1 + fallbacks.len(),
        |k: int|
            if k == 0 {
                selected@
            } else {
                fallbacks[k - 1]@
            },
    )
}

/// Whatever is selected or offered as a fallback belongs to a candidate that may
/// serve the request; so no candidate without a needed capability, none that is
/// not ready, and none without a state entry is ever chosen.
pub proof fn only_admitted_candidates_are_chosen(
    profiles: Seq<CandidateProfile>,
    entries: Entries,
    source: WorkShapeSource,
    request: Request,
    selected: ModelId,
    fallbacks: Vec<ModelId>,
    k: int,
)
    requires
        decides(profiles, entries, source, request, Ok((selected, fallbacks))),
        0 <= k < chosen_ids(selected, fallbacks@).len(),
    ensures
        min_context_declared(request) is Ok,
        exists|i: int|
            0 <= i < profiles.len() && (#[trigger] profiles[i]).target@ == chosen_ids(
                selected,
                fallbacks@,
            )[k] && admits(profiles[i], entries, source, request, min_context_declared(request)->Ok_0),
{
    let min_context = min_context_declared(request)->Ok_0;
    let ok = admitted(profiles, entries, source, request, min_context);
    let order = choose|order: Seq<int>|
        {
            &&& #[trigger] is_ranking(profiles, ok, order)
            &&& order.len() == 1 + fallbacks@.len()
            &&& selected@ == profiles[order[0]].target@
            &&& forall|k: int|
                0 <= k < fallbacks@.len() ==> (#[trigger] fallbacks@[k])@ == profiles[order[k
                    + 1]].target@
        };
    let i = order[k];
    assert(ok(i));
    if k > 0 {
        assert(fallbacks@[k - 1]@ == profiles[order[k]].target@);
    }
    assert(profiles[i].target@ == chosen_ids(selected, fallbacks@)[k]);
}

/// What a decision says: the chosen ids, or the text of the error.
pub open spec fn outcome(r: Result<(ModelId, Vec<ModelId>), LibsyError>) -> Result<
    Seq<Seq<char>>,
    Seq<char>,
> {
    match r {
        Ok((selected, fallbacks)) => Ok(chosen_ids(selected, fallbacks@)),
        Err(e) => Err(e@),
    }
}

/// The decision is a function of the profiles, the snapshot and the request.
pub proof fn repeated_decision_agrees(
    profiles: Seq<CandidateProfile>,
    entries: Entries,
    source: WorkShapeSource,
    request: Request,
    a: Result<(ModelId, Vec<ModelId>), LibsyError>,
    b: Result<(ModelId, Vec<ModelId>), LibsyError>,
)
    requires
        decides(profiles, entries, source, request, a),
        decides(profiles, entries, source, request, b),
    ensures
        outcome(a) == outcome(b),
{
    if min_context_declared(request) is Ok {
        let ok = admitted(
            profiles,
            entries,
            source,
            request,
            min_context_declared(request)->Ok_0,
        );
        if a is Ok && b is Ok {
            let (sa, fa) = a->Ok_0;
            let (sb, fb) = b->Ok_0;
            let oa = choose|order: Seq<int>|
                {
                    &&& #[trigger] is_ranking(profiles, ok, order)
                    &&& order.len() == 1 + fa@.len()
                    &&& sa@ == profiles[order[0]].target@
                    &&& forall|k: int|
                        0 <= k < fa@.len() ==> (#[trigger] fa@[k])@ == profiles[order[k
                            + 1]].target@
                };
            let ob = choose|order: Seq<int>|
                {
                    &&& #[trigger] is_ranking(profiles, ok, order)
                    &&& order.len() == 1 + fb@.len()
                    &&& sb@ == profiles[order[0]].target@
                    &&& forall|k: int|
                        0 <= k < fb@.len() ==> (#[trigger] fb@[k])@ == profiles[order[k
                            + 1]].target@
                };
            ranking_is_unique(profiles, ok, oa, ob);
            let ca = chosen_ids(sa, fa@);
            let cb = chosen_ids(sb, fb@);
            assert forall|k: int| 0 <= k < ca.len() implies ca[k] == cb[k] by {
                if k > 0 {
                    assert(fa@[k - 1]@ == profiles[oa[k]].target@);
                    assert(fb@[k - 1]@ == profiles[ob[k]].target@);
                }
            }
            assert(ca =~= cb);
        } else if a is Ok {
            let order = choose|order: Seq<int>| #[trigger]
                is_ranking(profiles, ok, order) && order.len() == 1 + (a->Ok_0).1@.len();
            assert(ok(order[0]));
        } else if b is Ok {
            let order = choose|order: Seq<int>| #[trigger]
                is_ranking(profiles, ok, order) && order.len() == 1 + (b->Ok_0).1@.len();
            assert(ok(order[0]));
        }
    }
}

/// Context size only admits, it never ranks: two profile sets that differ in
/// context capacities and policies alone rank the same candidates alike.
pub proof fn context_size_never_ranks(
    profiles: Seq<CandidateProfile>,
    others: Seq<CandidateProfile>,
    ok: spec_fn(int) -> bool,
    order: Seq<int>,
)
    requires
        profiles.len() == others.len(),
        forall|i: int|
            0 <= i < profiles.len() ==> #[trigger] others[i] == (CandidateProfile {
                context_policy: others[i].context_policy,
                usable_context_tokens: others[i].usable_context_tokens,
                ..profiles[i]
            }),
        is_ranking(profiles, ok, order),
    ensures
        is_ranking(others, ok, order),
{
    assert forall|k: int, l: int| 0 <= k < l < order.len() implies precedes(
        others,
        #[trigger] order[k],
        #[trigger] order[l],
    ) by {
        assert(precedes(profiles, order[k], order[l]));
        assert(others[order[k]] == (CandidateProfile {
            context_policy: others[order[k]].context_policy,
            usable_context_tokens: others[order[k]].usable_context_tokens,
            ..profiles[order[k]]
        }));
        assert(others[order[l]] == (CandidateProfile {
            context_policy: others[order[l]].context_policy,
            usable_context_tokens: others[order[l]].usable_context_tokens,
            ..profiles[order[l]]
        }));
    }
}

/// A candidate's input-token count is never borrowed from another: admission
/// depends on the candidate's own count alone.
pub proof fn counts_are_never_borrowed(
    profile: CandidateProfile,
    entries: Entries,
    source: WorkShapeSource,
    request: Request,
    other: Request,
    min_context: Option<u64>,
)
    requires
        other == (Request { candidate_input_tokens: other.candidate_input_tokens, ..request }),
        tokens_for(other.candidate_input_tokens@, profile.target@) == tokens_for(
            request.candidate_input_tokens@,
            profile.target@,
        ),
    ensures
        admits(profile, entries, source, other, min_context) == admits(
            profile,
            entries,
            source,
            request,
            min_context,
        ),
{
}

/// The profile behind an id that a decision chose.
proof fn profile_behind(
    profiles: Seq<CandidateProfile>,
    entries: Entries,
    source: WorkShapeSource,
    request: Request,
    r: Result<(ModelId, Vec<ModelId>), LibsyError>,
    id: Seq<char>,
) -> (i: int)
    requires
        decides(profiles, entries, source, request, r),
        r is Ok,
        id == (r->Ok_0).0@ || exists|k: int|
            0 <= k < (r->Ok_0).1@.len() && (#[trigger] (r->Ok_0).1@[k])@ == id,
    ensures
        0 <= i < profiles.len(),
        profiles[i].target@ == id,
        min_context_declared(request) is Ok,
        admits(profiles[i], entries, source, request, min_context_declared(request)->Ok_0),
{
    let (selected, fallbacks) = r->Ok_0;
    let k = if id == selected@ {
        0
    } else {
        1 + choose|k: int| 0 <= k < fallbacks@.len() && (#[trigger] fallbacks@[k])@ == id
    };
    only_admitted_candidates_are_chosen(
        profiles,
        entries,
        source,
        request,
        selected,
        fallbacks,
        k,
    );
    choose|i: int|
        0 <= i < profiles.len() && (#[trigger] profiles[i]).target@ == chosen_ids(
            selected,
            fallbacks@,
        )[k] && admits(profiles[i], entries, source, request, min_context_declared(request)->Ok_0)
}

/// A request that names any reasoning effort but `none`, or whose legacy work class
/// is `reasoning` where the router reads it, reaches reasoning candidates alone:
/// the selected one and every fallback advertise reasoning.
pub proof fn reasoning_reaches_only_reasoners<S: FleetStateSource>(
    router: FleetRouter<S>,
    snapshot: FleetSnapshot,
    request: Request,
    r: Result<(ModelId, Vec<ModelId>), LibsyError>,
    id: Seq<char>,
)
    requires
        call_ensures(FleetRouter::<S>::decide_on, (&router, &snapshot, &request), r),
        r is Ok,
        id == (r->Ok_0).0@ || exists|k: int|
            0 <= k < (r->Ok_0).1@.len() && (#[trigger] (r->Ok_0).1@[k])@ == id,
        (request.reasoning.effort is Some && request.reasoning.effort->0@ != "none"@) || (
        router.work_shape_source == WorkShapeSource::Request && (extension(
            request,
            "work_class"@,
        ) matches Some(JsonView::Text(class)) && text::lower(class) == "reasoning"@)),
    ensures
        exists|i: int|
            0 <= i < router.profiles@.len() && (#[trigger] router.profiles@[i]).target@ == id
                && router.profiles@[i].reasoning,
{
    let i = profile_behind(
        router.profiles@,
        snapshot@,
        router.work_shape_source,
        request,
        r,
        id,
    );
    assert(router.profiles@[i].target@ == id);
}

/// A request without a reasoning effort, or with the effort `none`, whose legacy
/// work class does not ask for reasoning, leaves reasoning support out of account:
/// profile sets that differ in it alone get the same answer.
pub proof fn no_reasoning_excludes_nobody<S: FleetStateSource>(
    router: FleetRouter<S>,
    other: FleetRouter<S>,
    snapshot: FleetSnapshot,
    request: Request,
    a: Result<(ModelId, Vec<ModelId>), LibsyError>,
    b: Result<(ModelId, Vec<ModelId>), LibsyError>,
)
    requires
        call_ensures(FleetRouter::<S>::decide_on, (&router, &snapshot, &request), a),
        call_ensures(FleetRouter::<S>::decide_on, (&other, &snapshot, &request), b),
        request.reasoning.effort is None || request.reasoning.effort->0@ == "none"@,
        router.work_shape_source == WorkShapeSource::Unfiltered || !(extension(
            request,
            "work_class"@,
        ) matches Some(JsonView::Text(class)) && text::lower(class) == "reasoning"@),
        other.work_shape_source == router.work_shape_source,
        other.profiles@.len() == router.profiles@.len(),
        forall|i: int|
            0 <= i < router.profiles@.len() ==> #[trigger] other.profiles@[i] == (CandidateProfile {
                reasoning: other.profiles@[i].reasoning,
                ..router.profiles@[i]
            }),
    ensures
        outcome(a) == outcome(b),
{
    same_admission_same_outcome(
        router.profiles@,
        other.profiles@,
        snapshot@,
        snapshot@,
        router.work_shape_source,
        request,
        request,
        a,
        b,
    );
}

/// Profile sets of the same targets and ranks, of which the same are admitted, get
/// the same answer.
proof fn same_admission_same_outcome(
    profiles: Seq<CandidateProfile>,
    others: Seq<CandidateProfile>,
    entries: Entries,
    other_entries: Entries,
    source: WorkShapeSource,
    request: Request,
    other_request: Request,
    a: Result<(ModelId, Vec<ModelId>), LibsyError>,
    b: Result<(ModelId, Vec<ModelId>), LibsyError>,
)
    requires
        decides(profiles, entries, source, request, a),
        decides(others, other_entries, source, other_request, b),
        profiles.len() == others.len(),
        min_context_declared(request) == min_context_declared(other_request),
        forall|i: int|
            0 <= i < profiles.len() ==> (#[trigger] others[i]).target@ == profiles[i].target@
                && others[i].preference_rank == profiles[i].preference_rank,
        min_context_declared(request) is Ok ==> forall|i: int|
            0 <= i < profiles.len() ==> admits(
                #[trigger] others[i],
                other_entries,
                source,
                other_request,
                min_context_declared(request)->Ok_0,
            ) == admits(
                profiles[i],
                entries,
                source,
                request,
                min_context_declared(request)->Ok_0,
            ),
    ensures
        outcome(a) == outcome(b),
{
    if min_context_declared(request) is Ok {
        let min_context = min_context_declared(request)->Ok_0;
        let ok = admitted(profiles, entries, source, request, min_context);
        let ok2 = admitted(others, other_entries, source, other_request, min_context);
        assert forall|i: int| #[trigger] ok(i) == ok2(i) by {
            if 0 <= i < profiles.len() {
                let p = others[i];
            }
        }
        if b is Ok {
            let (selected, fallbacks) = b->Ok_0;
            let order = choose|order: Seq<int>|
                {
                    &&& #[trigger] is_ranking(others, ok2, order)
                    &&& order.len() == 1 + fallbacks@.len()
                    &&& selected@ == others[order[0]].target@
                    &&& forall|k: int|
                        0 <= k < fallbacks@.len() ==> (#[trigger] fallbacks@[k])@
                            == others[order[k + 1]].target@
                };
            assert forall|k: int| 0 <= k < order.len() implies 0 <= #[trigger] order[k]
                < profiles.len() && ok(order[k]) by {
                assert(ok2(order[k]));
            }
            assert forall|i: int| 0 <= i < profiles.len() && #[trigger] ok(i) implies order.contains(
                i,
            ) by {
                assert(ok2(i));
            }
            assert forall|k: int, l: int| 0 <= k < l < order.len() implies precedes(
                profiles,
                #[trigger] order[k],
                #[trigger] order[l],
            ) by {
                assert(precedes(others, order[k], order[l]));
                assert(others[order[k]].target@ == profiles[order[k]].target@);
                assert(others[order[l]].target@ == profiles[order[l]].target@);
            }
            assert(is_ranking(profiles, ok, order));
            assert(others[order[0]].target@ == profiles[order[0]].target@);
            assert forall|k: int| 0 <= k < fallbacks@.len() implies (#[trigger] fallbacks@[k])@
                == profiles[order[k + 1]].target@ by {
                assert(others[order[k + 1]].target@ == profiles[order[k + 1]].target@);
            }
        } else {
            assert forall|i: int| 0 <= i < profiles.len() implies !(#[trigger] ok(i)) by {
                assert(!ok2(i));
            }
        }
        assert(decides(profiles, entries, source, request, b));
    }
    repeated_decision_agrees(profiles, entries, source, request, a, b);
}

/// A request that offers tools reaches tool callers alone; one that carries an image
/// in a message reaches candidates with vision alone.
pub proof fn tools_and_images_reach_only_the_able<S: FleetStateSource>(
    router: FleetRouter<S>,
    snapshot: FleetSnapshot,
    request: Request,
    r: Result<(ModelId, Vec<ModelId>), LibsyError>,
    id: Seq<char>,
)
    requires
        call_ensures(FleetRouter::<S>::decide_on, (&router, &snapshot, &request), r),
        r is Ok,
        id == (r->Ok_0).0@ || exists|k: int|
            0 <= k < (r->Ok_0).1@.len() && (#[trigger] (r->Ok_0).1@[k])@ == id,
    ensures
        exists|i: int|
            {
                &&& 0 <= i < router.profiles@.len()
                &&& (#[trigger] router.profiles@[i]).target@ == id
                &&& request.tools@.len() > 0 ==> router.profiles@[i].tool_calling
                &&& (exists|m: int, b: int|
                    0 <= m < request.messages@.len() && 0 <= b
                        < request.messages@[m].content@.len() && (
                    #[trigger] request.messages@[m].content@[b]) is Image)
                    ==> router.profiles@[i].supports_vision
            },
{
    let i = profile_behind(
        router.profiles@,
        snapshot@,
        router.work_shape_source,
        request,
        r,
        id,
    );
    assert(router.profiles@[i].target@ == id);
    if exists|m: int, b: int|
        0 <= m < request.messages@.len() && 0 <= b < request.messages@[m].content@.len() && (
        #[trigger] request.messages@[m].content@[b]) is Image {
        let (m, b) = choose|m: int, b: int|
            0 <= m < request.messages@.len() && 0 <= b < request.messages@[m].content@.len() && (
            #[trigger] request.messages@[m].content@[b]) is Image;
        assert(request.messages@[m].content@[b] is Image);
        assert(has_image(request.messages@[m].content@));
        assert(any_image(request.messages@));
    }
}

/// Only candidates that are ready now, without a transition, are chosen: each has an
/// entry of its own in the snapshot that says so.
pub proof fn only_ready_candidates_are_chosen<S: FleetStateSource>(
    router: FleetRouter<S>,
    snapshot: FleetSnapshot,
    request: Request,
    r: Result<(ModelId, Vec<ModelId>), LibsyError>,
    id: Seq<char>,
)
    requires
        call_ensures(FleetRouter::<S>::decide_on, (&router, &snapshot, &request), r),
        r is Ok,
        id == (r->Ok_0).0@ || exists|k: int|
            0 <= k < (r->Ok_0).1@.len() && (#[trigger] (r->Ok_0).1@[k])@ == id,
    ensures
        exists|e: int|
            0 <= e < snapshot@.len() && (#[trigger] snapshot@[e]).0 == id && snapshot@[e].1.ready
                && !snapshot@[e].1.transition_required,
        exists|i: int|
            0 <= i < router.profiles@.len() && (#[trigger] router.profiles@[i]).target@ == id,
{
    let i = profile_behind(
        router.profiles@,
        snapshot@,
        router.work_shape_source,
        request,
        r,
        id,
    );
    assert(router.profiles@[i].target@ == id);
    let e = entry_behind(snapshot@, id);
    assert(snapshot@[e].0 == id);
}

/// The entry that gives a usable state.
proof fn entry_behind(entries: Entries, target: Seq<char>) -> (e: int)
    requires
        usable_now(state_in(entries, target)),
    ensures
        0 <= e < entries.len(),
        entries[e].0 == target,
        entries[e].1 == state_in(entries, target),
    decreases entries.len(),
{
    if entries.len() == 0 {
        0
    } else if entries[0].0 == target {
        0
    } else {
        1 + entry_behind(entries.drop_first(), target)
    }
}

/// Where the router reads the declared work shape, a request that declares one
/// reaches no candidate that is limited to the other.
pub proof fn declared_shape_is_served<S: FleetStateSource>(
    router: FleetRouter<S>,
    snapshot: FleetSnapshot,
    request: Request,
    declared: Option<WorkShape>,
    r: Result<(ModelId, Vec<ModelId>), LibsyError>,
    id: Seq<char>,
)
    requires
        call_ensures(FleetRouter::<S>::decide_on, (&router, &snapshot, &request), r),
        call_ensures(FleetRouter::<S>::declared_work_shape, (&router, &request), declared),
        declared is Some,
        r is Ok,
        id == (r->Ok_0).0@ || exists|k: int|
            0 <= k < (r->Ok_0).1@.len() && (#[trigger] (r->Ok_0).1@[k])@ == id,
    ensures
        exists|i: int|
            0 <= i < router.profiles@.len() && (#[trigger] router.profiles@[i]).target@ == id && (
            router.profiles@[i].work_shape is None || router.profiles@[i].work_shape == declared),
{
    let i = profile_behind(
        router.profiles@,
        snapshot@,
        router.work_shape_source,
        request,
        r,
        id,
    );
    assert(router.profiles@[i].target@ == id);
}

/// What a request declares: the `work_shape` field where it names a shape in any
/// case, else the legacy `work_class` field where that does. A router that is not
/// told to read metadata reads none.
pub proof fn shape_comes_from_metadata<S: FleetStateSource>(
    router: FleetRouter<S>,
    request: Request,
    declared: Option<WorkShape>,
)
    requires
        call_ensures(FleetRouter::<S>::declared_work_shape, (&router, &request), declared),
    ensures
        ({
            let shape = extension(request, "work_shape"@);
            let class = extension(request, "work_class"@);
            let named = shape is Some && shape->0 is Text && (text::lower(shape->0->Text_0)
                == "bounded"@ || text::lower(shape->0->Text_0) == "agentic"@);
            let value = if named {
                shape
            } else {
                class
            };
            &&& router.work_shape_source == WorkShapeSource::Unfiltered ==> declared is None
            &&& router.work_shape_source == WorkShapeSource::Request ==> (declared == Some(
                WorkShape::Bounded,
            ) <==> value is Some && value->0 is Text && text::lower(value->0->Text_0)
                == "bounded"@)
            &&& router.work_shape_source == WorkShapeSource::Request ==> (declared == Some(
                WorkShape::Agentic,
            ) <==> value is Some && value->0 is Text && text::lower(value->0->Text_0)
                == "agentic"@)
        }),
{
    reveal_strlit("bounded");
    reveal_strlit("agentic");
    assert("bounded"@[0] == 'b' && "agentic"@[0] == 'a');
}

/// A declared minimum context is a positive integer, and every chosen candidate is
/// known to hold at least as much: by its static capacity, or without one by the
/// capacity of its bounded policy.
pub proof fn declared_context_is_held<S: FleetStateSource>(
    router: FleetRouter<S>,
    snapshot: FleetSnapshot,
    request: Request,
    r: Result<(ModelId, Vec<ModelId>), LibsyError>,
    id: Seq<char>,
)
    requires
        call_ensures(FleetRouter::<S>::decide_on, (&router, &snapshot, &request), r),
        extension(request, "min_context_tokens"@) is Some,
        r is Ok,
        id == (r->Ok_0).0@ || exists|k: int|
            0 <= k < (r->Ok_0).1@.len() && (#[trigger] (r->Ok_0).1@[k])@ == id,
    ensures
        extension(request, "min_context_tokens"@) matches Some(
            JsonView::Number(NumberView::Unsigned(n)),
        ) && n > 0 && exists|i: int|
            {
                &&& 0 <= i < router.profiles@.len()
                &&& (#[trigger] router.profiles@[i]).target@ == id
                &&& match router.profiles@[i].usable_context_tokens {
                    Some(capacity) => capacity >= n,
                    None => router.profiles@[i].context_policy is Bounded
                        && router.profiles@[i].context_policy->usable_context_tokens >= n,
                }
            },
{
    let i = profile_behind(
        router.profiles@,
        snapshot@,
        router.work_shape_source,
        request,
        r,
        id,
    );
    assert(router.profiles@[i].target@ == id);
}

/// A bounded candidate is never overfilled: where one is chosen, its own input count
/// and the output budget are known, and together they fit its capacity.
pub proof fn bounded_candidates_are_never_overfilled<S: FleetStateSource>(
    router: FleetRouter<S>,
    snapshot: FleetSnapshot,
    request: Request,
    r: Result<(ModelId, Vec<ModelId>), LibsyError>,
    id: Seq<char>,
)
    requires
        call_ensures(FleetRouter::<S>::decide_on, (&router, &snapshot, &request), r),
        r is Ok,
        id == (r->Ok_0).0@ || exists|k: int|
            0 <= k < (r->Ok_0).1@.len() && (#[trigger] (r->Ok_0).1@[k])@ == id,
    ensures
        exists|i: int|
            {
                &&& 0 <= i < router.profiles@.len()
                &&& (#[trigger] router.profiles@[i]).target@ == id
                &&& router.profiles@[i].context_policy is Bounded ==> {
                    &&& request.max_output_tokens is Some
                    &&& exists|c: int|
                        {
                            &&& 0 <= c < request.candidate_input_tokens@.len()
                            &&& (#[trigger] request.candidate_input_tokens@[c]).0@ == id
                            &&& request.candidate_input_tokens@[c].1 + request.max_output_tokens->0
                                <= router.profiles@[i].context_policy->usable_context_tokens
                        }
                }
            },
{
    let i = profile_behind(
        router.profiles@,
        snapshot@,
        router.work_shape_source,
        request,
        r,
        id,
    );
    assert(router.profiles@[i].target@ == id);
    if router.profiles@[i].context_policy is Bounded {
        let c = count_behind(request.candidate_input_tokens@, id);
        assert(request.candidate_input_tokens@[c].0@ == id);
    }
}

proof fn count_behind(counts: Seq<(ModelId, u64)>, target: Seq<char>) -> (c: int)
    requires
        tokens_for(counts, target) is Some,
    ensures
        0 <= c < counts.len(),
        counts[c].0@ == target,
        counts[c].1 == tokens_for(counts, target)->0,
    decreases counts.len(),
{
    if counts.len() == 0 {
        0
    } else if counts[0].0@ == target {
        0
    } else {
        1 + count_behind(counts.drop_first(), target)
    }
}

/// Whoever can serve is chosen. A candidate whose first entry, at `e`, says that it
/// is ready now; that has every capability that the request needs, and no work shape
/// that the request rules out; that is known to hold the declared minimum, if there
/// is one; and that is unmanaged, or whose first count, at `c`, fits its capacity
/// with the output budget: it is selected, or a fallback.
pub proof fn whoever_can_serve_is_chosen<S: FleetStateSource>(
    router: FleetRouter<S>,
    snapshot: FleetSnapshot,
    request: Request,
    declared: Option<WorkShape>,
    r: Result<(ModelId, Vec<ModelId>), LibsyError>,
    i: int,
    e: int,
    c: int,
)
    requires
        call_ensures(FleetRouter::<S>::decide_on, (&router, &snapshot, &request), r),
        call_ensures(FleetRouter::<S>::declared_work_shape, (&router, &request), declared),
        0 <= i < router.profiles@.len(),
        0 <= e < snapshot@.len(),
        snapshot@[e].0 == router.profiles@[i].target@,
        forall|j: int|
            0 <= j < e ==> (#[trigger] snapshot@[j]).0 != router.profiles@[i].target@,
        snapshot@[e].1.ready && !snapshot@[e].1.transition_required,
        request.tools@.len() == 0 || router.profiles@[i].tool_calling,
        router.profiles@[i].reasoning || ((request.reasoning.effort is None
            || request.reasoning.effort->0@ == "none"@) && (router.work_shape_source
            == WorkShapeSource::Unfiltered || !(extension(request, "work_class"@) matches Some(
            JsonView::Text(class),
        ) && text::lower(class) == "reasoning"@))),
        router.profiles@[i].supports_vision || forall|m: int, b: int|
            0 <= m < request.messages@.len() && 0 <= b < request.messages@[m].content@.len()
                ==> !((#[trigger] request.messages@[m].content@[b]) is Image),
        router.profiles@[i].work_shape is None || declared is None
            || router.profiles@[i].work_shape == declared,
        match extension(request, "min_context_tokens"@) {
            None => true,
            Some(JsonView::Number(NumberView::Unsigned(n))) => n > 0 && (
            match router.profiles@[i].usable_context_tokens {
                Some(capacity) => capacity >= n,
                None => router.profiles@[i].context_policy is Bounded
                    && router.profiles@[i].context_policy->usable_context_tokens >= n,
            }),
            _ => false,
        },
        router.profiles@[i].context_policy is Unmanaged || {
            &&& request.max_output_tokens is Some
            &&& 0 <= c < request.candidate_input_tokens@.len()
            &&& request.candidate_input_tokens@[c].0@ == router.profiles@[i].target@
            &&& forall|j: int|
                0 <= j < c ==> (#[trigger] request.candidate_input_tokens@[j]).0@
                    != router.profiles@[i].target@
            &&& request.candidate_input_tokens@[c].1 + request.max_output_tokens->0
                <= router.profiles@[i].context_policy->usable_context_tokens
        },
    ensures
        r is Ok,
        router.profiles@[i].target@ == (r->Ok_0).0@ || exists|k: int|
            0 <= k < (r->Ok_0).1@.len() && (#[trigger] (r->Ok_0).1@[k])@
                == router.profiles@[i].target@,
{
    let profiles = router.profiles@;
    let p = profiles[i];
    state_at(snapshot@, p.target@, e);
    if p.context_policy is Bounded {
        tokens_at(request.candidate_input_tokens@, p.target@, c);
    }
    if any_image(request.messages@) && !p.supports_vision {
        let m = choose|m: int|
            0 <= m < request.messages@.len() && has_image((#[trigger] request.messages@[m]).content@);
        let b = choose|b: int|
            0 <= b < request.messages@[m].content@.len() && (
            #[trigger] request.messages@[m].content@[b]) is Image;
        assert(!(request.messages@[m].content@[b] is Image));
    }
    let min_context = min_context_declared(request)->Ok_0;
    let ok = admitted(profiles, snapshot@, router.work_shape_source, request, min_context);
    assert(ok(i));
    let (selected, fallbacks) = r->Ok_0;
    let order = choose|order: Seq<int>|
        {
            &&& #[trigger] is_ranking(profiles, ok, order)
            &&& order.len() == 1 + fallbacks@.len()
            &&& selected@ == profiles[order[0]].target@
            &&& forall|k: int|
                0 <= k < fallbacks@.len() ==> (#[trigger] fallbacks@[k])@ == profiles[order[k
                    + 1]].target@
        };
    assert(order.contains(i));
    let k = choose|k: int| 0 <= k < order.len() && order[k] == i;
    if k > 0 {
        assert(fallbacks@[k - 1]@ == p.target@);
    }
}

/// The choices stand in order of preference, each once: with distinct targets the
/// selected one comes before every fallback, and a fallback before the later ones,
/// by lower rank, and at the same rank by target id.
pub proof fn choices_stand_in_order_of_preference<S: FleetStateSource>(
    router: FleetRouter<S>,
    snapshot: FleetSnapshot,
    request: Request,
    r: Result<(ModelId, Vec<ModelId>), LibsyError>,
    k: int,
    l: int,
    i: int,
    j: int,
)
    requires
        call_ensures(FleetRouter::<S>::decide_on, (&router, &snapshot, &request), r),
        r is Ok,
        forall|a: int, b: int|
            0 <= a < b < router.profiles@.len() ==> (#[trigger] router.profiles@[a]).target@ != (
            #[trigger] router.profiles@[b]).target@,
        -1 <= k < l < (r->Ok_0).1@.len(),
        0 <= i < router.profiles@.len(),
        0 <= j < router.profiles@.len(),
        router.profiles@[i].target@ == (if k < 0 {
            (r->Ok_0).0@
        } else {
            (r->Ok_0).1@[k]@
        }),
        router.profiles@[j].target@ == (r->Ok_0).1@[l]@,
    ensures
        i != j,
        router.profiles@[i].preference_rank <= router.profiles@[j].preference_rank,
        router.profiles@[i].preference_rank == router.profiles@[j].preference_rank
            ==> text::text_before(router.profiles@[i].target@, router.profiles@[j].target@),
{
    let profiles = router.profiles@;
    let min_context = min_context_declared(request)->Ok_0;
    let ok = admitted(profiles, snapshot@, router.work_shape_source, request, min_context);
    let (selected, fallbacks) = r->Ok_0;
    let order = choose|order: Seq<int>|
        {
            &&& #[trigger] is_ranking(profiles, ok, order)
            &&& order.len() == 1 + fallbacks@.len()
            &&& selected@ == profiles[order[0]].target@
            &&& forall|k: int|
                0 <= k < fallbacks@.len() ==> (#[trigger] fallbacks@[k])@ == profiles[order[k
                    + 1]].target@
        };
    let a = order[k + 1];
    let b = order[l + 1];
    if k >= 0 {
        assert(fallbacks@[k]@ == profiles[a].target@);
    }
    assert(fallbacks@[l]@ == profiles[b].target@);
    assert(a == i) by {
        if a < i {
            assert(profiles[a].target@ != profiles[i].target@);
        }
        if i < a {
            assert(profiles[i].target@ != profiles[a].target@);
        }
    }
    assert(b == j) by {
        if b < j {
            assert(profiles[b].target@ != profiles[j].target@);
        }
        if j < b {
            assert(profiles[j].target@ != profiles[b].target@);
        }
    }
    assert(precedes(profiles, order[k + 1], order[l + 1]));
    precedes_asymmetric(profiles, i, j);
    if i < j {
        assert(profiles[i].target@ != profiles[j].target@);
    }
    if j < i {
        assert(profiles[j].target@ != profiles[i].target@);
    }
}

/// A refusal says why: the declared minimum is no positive integer, and the error
/// tells which it is, or else nobody can serve.
pub proof fn refusals_say_why<S: FleetStateSource>(
    router: FleetRouter<S>,
    snapshot: FleetSnapshot,
    request: Request,
    r: Result<(ModelId, Vec<ModelId>), LibsyError>,
)
    requires
        call_ensures(FleetRouter::<S>::decide_on, (&router, &snapshot, &request), r),
        r is Err,
    ensures
        r->Err_0@ == (match extension(request, "min_context_tokens"@) {
            Some(JsonView::Number(NumberView::Unsigned(n))) => if n == 0 {
                "declared min_context_tokens must be positive (zero is invalid)"@
            } else {
                "fleet router found no immediately-eligible candidate for this request"@
            },
            Some(value) => "declared min_context_tokens must be a positive integer, got "@
                + json_text(value),
            None => "fleet router found no immediately-eligible candidate for this request"@,
        }),
{
}

/// An invalid declared minimum is refused, whatever the fleet.
pub proof fn invalid_minimum_is_refused<S: FleetStateSource>(
    router: FleetRouter<S>,
    snapshot: FleetSnapshot,
    request: Request,
    r: Result<(ModelId, Vec<ModelId>), LibsyError>,
)
    requires
        call_ensures(FleetRouter::<S>::decide_on, (&router, &snapshot, &request), r),
        extension(request, "min_context_tokens"@) is Some,
        !(extension(request, "min_context_tokens"@) matches Some(
            JsonView::Number(NumberView::Unsigned(n)),
        ) && n > 0),
    ensures
        r is Err,
{
}

/// A decision reads the source once: it is the decision on one snapshot that the
/// source may report.
pub proof fn decision_is_on_one_snapshot<S: FleetStateSource>(
    router: FleetRouter<S>,
    request: Request,
    r: Result<(ModelId, Vec<ModelId>), LibsyError>,
)
    requires
        call_ensures(FleetRouter::<S>::decide, (&router, &request), r),
    ensures
        exists|entries: Entries|
            #![trigger router.state.may_report(entries)]
            router.state.may_report(entries) && forall|
                snapshot: FleetSnapshot,
                q: Result<(ModelId, Vec<ModelId>), LibsyError>,
            |
                snapshot@ == entries && #[trigger] call_ensures(
                    FleetRouter::<S>::decide_on,
                    (&router, &snapshot, &request),
                    q,
                ) ==> outcome(q) == outcome(r),
{
    let entries = choose|entries: Entries|
        router.state.may_report(entries) && #[trigger] decides(
            router.profiles@,
            entries,
            router.work_shape_source,
            request,
            r,
        );
    assert forall|
        snapshot: FleetSnapshot,
        q: Result<(ModelId, Vec<ModelId>), LibsyError>,
    |
        snapshot@ == entries && #[trigger] call_ensures(
            FleetRouter::<S>::decide_on,
            (&router, &snapshot, &request),
            q,
        ) implies outcome(q) == outcome(r) by {
        repeated_decision_agrees(
            router.profiles@,
            entries,
            router.work_shape_source,
            request,
            q,
            r,
        );
    }
}

/// A routed request names the selected model and is otherwise the caller's.
pub proof fn routed_request_names_the_selected_model<S: FleetStateSource>(
    router: FleetRouter<S>,
    request: Request,
    r: Result<RoutingOutcome, LibsyError>,
)
    requires
        call_ensures(FleetRouter::<S>::route, (&router, request), r),
        r is Ok,
    ensures
        r->Ok_0.request.model is Some,
        r->Ok_0.request.model->0@ == r->Ok_0.selected_model_id@,
        r->Ok_0.request.messages == request.messages,
        r->Ok_0.request.instructions == request.instructions,
        r->Ok_0.request.tools == request.tools,
        r->Ok_0.request.reasoning == request.reasoning,
        r->Ok_0.request.extensions == request.extensions,
        r->Ok_0.request.max_output_tokens == request.max_output_tokens,
        r->Ok_0.request.candidate_input_tokens == request.candidate_input_tokens,
{
}

/// A fixed fleet is accepted exactly where it has a profile, no target has two
/// profiles or two states, every state has a profile, and every declared capacity
/// is positive and agrees with the bounded policy's.
pub proof fn sound_fleets_are_accepted(
    profiles: Vec<CandidateProfile>,
    state: Vec<(ModelId, CandidateState)>,
    r: Result<FleetRouter<StaticFleetState>, LibsyError>,
)
    requires
        call_ensures(FleetRouter::<StaticFleetState>::new, (profiles, state), r),
    ensures
        r is Ok <==> {
            &&& profiles@.len() > 0
            &&& forall|i: int, j: int|
                0 <= i < j < profiles@.len() ==> (#[trigger] profiles@[i]).target@ != (
                #[trigger] profiles@[j]).target@
            &&& forall|i: int|
                0 <= i < profiles@.len() ==> {
                    let p = #[trigger] profiles@[i];
                    &&& p.usable_context_tokens is Some ==> p.usable_context_tokens->0 > 0
                    &&& p.context_policy is Bounded ==> p.context_policy->usable_context_tokens > 0
                    &&& p.context_policy is Bounded && p.usable_context_tokens is Some
                        ==> p.usable_context_tokens->0 == p.context_policy->usable_context_tokens
                }
            &&& forall|i: int, j: int|
                0 <= i < j < state@.len() ==> (#[trigger] state@[i]).0@ != (
                #[trigger] state@[j]).0@
            &&& forall|i: int|
                0 <= i < state@.len() ==> has_profile(profiles@, (#[trigger] state@[i]).0@)
        },
        r is Ok ==> r->Ok_0.profiles == profiles && r->Ok_0.work_shape_source
            == WorkShapeSource::Unfiltered,
{
    validity_in_plain_terms(profiles@);
    let entries = entries_view(state@);
    assert(distinct_targets(entries) <==> forall|i: int, j: int|
        0 <= i < j < state@.len() ==> (#[trigger] state@[i]).0@ != (#[trigger] state@[j]).0@) by {
        if distinct_targets(entries) {
            assert forall|i: int, j: int| 0 <= i < j < state@.len() implies (
            #[trigger] state@[i]).0@ != (#[trigger] state@[j]).0@ by {
                assert(entries[i].0 != entries[j].0);
            }
        }
    }
    if r is Ok {
        assert forall|i: int| 0 <= i < state@.len() implies has_profile(
            profiles@,
            (#[trigger] state@[i]).0@,
        ) by {
            assert(has_profile(profiles@, entries[i].0));
        }
    } else if valid_profiles(profiles@) && distinct_targets(entries) {
        let i = choose|i: int| #[trigger]
            first_unmatched(profiles@, entries, i) && r->Err_0@ == unmatched_key_text(entries[i].0);
        assert(!has_profile(profiles@, state@[i].0@));
    }
}

/// A snapshot reports the first entry of a target, and a target without one as not
/// ready.
pub proof fn snapshot_reports_its_entries(
    snapshot: FleetSnapshot,
    target: ModelId,
    r: CandidateState,
    i: int,
)
    requires
        call_ensures(FleetSnapshot::state_for, (&snapshot, &target), r),
    ensures
        0 <= i < snapshot@.len() && snapshot@[i].0 == target@ && (forall|j: int|
            0 <= j < i ==> (#[trigger] snapshot@[j]).0 != target@) ==> r == snapshot@[i].1,
        (forall|j: int| 0 <= j < snapshot@.len() ==> (#[trigger] snapshot@[j]).0 != target@)
            ==> !r.ready && !r.transition_required,
{
    if 0 <= i < snapshot@.len() && snapshot@[i].0 == target@ && (forall|j: int|
        0 <= j < i ==> (#[trigger] snapshot@[j]).0 != target@) {
        state_at(snapshot@, target@, i);
    }
    if forall|j: int| 0 <= j < snapshot@.len() ==> (#[trigger] snapshot@[j]).0 != target@ {
        missing_state_is_not_ready(snapshot@, target@);
    }
}

/// A state is immediately eligible where it is ready and needs no transition.
pub proof fn eligible_states_are_ready(state: CandidateState, r: bool)
    requires
        call_ensures(CandidateState::immediately_eligible, (&state,), r),
    ensures
        r <==> state.ready && !state.transition_required,
{
}

/// Any effort but `none` asks for reasoning.
pub proof fn any_effort_but_none_asks(effort: Option<String>, r: bool)
    requires
        call_ensures(reasoning_requested, (&effort,), r),
    ensures
        r <==> effort is Some && effort->0@ != "none"@,
{
}

/// A snapshot is refused exactly where a target repeats, in the name of the first one
/// that does.
pub proof fn repeated_targets_are_reported(
    states: Vec<(ModelId, CandidateState)>,
    r: Result<FleetSnapshot, LibsyError>,
)
    requires
        call_ensures(FleetSnapshot::new, (states,), r),
    ensures
        r is Ok <==> forall|i: int, j: int|
            0 <= i < j < states@.len() ==> (#[trigger] states@[i]).0@ != (
            #[trigger] states@[j]).0@,
        r is Ok ==> r->Ok_0@.len() == states@.len() && forall|i: int|
            0 <= i < states@.len() ==> (#[trigger] r->Ok_0@[i]).0 == states@[i].0@ && r->Ok_0@[i].1
                == states@[i].1,
        r is Err ==> exists|i: int|
            0 <= i < states@.len() && r->Err_0@ == "fleet snapshot key "@ + text::debug_text(
                (#[trigger] states@[i]).0@,
            ) + " appears more than once"@ && exists|j: int|
                0 <= j < i && #[trigger] entries_view(states@)[j].0 == states@[i].0@,
{
    let entries = entries_view(states@);
    if r is Ok {
        assert forall|i: int, j: int| 0 <= i < j < states@.len() implies (
        #[trigger] states@[i]).0@ != (#[trigger] states@[j]).0@ by {
            assert(entries[i].0 != entries[j].0);
        }
    } else {
        let i = choose|i: int| #[trigger]
            first_repeat(entries, i) && r->Err_0@ == repeated_key_text(states@[i].0@);
        let j = choose|j: int| 0 <= j < i && (#[trigger] entries[j]).0 == entries[i].0;
        assert(states@[j].0@ == states@[i].0@);
        assert(entries[j].0 == states@[i].0@);
    }
}

/// What is wrong with a fleet of one profile is told in its target's name.
pub proof fn faulty_profiles_are_explained(
    profiles: Vec<CandidateProfile>,
    r: Result<(), LibsyError>,
)
    requires
        call_ensures(validate_profiles, (&profiles,), r),
        r is Err,
    ensures
        profiles@.len() == 0 ==> r->Err_0@ == "fleet router requires at least one candidate profile"@,
        profiles@.len() == 1 ==> {
            let p = profiles@[0];
            let name = "fleet router candidate "@ + text::debug_text(p.target@);
            let policy = p.context_policy;
            r->Err_0@ == (if policy is Bounded && policy->usable_context_tokens == 0 {
                name
                    + " has an invalid zero usable_context_tokens; a bounded context policy must declare a positive usable capacity"@
            } else if policy is Bounded && p.usable_context_tokens is Some
                && p.usable_context_tokens->0 != policy->usable_context_tokens {
                name + " has a static usable_context_tokens ("@ + text::decimal(
                    p.usable_context_tokens->0 as nat,
                ) + ") that disagrees with its Bounded context-policy capacity ("@ + text::decimal(
                    policy->usable_context_tokens as nat,
                ) + "); they must be equal"@
            } else {
                name
                    + " has an invalid zero static usable_context_tokens; a configured capacity must be positive"@
            })
        },
{
    if profiles@.len() > 0 {
        let i = choose|i: int| #[trigger]
            first_fault(profiles@, i) && r->Err_0@ == fault_at(profiles@, i)->0;
    }
}

/// A target with two sound profiles, and nothing else wrong before it, is reported.
pub proof fn repeated_profiles_are_reported(
    profiles: Vec<CandidateProfile>,
    r: Result<(), LibsyError>,
    i: int,
    j: int,
)
    requires
        call_ensures(validate_profiles, (&profiles,), r),
        0 <= i < j < profiles@.len(),
        profiles@[i].target@ == profiles@[j].target@,
        profiles@[i].context_policy is Unmanaged && profiles@[i].usable_context_tokens is None,
        forall|k: int| 0 <= k < i ==> (#[trigger] fault_at(profiles@, k)) is None,
    ensures
        r is Err,
        r->Err_0@ == "fleet router profiles must not repeat target "@ + text::debug_text(
            profiles@[i].target@,
        ),
{
    assert(profiles@[j].target@ == profiles@[i].target@);
    assert(fault_at(profiles@, i) is Some);
    let k = choose|k: int| #[trigger]
        first_fault(profiles@, k) && r->Err_0@ == fault_at(profiles@, k)->0;
    if k < i {
        assert(fault_at(profiles@, k) is None);
    }
    if i < k {
        assert(fault_at(profiles@, i) is None);
    }
}

/// A state key without a profile is reported where nothing else is wrong.
pub proof fn unmatched_states_are_reported(
    profiles: Vec<CandidateProfile>,
    state: Vec<(ModelId, CandidateState)>,
    r: Result<FleetRouter<StaticFleetState>, LibsyError>,
)
    requires
        call_ensures(FleetRouter::<StaticFleetState>::new, (profiles, state), r),
        r is Err,
        valid_profiles(profiles@),
        distinct_targets(entries_view(state@)),
    ensures
        exists|i: int|
            0 <= i < state@.len() && !has_profile(profiles@, (#[trigger] state@[i]).0@)
                && r->Err_0@ == "fleet router state key "@ + text::debug_text(state@[i].0@)
                + " has no matching candidate profile"@,
{
    let entries = entries_view(state@);
    let i = choose|i: int| #[trigger]
        first_unmatched(profiles@, entries, i) && r->Err_0@ == unmatched_key_text(entries[i].0);
    assert(entries[i].0 == state@[i].0@);
}

} // verus!
