//! Resource-aware candidate routing.
//!
//! The caller selects a work class; this router selects the eligible model for
//! that class from live resource state. Eligibility is evaluated before
//! preference: credential-pool allowance, context size against a candidate's
//! cap, modality, and the reasoning contract. Candidates are consulted in
//! configured order and the first eligible one is selected. If none is eligible
//! the request fails closed with coarse reasons.
use std::sync::Arc;

use vstd::prelude::*;
use vstd::string::StringExecFns;
use crate::cache::TtlCache;
use crate::decimal;
use crate::error::LibsyError;
use crate::json::text_of;
use crate::request::{
    any_image, extension, has_image, messages_hold_image, ContentBlock, Message, ModelId, Request,
};
use crate::text;

verus! {

/// One percent in the unit of [`OpenAiResourceState::weekly_used_percent`],
/// which counts millionths of a percent.
pub const ONE_PERCENT: i64 = 1_000_000;

/// The whole weekly allowance, in millionths of a percent.
pub const FULL_ALLOWANCE: i64 = 100_000_000;

/// A sanitized snapshot of the OpenAI OAuth pool.
#[derive(Clone, Debug)]
pub struct OpenAiResourceState {
    pub available: bool,
    pub limit_reached: bool,
    pub spend_control_reached: bool,
    /// Used share of the weekly allowance, in millionths of a percent, rounded down.
    pub weekly_used_percent: Option<i64>,
    pub weekly_reset_at: Option<i64>,
    pub credits_balance: Option<String>,
    /// Unix seconds of the last successful read (None when never/unknown).
    pub last_success_at: Option<i64>,
    /// Coarse error text when the most recent read failed (no secrets).
    pub error: Option<String>,
}

/// Confirmed exhaustion of the included allowance: the provider's limit flag,
/// or a reported use of the whole allowance. Spend control, unavailability and
/// missing telemetry do not confirm it.
pub open spec fn confirmed(state: OpenAiResourceState) -> bool {
    state.limit_reached || (state.weekly_used_percent is Some && state.weekly_used_percent->0
        >= FULL_ALLOWANCE)
}

impl Default for OpenAiResourceState {
    fn default() -> (r: Self)
        ensures
            !r.available && !r.limit_reached && !r.spend_control_reached,
            r.weekly_used_percent is None && r.weekly_reset_at is None,
            r.credits_balance is None && r.last_success_at is None && r.error is None,
    {
        OpenAiResourceState {
            available: false,
            limit_reached: false,
            spend_control_reached: false,
            weekly_used_percent: None,
            weekly_reset_at: None,
            credits_balance: None,
            last_success_at: None,
            error: None,
        }
    }
}

impl OpenAiResourceState {
    /// Remaining weekly allowance, in millionths of a percent.
    pub fn weekly_remaining_percent(&self) -> (r: Option<i128>)
        ensures
            match self.weekly_used_percent {
                Some(used) => r is Some && r->0 == FULL_ALLOWANCE - used,
                None => r is None,
            },
    {
        match self.weekly_used_percent {
            Some(used) => Some(100_000_000i128 - used as i128),
            None => None,
        }
    }

    /// Hard eligibility for consuming the included weekly allowance. Purchased
    /// credits are not spent automatically; `credits_balance` is telemetry only.
    ///
    /// This predicate is not the router's gate: the router goes by
    /// [`Self::confirmed_exhausted`].
    pub fn weekly_eligible(&self) -> (r: bool)
        ensures
            r == (self.available && !self.limit_reached && !self.spend_control_reached && (
            self.weekly_used_percent is None || self.weekly_used_percent->0 < FULL_ALLOWANCE)),
    {
        self.available && !self.limit_reached && !self.spend_control_reached
            && match self.weekly_used_percent {
            Some(used) => used < FULL_ALLOWANCE,
            None => true,
        }
    }

    /// Confirmed included-allowance exhaustion only.
    pub fn confirmed_exhausted(&self) -> (r: bool)
        ensures
            r == confirmed(*self),
    {
        self.limit_reached || match self.weekly_used_percent {
            Some(used) => used >= FULL_ALLOWANCE,
            None => false,
        }
    }

    /// Error-marked state for pool-local failure isolation.
    pub fn unavailable_error(error: String) -> (r: Self)
        ensures
            !r.available && !r.limit_reached && !r.spend_control_reached,
            r.weekly_used_percent is None && r.weekly_reset_at is None,
            r.credits_balance is None && r.last_success_at is None,
            r.error == Some(error),
    {
        OpenAiResourceState {
            available: false,
            limit_reached: false,
            spend_control_reached: false,
            weekly_used_percent: None,
            weekly_reset_at: None,
            credits_balance: None,
            last_success_at: None,
            error: Some(error),
        }
    }
}

/// A sanitized snapshot of the DeepSeek pool.
#[derive(Clone, Debug)]
pub struct DeepSeekResourceState {
    pub is_available: bool,
    pub currency: String,
    pub total_balance: String,
    pub granted_balance: String,
    pub topped_up_balance: String,
    /// Unix seconds of the last successful read (None when never/unknown).
    pub last_success_at: Option<i64>,
    /// Coarse error text when the most recent read failed (no secrets).
    pub error: Option<String>,
}

/// The pool is available, its last read did not fail, and its balance, read as a
/// decimal number, is positive.
pub open spec fn balance_positive(state: DeepSeekResourceState) -> bool {
    state.is_available && state.error is None && decimal::is_positive(text::trimmed(state.total_balance@))
}

impl Default for DeepSeekResourceState {
    fn default() -> (r: Self)
        ensures
            !r.is_available,
            r.currency@.len() == 0 && r.total_balance@.len() == 0,
            r.granted_balance@.len() == 0 && r.topped_up_balance@.len() == 0,
            r.last_success_at is None && r.error is None,
    {
        DeepSeekResourceState {
            is_available: false,
            currency: String::new(),
            total_balance: String::new(),
            granted_balance: String::new(),
            topped_up_balance: String::new(),
            last_success_at: None,
            error: None,
        }
    }
}

impl DeepSeekResourceState {
    /// Hard eligibility: an available positive balance. A state marked with an
    /// error, or a balance that cannot be read, is ineligible.
    pub fn eligible(&self) -> (r: bool)
        ensures
            r == balance_positive(*self),
    {
        if !self.is_available || self.error.is_some() {
            return false;
        }
        let balance = text::trim(self.total_balance.as_str());
        decimal::positive(balance.as_str())
    }

    /// Error-marked state for pool-local failure isolation.
    pub fn unavailable_error(error: String) -> (r: Self)
        ensures
            !r.is_available,
            r.currency@.len() == 0 && r.total_balance@.len() == 0,
            r.granted_balance@.len() == 0 && r.topped_up_balance@.len() == 0,
            r.last_success_at is None,
            r.error == Some(error),
    {
        DeepSeekResourceState {
            is_available: false,
            currency: String::new(),
            total_balance: String::new(),
            granted_balance: String::new(),
            topped_up_balance: String::new(),
            last_success_at: None,
            error: Some(error),
        }
    }
}

/// One fetch of every configured pool's state.
#[derive(Clone, Debug)]
pub struct ResourceSnapshot {
    pub openai: Option<OpenAiResourceState>,
    pub deepseek: Option<DeepSeekResourceState>,
}

impl Default for ResourceSnapshot {
    fn default() -> (r: Self)
        ensures
            r.openai is None && r.deepseek is None,
    {
        ResourceSnapshot { openai: None, deepseek: None }
    }
}

/// std's mutex.
#[verifier::external_type_specification]
#[verifier::external_body]
#[verifier::reject_recursive_types(T)]
pub struct ExMutex<T: ?Sized>(std::sync::Mutex<T>);

/// Calls `std::sync::Mutex::new`. Nothing is claimed of the mutex: what it holds
/// later depends on its writers.
#[verifier::external_body]
fn empty_slot() -> std::sync::Mutex<Option<Arc<ResourceSnapshot>>> {
    std::sync::Mutex::new(None)
}

/// Calls `std::sync::Mutex::lock` and shares the snapshot in the slot. Nothing is
/// claimed of which: it is what some writer last stored. A poisoned mutex is read
/// like any other.
#[verifier::external_body]
fn slot_get(slot: &std::sync::Mutex<Option<Arc<ResourceSnapshot>>>) -> Option<Arc<ResourceSnapshot>> {
    match slot.lock() {
        Ok(guard) => guard.clone(),
        Err(poisoned) => poisoned.into_inner().clone(),
    }
}

/// Calls `std::sync::Mutex::lock` and stores a snapshot in the slot. Nothing is
/// claimed of later reads: another writer may come between. A poisoned mutex is
/// written like any other.
#[verifier::external_body]
fn slot_set(slot: &std::sync::Mutex<Option<Arc<ResourceSnapshot>>>, snapshot: Arc<ResourceSnapshot>) {
    match slot.lock() {
        Ok(mut guard) => *guard = Some(snapshot),
        Err(poisoned) => *poisoned.into_inner() = Some(snapshot),
    }
}

/// Shared, last-known resource snapshot for observability surfaces. What it
/// reports depends on its writers. Never holds secrets.
#[derive(Clone, Debug)]
pub struct SharedResourceTelemetry {
    slot: Arc<std::sync::Mutex<Option<Arc<ResourceSnapshot>>>>,
}

impl SharedResourceTelemetry {
    /// A slot in which nothing was published yet.
    pub fn new() -> Self {
        SharedResourceTelemetry { slot: Arc::new(empty_slot()) }
    }

    /// Latest published snapshot, if any.
    pub fn get(&self) -> Option<Arc<ResourceSnapshot>> {
        slot_get(&self.slot)
    }

    /// Publishes a snapshot.
    pub fn set(&self, snapshot: Arc<ResourceSnapshot>) {
        slot_set(&self.slot, snapshot);
    }
}

/// A fresh snapshot and the slot to which it is to be published.
#[derive(Debug)]
pub struct Publication {
    pub slot: SharedResourceTelemetry,
    pub snapshot: Arc<ResourceSnapshot>,
}

/// The cached resource state of one pool definition, with the slot to which
/// fresh snapshots are published.
#[derive(Debug)]
pub struct ResourceState {
    pub cache: TtlCache<ResourceSnapshot>,
    pub telemetry: Option<SharedResourceTelemetry>,
}

impl ResourceState {
    /// A state that holds nothing yet; `ttl` is in nanoseconds.
    pub fn new(ttl: u128) -> (r: Self)
        ensures
            r.cache.ttl == ttl,
            r.cache.entry is None,
            r.telemetry is None,
    {
        ResourceState { cache: TtlCache::new(ttl), telemetry: None }
    }

    /// Attaches a shared observability slot. The first attached one stays.
    pub fn attach_telemetry(&mut self, telemetry: SharedResourceTelemetry)
        ensures
            final(self).cache == old(self).cache,
            final(self).telemetry == (if old(self).telemetry is Some {
                old(self).telemetry
            } else {
                Some(telemetry)
            }),
    {
        if self.telemetry.is_none() {
            self.telemetry = Some(telemetry);
        }
    }

    /// The cached snapshot, where it is still fresh; without one a fetch is due.
    pub fn cached(&self, now: u128) -> (r: Option<Arc<ResourceSnapshot>>)
        ensures
            match r {
                Some(snapshot) => self.cache.fresh(now) && snapshot == (self.cache.entry->0).1,
                None => !self.cache.fresh(now),
            },
    {
        self.cache.lookup(now)
    }

    /// Takes in the result of a fetch: a snapshot is stored and handed out, and
    /// where a slot is attached its publication is due; a failure leaves the state
    /// as it was and publishes nothing.
    pub fn fetched<E>(&mut self, now: u128, fetched: Result<ResourceSnapshot, E>) -> (r: (
        Result<Arc<ResourceSnapshot>, E>,
        Option<Publication>,
    ))
        ensures
            final(self).telemetry == old(self).telemetry,
            final(self).cache.ttl == old(self).cache.ttl,
            match fetched {
                Ok(snapshot) => {
                    &&& r.0 is Ok
                    &&& *r.0->Ok_0 == snapshot
                    &&& final(self).cache.entry == Some((now, r.0->Ok_0))
                    &&& r.1 == (match old(self).telemetry {
                        Some(slot) => Some(Publication { slot, snapshot: r.0->Ok_0 }),
                        None => None,
                    })
                },
                Err(error) => {
                    &&& r.0 == Err::<Arc<ResourceSnapshot>, E>(error)
                    &&& r.1 is None
                    &&& *final(self) == *old(self)
                },
            },
    {
        let refreshed = self.cache.refresh(now, fetched);
        let due = match (&refreshed, &self.telemetry) {
            (Ok(snapshot), Some(telemetry)) => Some(
                Publication {
                    slot: SharedResourceTelemetry { slot: Arc::clone(&telemetry.slot) },
                    snapshot: Arc::clone(snapshot),
                },
            ),
            _ => None,
        };
        (refreshed, due)
    }
}

/// Which resource pool a candidate requires.
#[derive(Clone, Copy, Debug, PartialEq, Eq, Structural)]
pub enum Pool {
    /// No pool (`none`): the candidate spends no credential.
    Unpooled,
    OpenAi,
    DeepSeek,
}

/// Reasoning contract a candidate enforces.
#[derive(Clone, Copy, Debug, PartialEq, Eq, Structural)]
pub enum ReasoningPolicy {
    Any,
    NonThinking,
    Thinking,
}

/// Legacy work class carried structurally by the request (never guessed from
/// prompt text).
#[derive(Clone, Copy, Debug, PartialEq, Eq, Structural)]
pub enum WorkClass {
    Bounded,
    Agentic,
    Reasoning,
}

/// Shape of the work: a bounded task, or a long-lived agentic session.
#[derive(Clone, Copy, Debug, PartialEq, Eq, Structural)]
pub enum WorkShape {
    Bounded,
    Agentic,
}

/// Whether the caller wants deliberate reasoning, independent of work shape.
#[derive(Clone, Copy, Debug, PartialEq, Eq, Structural)]
pub enum ReasoningIntent {
    /// No deliberate reasoning (`none`).
    Direct,
    Deliberate,
}

/// The form in which metadata values are compared.
pub open spec fn normalized(value: Seq<char>) -> Seq<char> {
    text::lower(text::trimmed(value))
}

/// The work class that a metadata value names, or the text of the error.
pub open spec fn work_class_of(value: Seq<char>) -> Result<WorkClass, Seq<char>> {
    let v = normalized(value);
    if v == "bounded"@ {
        Ok(WorkClass::Bounded)
    } else if v == "agentic"@ {
        Ok(WorkClass::Agentic)
    } else if v == "reasoning"@ {
        Ok(WorkClass::Reasoning)
    } else {
        Err(
            "invalid work_class "@ + text::debug_text(v)
                + " (expected bounded | agentic | reasoning)"@,
        )
    }
}

/// The work shape that a metadata value names, or the text of the error.
pub open spec fn work_shape_of(value: Seq<char>) -> Result<WorkShape, Seq<char>> {
    let v = normalized(value);
    if v == "bounded"@ {
        Ok(WorkShape::Bounded)
    } else if v == "agentic"@ {
        Ok(WorkShape::Agentic)
    } else {
        Err("invalid work_shape "@ + text::debug_text(v) + " (expected bounded | agentic)"@)
    }
}

/// The reasoning intent that a metadata value names, or the text of the error.
pub open spec fn intent_of(value: Seq<char>) -> Result<ReasoningIntent, Seq<char>> {
    let v = normalized(value);
    if v == "none"@ {
        Ok(ReasoningIntent::Direct)
    } else if v == "deliberate"@ {
        Ok(ReasoningIntent::Deliberate)
    } else {
        Err("invalid reasoning_intent "@ + text::debug_text(v) + " (expected none | deliberate)"@)
    }
}

impl WorkClass {
    /// Reads a work class; case and surrounding white space do not matter.
    pub fn parse(value: &str) -> (r: Result<WorkClass, String>)
        ensures
            match r {
                Ok(class) => work_class_of(value@) == Ok::<WorkClass, Seq<char>>(class),
                Err(message) => work_class_of(value@) == Err::<WorkClass, Seq<char>>(message@),
            },
    {
        let trimmed = text::trim(value);
        let v = text::to_lower(trimmed.as_str());
        if text::str_eq(v.as_str(), "bounded") {
            Ok(WorkClass::Bounded)
        } else if text::str_eq(v.as_str(), "agentic") {
            Ok(WorkClass::Agentic)
        } else if text::str_eq(v.as_str(), "reasoning") {
            Ok(WorkClass::Reasoning)
        } else {
            let q = text::quoted(v.as_str());
            Err(
                text::join3(
                    "invalid work_class ",
                    q.as_str(),
                    " (expected bounded | agentic | reasoning)",
                ),
            )
        }
    }
}

impl std::str::FromStr for WorkClass {
    type Err = String;

    fn from_str(value: &str) -> (r: Result<Self, String>)
        ensures
            match r {
                Ok(class) => work_class_of(value@) == Ok::<WorkClass, Seq<char>>(class),
                Err(message) => work_class_of(value@) == Err::<WorkClass, Seq<char>>(message@),
            },
    {
        WorkClass::parse(value)
    }
}

impl WorkShape {
    /// Reads a work shape; case and surrounding white space do not matter.
    pub fn parse(value: &str) -> (r: Result<WorkShape, String>)
        ensures
            match r {
                Ok(shape) => work_shape_of(value@) == Ok::<WorkShape, Seq<char>>(shape),
                Err(message) => work_shape_of(value@) == Err::<WorkShape, Seq<char>>(message@),
            },
    {
        let trimmed = text::trim(value);
        let v = text::to_lower(trimmed.as_str());
        if text::str_eq(v.as_str(), "bounded") {
            Ok(WorkShape::Bounded)
        } else if text::str_eq(v.as_str(), "agentic") {
            Ok(WorkShape::Agentic)
        } else {
            let q = text::quoted(v.as_str());
            Err(text::join3("invalid work_shape ", q.as_str(), " (expected bounded | agentic)"))
        }
    }
}

impl std::str::FromStr for WorkShape {
    type Err = String;

    fn from_str(value: &str) -> (r: Result<Self, String>)
        ensures
            match r {
                Ok(shape) => work_shape_of(value@) == Ok::<WorkShape, Seq<char>>(shape),
                Err(message) => work_shape_of(value@) == Err::<WorkShape, Seq<char>>(message@),
            },
    {
        WorkShape::parse(value)
    }
}

impl ReasoningIntent {
    /// Reads a reasoning intent; case and surrounding white space do not matter.
    pub fn parse(value: &str) -> (r: Result<ReasoningIntent, String>)
        ensures
            match r {
                Ok(intent) => intent_of(value@) == Ok::<ReasoningIntent, Seq<char>>(intent),
                Err(message) => intent_of(value@) == Err::<ReasoningIntent, Seq<char>>(message@),
            },
    {
        let trimmed = text::trim(value);
        let v = text::to_lower(trimmed.as_str());
        if text::str_eq(v.as_str(), "none") {
            Ok(ReasoningIntent::Direct)
        } else if text::str_eq(v.as_str(), "deliberate") {
            Ok(ReasoningIntent::Deliberate)
        } else {
            let q = text::quoted(v.as_str());
            Err(
                text::join3(
                    "invalid reasoning_intent ",
                    q.as_str(),
                    " (expected none | deliberate)",
                ),
            )
        }
    }
}

impl std::str::FromStr for ReasoningIntent {
    type Err = String;

    fn from_str(value: &str) -> (r: Result<Self, String>)
        ensures
            match r {
                Ok(intent) => intent_of(value@) == Ok::<ReasoningIntent, Seq<char>>(intent),
                Err(message) => intent_of(value@) == Err::<ReasoningIntent, Seq<char>>(message@),
            },
    {
        ReasoningIntent::parse(value)
    }
}

/// The orthogonal semantic contract: work shape and reasoning intent.
#[derive(Clone, Copy, Debug, PartialEq, Eq, Structural)]
pub struct SemanticContract {
    pub shape: WorkShape,
    pub intent: ReasoningIntent,
}

/// The contract that a legacy work class stands for. Legacy `reasoning` is
/// deliberate work that is not bounded.
pub open spec fn contract_of_class(class: WorkClass) -> SemanticContract {
    match class {
        WorkClass::Bounded => SemanticContract {
            shape: WorkShape::Bounded,
            intent: ReasoningIntent::Direct,
        },
        WorkClass::Agentic => SemanticContract {
            shape: WorkShape::Agentic,
            intent: ReasoningIntent::Direct,
        },
        WorkClass::Reasoning => SemanticContract {
            shape: WorkShape::Agentic,
            intent: ReasoningIntent::Deliberate,
        },
    }
}

impl SemanticContract {
    /// The contract that a legacy work class stands for.
    pub fn from_work_class(class: WorkClass) -> (r: Self)
        ensures
            r == contract_of_class(class),
    {
        match class {
            WorkClass::Bounded => SemanticContract {
                shape: WorkShape::Bounded,
                intent: ReasoningIntent::Direct,
            },
            WorkClass::Agentic => SemanticContract {
                shape: WorkShape::Agentic,
                intent: ReasoningIntent::Direct,
            },
            WorkClass::Reasoning => SemanticContract {
                shape: WorkShape::Agentic,
                intent: ReasoningIntent::Deliberate,
            },
        }
    }
}

/// How a resource router learns the request's semantic contract.
#[derive(Clone, Copy, Debug, PartialEq, Eq, Structural)]
pub enum ContractFilter {
    /// No contract filtering (candidate `shapes`/`intents` lists ignored).
    Any,
    /// A fixed contract configured on the route.
    Fixed(SemanticContract),
    /// The contract is read from structured request metadata: `work_shape` with
    /// `reasoning_intent`, else legacy `work_class`. Missing is an error.
    Request,
}

/// Request modality derived from message and instruction content.
#[derive(Clone, Copy, Debug, PartialEq, Eq, Structural)]
pub enum Modality {
    Text,
    Image,
}

/// One ordered candidate target with its eligibility contract.
#[derive(Clone, Debug)]
pub struct Candidate {
    pub target: ModelId,
    pub pool: Pool,
    pub context_cap_tokens: Option<u64>,
    pub modalities: Vec<Modality>,
    pub reasoning: ReasoningPolicy,
    /// Work shapes this candidate serves. Empty = all shapes.
    pub shapes: Vec<WorkShape>,
    /// Reasoning intents this candidate serves. Empty = all intents.
    pub intents: Vec<ReasoningIntent>,
}

/// Conservative per-image token estimate for context-cap eligibility.
pub const IMAGE_TOKEN_ESTIMATE: u64 = 1024;

/// The estimated tokens of one block: a quarter of a text's characters.
pub open spec fn block_tokens(block: ContentBlock) -> nat {
    match block {
        ContentBlock::Text { text } => text@.len() / 4,
        ContentBlock::Image => IMAGE_TOKEN_ESTIMATE as nat,
        ContentBlock::Other => 0,
    }
}

/// The estimated tokens of a list of blocks.
pub open spec fn content_tokens(content: Seq<ContentBlock>) -> nat
    decreases content.len(),
{
    if content.len() == 0 {
        0
    } else {
        content_tokens(content.drop_last()) + block_tokens(content.last())
    }
}

/// The estimated tokens of a list of messages.
pub open spec fn messages_tokens(messages: Seq<Message>) -> nat
    decreases messages.len(),
{
    if messages.len() == 0 {
        0
    } else {
        messages_tokens(messages.drop_last()) + content_tokens(messages.last().content@)
    }
}

/// `n`, held at the largest 64-bit number.
pub open spec fn capped(n: nat) -> u64 {
    if n <= u64::MAX {
        n as u64
    } else {
        u64::MAX
    }
}

/// The estimated size of a request.
pub open spec fn estimated_tokens(request: Request) -> u64 {
    capped(messages_tokens(request.messages@) + messages_tokens(request.instructions@))
}

/// The modality of a request: image where any message or instruction holds one.
pub open spec fn modality_of(request: Request) -> Modality {
    if any_image(request.messages@) || any_image(request.instructions@) {
        Modality::Image
    } else {
        Modality::Text
    }
}

fn add_capped(a: u64, b: u64) -> (r: u64)
    ensures
        r == capped(a as nat + b as nat),
{
    match a.checked_add(b) {
        Some(sum) => sum,
        None => u64::MAX,
    }
}

fn estimate_content(content: &Vec<ContentBlock>) -> (r: u64)
    ensures
        r == capped(content_tokens(content@)),
{
    let mut tokens: u64 = 0;
    let mut i: usize = 0;
    while i < content.len()
        invariant
            i <= content.len(),
            tokens == capped(content_tokens(content@.take(i as int))),
        decreases content.len() - i,
    {
        let count: u64 = match &content[i] {
            ContentBlock::Text { text } => {
                let chars = text::chars_of(text.as_str());
                chars.len() as u64 / 4
            },
            ContentBlock::Image => IMAGE_TOKEN_ESTIMATE,
            ContentBlock::Other => 0,
        };
        proof {
            assert(content@.take(i + 1).drop_last() =~= content@.take(i as int));
            assert(content@.take(i + 1).last() == content@[i as int]);
            assert(count == block_tokens(content@[i as int]));
        }
        tokens = add_capped(tokens, count);
        i = i + 1;
    }
    proof {
        assert(content@.take(content@.len() as int) =~= content@);
    }
    tokens
}

fn estimate_messages(messages: &Vec<Message>) -> (r: u64)
    ensures
        r == capped(messages_tokens(messages@)),
{
    let mut tokens: u64 = 0;
    let mut i: usize = 0;
    while i < messages.len()
        invariant
            i <= messages.len(),
            tokens == capped(messages_tokens(messages@.take(i as int))),
        decreases messages.len() - i,
    {
        let count: u64 = estimate_content(&messages[i].content);
        proof {
            assert(messages@.take(i + 1).drop_last() =~= messages@.take(i as int));
            assert(messages@.take(i + 1).last() == messages@[i as int]);
        }
        tokens = add_capped(tokens, count);
        i = i + 1;
    }
    proof {
        assert(messages@.take(messages@.len() as int) =~= messages@);
    }
    tokens
}

/// Estimates the size of a request for context-cap eligibility.
pub fn estimate_request_tokens(request: &Request) -> (r: u64)
    ensures
        r == estimated_tokens(*request),
{
    let messages: u64 = estimate_messages(&request.messages);
    let instructions: u64 = estimate_messages(&request.instructions);
    add_capped(messages, instructions)
}

/// The modality of a request.
pub fn request_modality(request: &Request) -> (r: Modality)
    ensures
        r == modality_of(*request),
{
    if messages_hold_image(&request.messages) || messages_hold_image(&request.instructions) {
        Modality::Image
    } else {
        Modality::Text
    }
}

fn has_shape(shapes: &Vec<WorkShape>, shape: WorkShape) -> (r: bool)
    ensures
        r == shapes@.contains(shape),
{
    let mut i: usize = 0;
    while i < shapes.len()
        invariant
            i <= shapes.len(),
            forall|j: int| 0 <= j < i ==> shapes@[j] != shape,
        decreases shapes.len() - i,
    {
        if shapes[i] == shape {
            return true;
        }
        i = i + 1;
    }
    false
}

fn has_intent(intents: &Vec<ReasoningIntent>, intent: ReasoningIntent) -> (r: bool)
    ensures
        r == intents@.contains(intent),
{
    let mut i: usize = 0;
    while i < intents.len()
        invariant
            i <= intents.len(),
            forall|j: int| 0 <= j < i ==> intents@[j] != intent,
        decreases intents.len() - i,
    {
        if intents[i] == intent {
            return true;
        }
        i = i + 1;
    }
    false
}

fn has_modality(modalities: &Vec<Modality>, modality: Modality) -> (r: bool)
    ensures
        r == modalities@.contains(modality),
{
    let mut i: usize = 0;
    while i < modalities.len()
        invariant
            i <= modalities.len(),
            forall|j: int| 0 <= j < i ==> modalities@[j] != modality,
        decreases modalities.len() - i,
    {
        if modalities[i] == modality {
            return true;
        }
        i = i + 1;
    }
    false
}

/// Whether the candidate serves a work shape.
pub open spec fn serves_shape(candidate: Candidate, shape: WorkShape) -> bool {
    candidate.shapes@.len() == 0 || candidate.shapes@.contains(shape)
}

/// Whether the candidate serves a reasoning intent.
pub open spec fn serves_intent(candidate: Candidate, intent: ReasoningIntent) -> bool {
    candidate.intents@.len() == 0 || candidate.intents@.contains(intent)
}

/// Whether a requested effort contradicts a candidate's reasoning policy.
pub open spec fn effort_conflicts(policy: ReasoningPolicy, effort: Option<Seq<char>>) -> bool {
    match policy {
        ReasoningPolicy::NonThinking => effort is Some && effort->0.len() > 0 && effort->0
            != "none"@,
        ReasoningPolicy::Thinking => effort == Some("none"@),
        ReasoningPolicy::Any => false,
    }
}

fn effort_conflict(policy: ReasoningPolicy, effort: &Option<String>) -> (r: bool)
    ensures
        r == effort_conflicts(policy, text::opt_text(*effort)),
{
    match policy {
        ReasoningPolicy::NonThinking => match effort {
            Some(effort) => !effort.as_str().is_empty() && !text::str_eq(effort.as_str(), "none"),
            None => false,
        },
        ReasoningPolicy::Thinking => text::opt_str_eq(effort, "none"),
        ReasoningPolicy::Any => false,
    }
}

/// The candidate's shape, intent, modality and reasoning contract fit the
/// request, whatever the resource state and the request's size.
pub open spec fn semantic_fit(
    candidate: Candidate,
    modality: Modality,
    effort: Option<Seq<char>>,
    contract: Option<SemanticContract>,
) -> bool {
    &&& contract is Some ==> serves_shape(candidate, contract->0.shape) && serves_intent(
        candidate,
        contract->0.intent,
    )
    &&& candidate.modalities@.contains(modality)
    &&& !effort_conflicts(candidate.reasoning, effort)
}

/// Whether the candidate fits the request semantically.
pub fn candidate_semantic_eligible(
    candidate: &Candidate,
    modality: Modality,
    reasoning_effort: &Option<String>,
    contract: Option<SemanticContract>,
) -> (r: bool)
    ensures
        r == semantic_fit(*candidate, modality, text::opt_text(*reasoning_effort), contract),
{
    if let Some(contract) = contract {
        if candidate.shapes.len() > 0 && !has_shape(&candidate.shapes, contract.shape) {
            return false;
        }
        if candidate.intents.len() > 0 && !has_intent(&candidate.intents, contract.intent) {
            return false;
        }
    }
    if !has_modality(&candidate.modalities, modality) {
        return false;
    }
    !effort_conflict(candidate.reasoning, reasoning_effort)
}

/// Coarse reason shown to the caller when a candidate is ineligible.
#[derive(Clone, Copy, Debug, PartialEq, Eq, Structural)]
pub enum IneligibleKind {
    OpenAiPoolExhausted,
    DeepSeekPool,
    DeepSeekFallbackBlocked,
    ContextCap,
    Modality,
    ReasoningContract,
    WorkShape,
    ReasoningIntent,
}

/// What a candidate's pool holds against it. Of the DeepSeek pool both an
/// unusable balance and a closed fallback gate are reported.
pub open spec fn pool_objections(
    pool: Pool,
    snapshot: ResourceSnapshot,
    deepseek_fallback_allowed: bool,
) -> Seq<IneligibleKind> {
    match pool {
        Pool::Unpooled => Seq::empty(),
        Pool::OpenAi => if snapshot.openai is Some && confirmed(snapshot.openai->0) {
            seq![IneligibleKind::OpenAiPoolExhausted]
        } else {
            Seq::empty()
        },
        Pool::DeepSeek => {
            let dry = snapshot.deepseek is None || !balance_positive(snapshot.deepseek->0);
            let pool = if dry {
                seq![IneligibleKind::DeepSeekPool]
            } else {
                Seq::empty()
            };
            let gate = if deepseek_fallback_allowed {
                Seq::empty()
            } else {
                seq![IneligibleKind::DeepSeekFallbackBlocked]
            };
            pool + gate
        },
    }
}

/// What stands against a candidate: the first that applies of work shape,
/// intent, pool, context cap, modality and reasoning contract. The candidate is
/// eligible where nothing does.
pub open spec fn objections(
    candidate: Candidate,
    snapshot: ResourceSnapshot,
    request_tokens: u64,
    modality: Modality,
    effort: Option<Seq<char>>,
    contract: Option<SemanticContract>,
    deepseek_fallback_allowed: bool,
) -> Seq<IneligibleKind> {
    let pool = pool_objections(candidate.pool, snapshot, deepseek_fallback_allowed);
    if contract is Some && !serves_shape(candidate, contract->0.shape) {
        seq![IneligibleKind::WorkShape]
    } else if contract is Some && !serves_intent(candidate, contract->0.intent) {
        seq![IneligibleKind::ReasoningIntent]
    } else if pool.len() > 0 {
        pool
    } else if candidate.context_cap_tokens is Some && request_tokens
        > candidate.context_cap_tokens->0 {
        seq![IneligibleKind::ContextCap]
    } else if !candidate.modalities@.contains(modality) {
        seq![IneligibleKind::Modality]
    } else if effort_conflicts(candidate.reasoning, effort) {
        seq![IneligibleKind::ReasoningContract]
    } else {
        Seq::empty()
    }
}

/// The reasons with their candidate, as texts.
pub open spec fn reasons_view(reasons: Seq<(String, IneligibleKind)>) -> Seq<
    (Seq<char>, IneligibleKind),
> {
    Seq::new(reasons.len(), |i: int| (reasons[i].0@, reasons[i].1))
}

/// Each kind paired with one candidate.
pub open spec fn against(target: Seq<char>, kinds: Seq<IneligibleKind>) -> Seq<
    (Seq<char>, IneligibleKind),
> {
    Seq::new(kinds.len(), |i: int| (target, kinds[i]))
}

fn object(reasons: &mut Vec<(String, IneligibleKind)>, target: &ModelId, kind: IneligibleKind)
    ensures
        reasons_view(final(reasons)@) == reasons_view(old(reasons)@).push((target@, kind)),
{
    reasons.push((text::copy_str(target.as_str()), kind));
    proof {
        assert(reasons_view(reasons@) =~= reasons_view(old(reasons)@).push((target@, kind)));
    }
}

/// Whether a candidate is eligible; what stands against it is added to `reasons`.
pub fn candidate_eligible(
    candidate: &Candidate,
    snapshot: &ResourceSnapshot,
    request_tokens: u64,
    modality: Modality,
    reasoning_effort: &Option<String>,
    contract: Option<SemanticContract>,
    deepseek_fallback_allowed: bool,
    reasons: &mut Vec<(String, IneligibleKind)>,
) -> (r: bool)
    ensures
        ({
            let found = objections(
                *candidate,
                *snapshot,
                request_tokens,
                modality,
                text::opt_text(*reasoning_effort),
                contract,
                deepseek_fallback_allowed,
            );
            &&& r == (found.len() == 0)
            &&& reasons_view(final(reasons)@) == reasons_view(old(reasons)@) + against(
                candidate.target@,
                found,
            )
        }),
{
    let ghost before = reasons_view(reasons@);
    let ghost t = candidate.target@;
    proof {
        assert forall|k: IneligibleKind| #[trigger]
            against(t, seq![k]) == seq![(t, k)] by {
            assert(against(t, seq![k]) =~= seq![(t, k)]);
        }
        assert forall|k: IneligibleKind| before.push((t, k)) == before + #[trigger] against(
            t,
            seq![k],
        ) by {
            assert(before.push((t, k)) =~= before + seq![(t, k)]);
        }
        assert(before + against(t, Seq::empty()) =~= before);
    }
    if let Some(contract) = contract {
        if candidate.shapes.len() > 0 && !has_shape(&candidate.shapes, contract.shape) {
            object(reasons, &candidate.target, IneligibleKind::WorkShape);
            return false;
        }
        if candidate.intents.len() > 0 && !has_intent(&candidate.intents, contract.intent) {
            object(reasons, &candidate.target, IneligibleKind::ReasoningIntent);
            return false;
        }
    }
    match candidate.pool {
        Pool::OpenAi => {
            // Only confirmed exhaustion excludes the candidate; missing, stale or
            // failed telemetry keeps it eligible.
            if let Some(openai) = &snapshot.openai {
                if openai.confirmed_exhausted() {
                    object(reasons, &candidate.target, IneligibleKind::OpenAiPoolExhausted);
                    return false;
                }
            }
        },
        Pool::DeepSeek => {
            let unavailable = match &snapshot.deepseek {
                Some(deepseek) => !deepseek.eligible(),
                None => true,
            };
            if unavailable {
                object(reasons, &candidate.target, IneligibleKind::DeepSeekPool);
            }
            if !deepseek_fallback_allowed {
                object(reasons, &candidate.target, IneligibleKind::DeepSeekFallbackBlocked);
            }
            if unavailable || !deepseek_fallback_allowed {
                proof {
                    let found = pool_objections(
                        Pool::DeepSeek,
                        *snapshot,
                        deepseek_fallback_allowed,
                    );
                    assert(reasons_view(reasons@) =~= before + against(t, found));
                }
                return false;
            }
            proof {
                assert(pool_objections(Pool::DeepSeek, *snapshot, true).len() == 0);
            }
        },
        Pool::Unpooled => {},
    }
    if let Some(cap) = candidate.context_cap_tokens {
        if request_tokens > cap {
            object(reasons, &candidate.target, IneligibleKind::ContextCap);
            return false;
        }
    }
    if !has_modality(&candidate.modalities, modality) {
        object(reasons, &candidate.target, IneligibleKind::Modality);
        return false;
    }
    if effort_conflict(candidate.reasoning, reasoning_effort) {
        object(reasons, &candidate.target, IneligibleKind::ReasoningContract);
        return false;
    }
    true
}

/// The coarse text of a reason.
pub open spec fn label(kind: IneligibleKind) -> Seq<char> {
    match kind {
        IneligibleKind::OpenAiPoolExhausted => "openai pool exhausted (confirmed)"@,
        IneligibleKind::DeepSeekPool => "deepseek pool unavailable"@,
        IneligibleKind::DeepSeekFallbackBlocked =>
            "deepseek fallback blocked (openai not confirmed exhausted)"@,
        IneligibleKind::ContextCap => "request exceeds candidate context cap"@,
        IneligibleKind::Modality => "request modality not supported by candidate"@,
        IneligibleKind::ReasoningContract =>
            "request reasoning contract conflicts with candidate"@,
        IneligibleKind::WorkShape => "candidate does not serve the request work shape"@,
        IneligibleKind::ReasoningIntent => "candidate does not serve the request reasoning intent"@,
    }
}

/// The coarse text of a reason.
pub fn reason_label(kind: IneligibleKind) -> (r: &'static str)
    ensures
        r@ == label(kind),
{
    match kind {
        IneligibleKind::OpenAiPoolExhausted => "openai pool exhausted (confirmed)",
        IneligibleKind::DeepSeekPool => "deepseek pool unavailable",
        IneligibleKind::DeepSeekFallbackBlocked =>
            "deepseek fallback blocked (openai not confirmed exhausted)",
        IneligibleKind::ContextCap => "request exceeds candidate context cap",
        IneligibleKind::Modality => "request modality not supported by candidate",
        IneligibleKind::ReasoningContract => "request reasoning contract conflicts with candidate",
        IneligibleKind::WorkShape => "candidate does not serve the request work shape",
        IneligibleKind::ReasoningIntent => "candidate does not serve the request reasoning intent",
    }
}

/// Resource-aware candidate router.
#[derive(Debug)]
pub struct ResourceRouter {
    pub name: &'static str,
    /// In preference order.
    pub candidates: Vec<Candidate>,
    pub contract_filter: ContractFilter,
}

/// A request bound for the target that serves it.
#[derive(Debug, PartialEq, Eq)]
pub struct RoutedRequest {
    pub target: ModelId,
    pub request: Request,
    /// The pool of the candidate that serves it.
    pub pool: Pool,
    /// The contract that it was routed under.
    pub contract: Option<SemanticContract>,
    /// DeepSeek serves it as the sanctioned fallback of a route whose OpenAI pool
    /// is confirmed exhausted.
    pub sanctioned_fallback: bool,
}

/// The route has an OpenAI candidate.
pub open spec fn has_openai(candidates: Seq<Candidate>) -> bool {
    exists|i: int| 0 <= i < candidates.len() && (#[trigger] candidates[i]).pool == Pool::OpenAi
}

/// A contract as it stands, unless bounded work asks for deliberate reasoning.
pub open spec fn without_contradiction(name: Seq<char>, contract: SemanticContract) -> Result<
    Option<SemanticContract>,
    Seq<char>,
> {
    if contract.shape == WorkShape::Bounded && contract.intent == ReasoningIntent::Deliberate {
        Err(
            name
                + ": bounded work_shape with reasoning_intent=deliberate is contradictory; reclassify the task as deliberate/non-bounded before routing"@,
        )
    } else {
        Ok(Some(contract))
    }
}

/// The contract of a request under a filter, or the text of the error.
pub open spec fn contract_for(
    name: Seq<char>,
    filter: ContractFilter,
    request: Request,
) -> Result<Option<SemanticContract>, Seq<char>> {
    match filter {
        ContractFilter::Any => Ok(None),
        ContractFilter::Fixed(contract) => without_contradiction(name, contract),
        ContractFilter::Request => {
            let shape = text_of(extension(request, "work_shape"@));
            let intent = text_of(extension(request, "reasoning_intent"@));
            let class = text_of(extension(request, "work_class"@));
            if shape is Some && intent is Some {
                match (work_shape_of(shape->0), intent_of(intent->0)) {
                    (Err(m), _) => Err(name + ": "@ + m),
                    (_, Err(m)) => Err(name + ": "@ + m),
                    (Ok(shape), Ok(intent)) => without_contradiction(
                        name,
                        SemanticContract { shape, intent },
                    ),
                }
            } else if class is Some {
                match work_class_of(class->0) {
                    Err(m) => Err(name + ": "@ + m),
                    Ok(class) => without_contradiction(name, contract_of_class(class)),
                }
            } else {
                Err(
                    name
                        + ": work_shape + reasoning_intent metadata required (or legacy work_class); refusing to guess from prompt text"@,
                )
            }
        },
    }
}

/// The effort that eligibility goes by: bounded work is non-thinking, whatever
/// effort the request carries.
pub open spec fn effective_effort(
    contract: Option<SemanticContract>,
    effort: Option<Seq<char>>,
) -> Option<Seq<char>> {
    if contract is Some && contract->0.shape == WorkShape::Bounded {
        None
    } else {
        effort
    }
}

/// Some OpenAI candidate fits the request semantically.
pub open spec fn openai_serves(
    candidates: Seq<Candidate>,
    modality: Modality,
    effort: Option<Seq<char>>,
    contract: Option<SemanticContract>,
) -> bool {
    exists|i: int|
        0 <= i < candidates.len() && (#[trigger] candidates[i]).pool == Pool::OpenAi
            && semantic_fit(candidates[i], modality, effort, contract)
}

/// DeepSeek may serve only where no OpenAI candidate fits the request, or the
/// OpenAI pool is confirmed exhausted.
pub open spec fn fallback_allowed(
    candidates: Seq<Candidate>,
    snapshot: ResourceSnapshot,
    modality: Modality,
    effort: Option<Seq<char>>,
    contract: Option<SemanticContract>,
) -> bool {
    !openai_serves(candidates, modality, effort, contract) || (snapshot.openai is Some && confirmed(
        snapshot.openai->0,
    ))
}

/// What stands against candidate `i` for a request under a contract.
pub open spec fn route_objections(
    candidates: Seq<Candidate>,
    snapshot: ResourceSnapshot,
    request: Request,
    contract: Option<SemanticContract>,
    i: int,
) -> Seq<IneligibleKind> {
    let effort = effective_effort(contract, text::opt_text(request.reasoning.effort));
    let modality = modality_of(request);
    objections(
        candidates[i],
        snapshot,
        estimated_tokens(request),
        modality,
        effort,
        contract,
        fallback_allowed(candidates, snapshot, modality, effort, contract),
    )
}

/// Everything that stands against the first `n` candidates, in order.
pub open spec fn gathered(
    candidates: Seq<Candidate>,
    snapshot: ResourceSnapshot,
    request: Request,
    contract: Option<SemanticContract>,
    n: int,
) -> Seq<IneligibleKind>
    decreases n,
{
    if n <= 0 {
        Seq::empty()
    } else {
        gathered(candidates, snapshot, request, contract, n - 1) + route_objections(
            candidates,
            snapshot,
            request,
            contract,
            n - 1,
        )
    }
}

/// Candidate `i` is the first against which nothing stands.
pub open spec fn first_eligible(
    candidates: Seq<Candidate>,
    snapshot: ResourceSnapshot,
    request: Request,
    contract: Option<SemanticContract>,
    i: int,
) -> bool {
    &&& 0 <= i < candidates.len()
    &&& route_objections(candidates, snapshot, request, contract, i).len() == 0
    &&& forall|j: int|
        0 <= j < i ==> (#[trigger] route_objections(
            candidates,
            snapshot,
            request,
            contract,
            j,
        )).len() > 0
}

/// The effort that a candidate's policy puts on a request.
pub open spec fn enforced_effort(policy: ReasoningPolicy, effort: Option<Seq<char>>) -> Option<
    Seq<char>,
> {
    match policy {
        ReasoningPolicy::NonThinking => Some("none"@),
        ReasoningPolicy::Thinking => Some("high"@),
        ReasoningPolicy::Any => effort,
    }
}

/// The labels of the reasons, with `; ` between them.
pub open spec fn joined_labels(kinds: Seq<IneligibleKind>) -> Seq<char>
    decreases kinds.len(),
{
    if kinds.len() == 0 {
        Seq::empty()
    } else if kinds.len() == 1 {
        label(kinds[0])
    } else {
        joined_labels(kinds.drop_last()) + "; "@ + label(kinds.last())
    }
}

/// The text of the error where no candidate is eligible.
pub open spec fn none_eligible(name: Seq<char>, n: nat, kinds: Seq<IneligibleKind>) -> Seq<char> {
    name + ": no eligible target ("@ + text::decimal(n) + "); reasons: "@ + joined_labels(kinds)
}

fn join_labels(reasons: &Vec<(String, IneligibleKind)>) -> (r: String)
    ensures
        r@ == joined_labels(Seq::new(reasons@.len(), |i: int| reasons@[i].1)),
{
    let ghost kinds = Seq::new(reasons@.len(), |i: int| reasons@[i].1);
    let mut out = String::new();
    let mut i: usize = 0;
    proof {
        assert(kinds.take(0).len() == 0);
    }
    while i < reasons.len()
        invariant
            i <= reasons.len(),
            kinds == Seq::new(reasons@.len(), |i: int| reasons@[i].1),
            out@ == joined_labels(kinds.take(i as int)),
        decreases reasons.len() - i,
    {
        proof {
            assert(kinds.take(i + 1).drop_last() =~= kinds.take(i as int));
            assert(kinds.take(i + 1).last() == reasons@[i as int].1);
        }
        if i > 0 {
            out.append("; ");
        }
        out.append(reason_label(reasons[i].1));
        proof {
            if i == 0 {
                assert(out@ =~= label(kinds[0]));
            }
        }
        i = i + 1;
    }
    proof {
        assert(kinds.take(kinds.len() as int) =~= kinds);
    }
    out
}

fn prefixed(name: &str, message: &str) -> (r: LibsyError)
    ensures
        r@ == name@ + ": "@ + message@,
{
    LibsyError::AlgorithmError { message: text::join3(name, ": ", message) }
}

fn reject_contradiction(name: &str, contract: SemanticContract) -> (r: Result<
    Option<SemanticContract>,
    LibsyError,
>)
    ensures
        match r {
            Ok(c) => without_contradiction(name@, contract) == Ok::<
                Option<SemanticContract>,
                Seq<char>,
            >(c),
            Err(e) => without_contradiction(name@, contract) == Err::<
                Option<SemanticContract>,
                Seq<char>,
            >(e@),
        },
{
    if contract.shape == WorkShape::Bounded && contract.intent == ReasoningIntent::Deliberate {
        let mut message = text::copy_str(name);
        message.append(
            ": bounded work_shape with reasoning_intent=deliberate is contradictory; reclassify the task as deliberate/non-bounded before routing",
        );
        return Err(LibsyError::AlgorithmError { message });
    }
    Ok(Some(contract))
}

impl ResourceRouter {
    /// A router over the candidates, in preference order, without contract filter.
    pub fn new(name: &'static str, candidates: Vec<Candidate>) -> (r: Self)
        ensures
            r == (ResourceRouter { name, candidates, contract_filter: ContractFilter::Any }),
    {
        ResourceRouter { name, candidates, contract_filter: ContractFilter::Any }
    }

    /// The same router with another contract filter.
    pub fn with_contract_filter(self, contract_filter: ContractFilter) -> (r: Self)
        ensures
            r == (ResourceRouter { contract_filter, ..self }),
    {
        ResourceRouter { name: self.name, candidates: self.candidates, contract_filter }
    }

    /// The algorithm's name.
    pub fn name(&self) -> (r: &str)
        ensures
            r@ == self.name@,
    {
        self.name
    }

    /// Resolves the effective semantic contract for a request.
    ///
    /// Missing or invalid metadata is an error: critical semantics are never
    /// guessed from prompt text. Bounded work that asks for deliberate reasoning
    /// is rejected.
    pub fn effective_contract(&self, request: &Request) -> (r: Result<
        Option<SemanticContract>,
        LibsyError,
    >)
        ensures
            match r {
                Ok(c) => contract_for(self.name@, self.contract_filter, *request) == Ok::<
                    Option<SemanticContract>,
                    Seq<char>,
                >(c),
                Err(e) => contract_for(self.name@, self.contract_filter, *request) == Err::<
                    Option<SemanticContract>,
                    Seq<char>,
                >(e@),
            },
    {
        match self.contract_filter {
            ContractFilter::Any => Ok(None),
            ContractFilter::Fixed(contract) => reject_contradiction(self.name, contract),
            ContractFilter::Request => {
                let shape_raw = request.extension_text("work_shape");
                let intent_raw = request.extension_text("reasoning_intent");
                if let (Some(shape_raw), Some(intent_raw)) = (shape_raw, intent_raw) {
                    let shape = match WorkShape::parse(shape_raw) {
                        Ok(shape) => shape,
                        Err(message) => {
                            return Err(prefixed(self.name, message.as_str()));
                        },
                    };
                    let intent = match ReasoningIntent::parse(intent_raw) {
                        Ok(intent) => intent,
                        Err(message) => {
                            return Err(prefixed(self.name, message.as_str()));
                        },
                    };
                    return reject_contradiction(self.name, SemanticContract { shape, intent });
                }
                if let Some(raw) = request.extension_text("work_class") {
                    let class = match WorkClass::parse(raw) {
                        Ok(class) => class,
                        Err(message) => {
                            return Err(prefixed(self.name, message.as_str()));
                        },
                    };
                    return reject_contradiction(
                        self.name,
                        SemanticContract::from_work_class(class),
                    );
                }
                let mut message = text::copy_str(self.name);
                message.append(
                    ": work_shape + reasoning_intent metadata required (or legacy work_class); refusing to guess from prompt text",
                );
                Err(LibsyError::AlgorithmError { message })
            },
        }
    }

    fn openai_fits(
        &self,
        modality: Modality,
        effort: &Option<String>,
        contract: Option<SemanticContract>,
    ) -> (r: bool)
        ensures
            r == openai_serves(self.candidates@, modality, text::opt_text(*effort), contract),
    {
        let mut i: usize = 0;
        while i < self.candidates.len()
            invariant
                i <= self.candidates.len(),
                forall|j: int|
                    0 <= j < i ==> !((#[trigger] self.candidates@[j]).pool == Pool::OpenAi
                        && semantic_fit(
                        self.candidates@[j],
                        modality,
                        text::opt_text(*effort),
                        contract,
                    )),
            decreases self.candidates.len() - i,
        {
            let candidate = &self.candidates[i];
            if candidate.pool == Pool::OpenAi && candidate_semantic_eligible(
                candidate,
                modality,
                effort,
                contract,
            ) {
                assert(self.candidates@[i as int].pool == Pool::OpenAi);
                return true;
            }
            i = i + 1;
        }
        false
    }

    fn has_openai_candidate(&self) -> (r: bool)
        ensures
            r == has_openai(self.candidates@),
    {
        let mut i: usize = 0;
        while i < self.candidates.len()
            invariant
                i <= self.candidates.len(),
                forall|j: int|
                    0 <= j < i ==> (#[trigger] self.candidates@[j]).pool != Pool::OpenAi,
            decreases self.candidates.len() - i,
        {
            if self.candidates[i].pool == Pool::OpenAi {
                assert(self.candidates@[i as int].pool == Pool::OpenAi);
                return true;
            }
            i = i + 1;
        }
        false
    }

    /// Routes a request on the resource state that was fetched for it: the first
    /// eligible candidate takes it, with the effort that the candidate's policy
    /// puts on it.
    ///
    /// # Errors
    ///
    /// Where the fetch failed (its error text is passed in), where the contract
    /// cannot be resolved, and where no candidate is eligible.
    pub fn route(
        &self,
        fetched: Result<&ResourceSnapshot, String>,
        request: Request,
    ) -> (r: Result<RoutedRequest, LibsyError>)
        ensures
            match fetched {
                Err(error) => r is Err && r->Err_0@ == self.name@
                    + ": resource state fetch failed ("@ + error@ + "); see server logs"@,
                Ok(snapshot) => match contract_for(self.name@, self.contract_filter, request) {
                    Err(message) => r is Err && r->Err_0@ == message,
                    Ok(contract) => match r {
                        Ok(routed) => exists|i: int|
                            {
                                &&& #[trigger] first_eligible(
                                    self.candidates@,
                                    *snapshot,
                                    request,
                                    contract,
                                    i,
                                )
                                &&& routed.target@ == self.candidates@[i].target@
                                &&& text::opt_text(routed.request.reasoning.effort)
                                    == enforced_effort(
                                    self.candidates@[i].reasoning,
                                    text::opt_text(request.reasoning.effort),
                                )
                                &&& routed.request == (Request {
                                    reasoning: routed.request.reasoning,
                                    ..request
                                })
                                &&& routed.pool == self.candidates@[i].pool
                                &&& routed.contract == contract
                                &&& routed.sanctioned_fallback == (self.candidates@[i].pool
                                    == Pool::DeepSeek && has_openai(self.candidates@)
                                    && snapshot.openai is Some && confirmed(snapshot.openai->0))
                            },
                        Err(e) => {
                            &&& forall|i: int|
                                0 <= i < self.candidates@.len() ==> (#[trigger] route_objections(
                                    self.candidates@,
                                    *snapshot,
                                    request,
                                    contract,
                                    i,
                                )).len() > 0
                            &&& e@ == none_eligible(
                                self.name@,
                                self.candidates@.len(),
                                gathered(
                                    self.candidates@,
                                    *snapshot,
                                    request,
                                    contract,
                                    self.candidates@.len() as int,
                                ),
                            )
                        },
                    },
                },
            },
    {
        let snapshot = match fetched {
            Ok(snapshot) => snapshot,
            Err(error) => {
                let mut message = text::join3(
                    self.name,
                    ": resource state fetch failed (",
                    error.as_str(),
                );
                message.append("); see server logs");
                return Err(LibsyError::AlgorithmError { message });
            },
        };
        let contract = match self.effective_contract(&request) {
            Ok(contract) => contract,
            Err(e) => {
                return Err(e);
            },
        };
        let request_tokens: u64 = estimate_request_tokens(&request);
        let modality = request_modality(&request);
        // Bounded lanes are non-thinking by policy: an effort attached to bounded
        // work must not exclude a candidate and so open the fallback.
        let bounded = match contract {
            Some(contract) => contract.shape == WorkShape::Bounded,
            None => false,
        };
        let effort = if bounded {
            None
        } else {
            text::copy_opt(&request.reasoning.effort)
        };
        let exhausted = match &snapshot.openai {
            Some(openai) => openai.confirmed_exhausted(),
            None => false,
        };
        let allowed = !self.openai_fits(modality, &effort, contract) || exhausted;
        let openai_route_exhausted = exhausted && self.has_openai_candidate();
        let mut reasons: Vec<(String, IneligibleKind)> = Vec::new();
        let mut i: usize = 0;
        while i < self.candidates.len()
            invariant
                i <= self.candidates.len(),
                request_tokens == estimated_tokens(request),
                modality == modality_of(request),
                openai_route_exhausted == (has_openai(self.candidates@) && snapshot.openai is Some
                    && confirmed(snapshot.openai->0)),
                text::opt_text(effort) == effective_effort(
                    contract,
                    text::opt_text(request.reasoning.effort),
                ),
                allowed == fallback_allowed(
                    self.candidates@,
                    *snapshot,
                    modality,
                    text::opt_text(effort),
                    contract,
                ),
                contract_for(self.name@, self.contract_filter, request) == Ok::<
                    Option<SemanticContract>,
                    Seq<char>,
                >(contract),
                fetched == Ok::<&ResourceSnapshot, String>(snapshot),
                forall|j: int|
                    0 <= j < i ==> (#[trigger] route_objections(
                        self.candidates@,
                        *snapshot,
                        request,
                        contract,
                        j,
                    )).len() > 0,
                Seq::new(reasons@.len(), |k: int| reasons@[k].1) == gathered(
                    self.candidates@,
                    *snapshot,
                    request,
                    contract,
                    i as int,
                ),
            decreases self.candidates.len() - i,
        {
            let ghost kinds = Seq::new(reasons@.len(), |k: int| reasons@[k].1);
            let ghost before = reasons_view(reasons@);
            let ghost found = route_objections(
                self.candidates@,
                *snapshot,
                request,
                contract,
                i as int,
            );
            let candidate = &self.candidates[i];
            let eligible = candidate_eligible(
                candidate,
                snapshot,
                request_tokens,
                modality,
                &effort,
                contract,
                allowed,
                &mut reasons,
            );
            if eligible {
                let mut routed = request;
                match candidate.reasoning {
                    ReasoningPolicy::NonThinking => {
                        routed.reasoning.effort = Some(text::copy_str("none"));
                    },
                    ReasoningPolicy::Thinking => {
                        routed.reasoning.effort = Some(text::copy_str("high"));
                    },
                    ReasoningPolicy::Any => {},
                }
                proof {
                    assert(first_eligible(
                        self.candidates@,
                        *snapshot,
                        request,
                        contract,
                        i as int,
                    ));
                }
                return Ok(
                    RoutedRequest {
                        target: text::copy_str(candidate.target.as_str()),
                        request: routed,
                        pool: candidate.pool,
                        contract,
                        sanctioned_fallback: openai_route_exhausted && candidate.pool
                            == Pool::DeepSeek,
                    },
                );
            }
            proof {
                let now = reasons_view(reasons@);
                let added = against(candidate.target@, found);
                assert(now == before + added);
                assert(now.len() == before.len() + added.len());
                assert(added.len() == found.len());
                assert(now.len() == reasons@.len());
                let after = Seq::new(reasons@.len(), |k: int| reasons@[k].1);
                assert forall|k: int| 0 <= k < after.len() implies after[k] == (kinds + found)[k] by {
                    assert(after[k] == now[k].1);
                    if k < before.len() {
                        assert(now[k] == before[k]);
                        assert(before[k].1 == kinds[k]);
                    } else {
                        assert(now[k] == added[k - before.len()]);
                    }
                }
                assert(after =~= kinds + found);
            }
            i = i + 1;
        }
        let labels = join_labels(&reasons);
        let mut message = text::copy_str(self.name);
        message.append(": no eligible target (");
        text::push_decimal(&mut message, self.candidates.len() as u64);
        message.append("); reasons: ");
        message.append(labels.as_str());
        Err(LibsyError::AlgorithmError { message })
    }
}

/// At most one candidate is the first eligible one.
pub proof fn first_eligible_is_unique(
    candidates: Seq<Candidate>,
    snapshot: ResourceSnapshot,
    request: Request,
    contract: Option<SemanticContract>,
    i: int,
    j: int,
)
    requires
        first_eligible(candidates, snapshot, request, contract, i),
        first_eligible(candidates, snapshot, request, contract, j),
    ensures
        i == j,
{
    if i < j {
        assert(route_objections(candidates, snapshot, request, contract, i).len() > 0);
    }
    if j < i {
        assert(route_objections(candidates, snapshot, request, contract, j).len() > 0);
    }
}

/// An eligible candidate fits the request semantically.
pub proof fn eligible_candidate_fits(
    candidate: Candidate,
    snapshot: ResourceSnapshot,
    request_tokens: u64,
    modality: Modality,
    effort: Option<Seq<char>>,
    contract: Option<SemanticContract>,
    deepseek_fallback_allowed: bool,
)
    requires
        objections(
            candidate,
            snapshot,
            request_tokens,
            modality,
            effort,
            contract,
            deepseek_fallback_allowed,
        ).len() == 0,
    ensures
        semantic_fit(candidate, modality, effort, contract),
        candidate.context_cap_tokens is Some ==> request_tokens <= candidate.context_cap_tokens->0,
{
}

/// A DeepSeek candidate is selected only with a positive balance, and only where
/// no OpenAI candidate fits the request or the OpenAI pool is confirmed
/// exhausted. Unknown telemetry and an exceeded context cap open no fallback.
pub proof fn deepseek_serves_only_as_sanctioned(
    candidates: Seq<Candidate>,
    snapshot: ResourceSnapshot,
    request: Request,
    contract: Option<SemanticContract>,
    i: int,
)
    requires
        first_eligible(candidates, snapshot, request, contract, i),
        candidates[i].pool == Pool::DeepSeek,
    ensures
        snapshot.deepseek is Some && balance_positive(snapshot.deepseek->0),
        openai_serves(
            candidates,
            modality_of(request),
            effective_effort(contract, text::opt_text(request.reasoning.effort)),
            contract,
        ) ==> snapshot.openai is Some && confirmed(snapshot.openai->0),
{
    let effort = effective_effort(contract, text::opt_text(request.reasoning.effort));
    let allowed = fallback_allowed(candidates, snapshot, modality_of(request), effort, contract);
    let pool = pool_objections(Pool::DeepSeek, snapshot, allowed);
    assert(pool.len() == 0);
    if !allowed {
        assert(pool.last() == IneligibleKind::DeepSeekFallbackBlocked);
    }
}

/// Only confirmed exhaustion counts against an OpenAI candidate's pool: with
/// missing or unavailable telemetry, or a reached spend control alone, nothing does.
pub proof fn unconfirmed_openai_pool_stays_open(
    snapshot: ResourceSnapshot,
    deepseek_fallback_allowed: bool,
)
    requires
        snapshot.openai is Some ==> !snapshot.openai->0.limit_reached && (
        snapshot.openai->0.weekly_used_percent is None
            || snapshot.openai->0.weekly_used_percent->0 < FULL_ALLOWANCE),
    ensures
        pool_objections(Pool::OpenAi, snapshot, deepseek_fallback_allowed).len() == 0,
{
}

/// A resolved contract, whether fixed or read from the request, never pairs
/// bounded work with deliberate reasoning.
pub proof fn bounded_work_is_never_deliberate(
    name: Seq<char>,
    filter: ContractFilter,
    request: Request,
)
    ensures
        match contract_for(name, filter, request) {
            Ok(contract) => contract is Some ==> !(contract->0.shape == WorkShape::Bounded
                && contract->0.intent == ReasoningIntent::Deliberate),
            Err(_) => true,
        },
{
}

/// On a bounded contract the effort that a request carries changes nothing.
pub proof fn bounded_work_ignores_effort(
    candidates: Seq<Candidate>,
    snapshot: ResourceSnapshot,
    request: Request,
    other: Request,
    contract: SemanticContract,
    i: int,
)
    requires
        contract.shape == WorkShape::Bounded,
        other == (Request { reasoning: other.reasoning, ..request }),
    ensures
        route_objections(candidates, snapshot, request, Some(contract), i) == route_objections(
            candidates,
            snapshot,
            other,
            Some(contract),
            i,
        ),
{
}

/// The effort put on a routed request never contradicts the policy of the
/// candidate that serves it.
pub proof fn candidate_policy_wins(policy: ReasoningPolicy, effort: Option<Seq<char>>)
    ensures
        !effort_conflicts(policy, enforced_effort(policy, effort)),
{
    reveal_strlit("none");
    reveal_strlit("high");
    assert("none"@[0] == 'n');
    assert("high"@[0] == 'h');
}

/// The candidate that a request was routed to.
proof fn candidate_behind(
    router: ResourceRouter,
    snapshot: ResourceSnapshot,
    request: Request,
    r: Result<RoutedRequest, LibsyError>,
) -> (i: int)
    requires
        call_ensures(
            ResourceRouter::route,
            (&router, Ok::<&ResourceSnapshot, String>(&snapshot), request),
            r,
        ),
        r is Ok,
    ensures
        first_eligible(router.candidates@, snapshot, request, r->Ok_0.contract, i),
        r->Ok_0.target@ == router.candidates@[i].target@,
        text::opt_text(r->Ok_0.request.reasoning.effort) == enforced_effort(
            router.candidates@[i].reasoning,
            text::opt_text(request.reasoning.effort),
        ),
        r->Ok_0.request == (Request { reasoning: r->Ok_0.request.reasoning, ..request }),
        r->Ok_0.pool == router.candidates@[i].pool,
        contract_for(router.name@, router.contract_filter, request) == Ok::<
            Option<SemanticContract>,
            Seq<char>,
        >(r->Ok_0.contract),
        r->Ok_0.sanctioned_fallback == (router.candidates@[i].pool == Pool::DeepSeek && has_openai(
            router.candidates@,
        ) && snapshot.openai is Some && confirmed(snapshot.openai->0)),
{
    let contract = contract_for(router.name@, router.contract_filter, request)->Ok_0;
    let routed = r->Ok_0;
    choose|i: int|
        {
            &&& #[trigger] first_eligible(router.candidates@, snapshot, request, contract, i)
            &&& routed.target@ == router.candidates@[i].target@
            &&& text::opt_text(routed.request.reasoning.effort) == enforced_effort(
                router.candidates@[i].reasoning,
                text::opt_text(request.reasoning.effort),
            )
            &&& routed.request == (Request { reasoning: routed.request.reasoning, ..request })
            &&& routed.pool == router.candidates@[i].pool
            &&& routed.contract == contract
            &&& routed.sanctioned_fallback == (router.candidates@[i].pool == Pool::DeepSeek
                && has_openai(router.candidates@) && snapshot.openai is Some && confirmed(
                snapshot.openai->0,
            ))
        }
}

/// No requested reasoning is silently switched off or on: outside bounded work a
/// request reaches a candidate that does not think only where it names no effort,
/// an empty one or `none`, and a candidate that thinks only where it does not name
/// `none`. The candidate's policy then settles the effort that goes out: `none`,
/// `high`, or what the caller named where the candidate takes any.
pub proof fn effort_fits_the_selected_candidate(
    router: ResourceRouter,
    snapshot: ResourceSnapshot,
    request: Request,
    r: Result<RoutedRequest, LibsyError>,
)
    requires
        call_ensures(
            ResourceRouter::route,
            (&router, Ok::<&ResourceSnapshot, String>(&snapshot), request),
            r,
        ),
        r is Ok,
    ensures
        exists|i: int|
            {
                let candidate = #[trigger] router.candidates@[i];
                let asked = request.reasoning.effort;
                let sent = r->Ok_0.request.reasoning.effort;
                let bounded = r->Ok_0.contract is Some && r->Ok_0.contract->0.shape
                    == WorkShape::Bounded;
                &&& 0 <= i < router.candidates@.len()
                &&& r->Ok_0.target@ == candidate.target@
                &&& candidate.reasoning == ReasoningPolicy::NonThinking && !bounded ==> asked is None
                    || asked->0@.len() == 0 || asked->0@ == "none"@
                &&& candidate.reasoning == ReasoningPolicy::Thinking && !bounded ==> asked is None
                    || asked->0@ != "none"@
                &&& candidate.reasoning == ReasoningPolicy::NonThinking ==> sent is Some && sent->0@
                    == "none"@
                &&& candidate.reasoning == ReasoningPolicy::Thinking ==> sent is Some && sent->0@
                    == "high"@
                &&& candidate.reasoning == ReasoningPolicy::Any ==> (sent is Some <==> asked is Some)
                    && (asked is Some ==> sent->0@ == asked->0@)
            },
{
    let i = candidate_behind(router, snapshot, request, r);
    assert(router.candidates@[i].target@ == r->Ok_0.target@);
}

/// The selected candidate can serve: it serves the contract's work shape and intent,
/// its cap holds the estimated request, it takes the request's modality (an image
/// in any message or instruction makes it an image request), its OpenAI pool is not
/// confirmed exhausted, and its DeepSeek pool is available with a positive balance.
pub proof fn selected_candidate_can_serve(
    router: ResourceRouter,
    snapshot: ResourceSnapshot,
    request: Request,
    tokens: u64,
    r: Result<RoutedRequest, LibsyError>,
)
    requires
        call_ensures(
            ResourceRouter::route,
            (&router, Ok::<&ResourceSnapshot, String>(&snapshot), request),
            r,
        ),
        call_ensures(estimate_request_tokens, (&request,), tokens),
        r is Ok,
    ensures
        exists|i: int|
            {
                let candidate = #[trigger] router.candidates@[i];
                let contract = r->Ok_0.contract;
                let image = exists|m: int, b: int|
                    (0 <= m < request.messages@.len() && 0 <= b
                        < request.messages@[m].content@.len()
                        && #[trigger] request.messages@[m].content@[b] is Image);
                let image_instruction = exists|m: int, b: int|
                    (0 <= m < request.instructions@.len() && 0 <= b
                        < request.instructions@[m].content@.len()
                        && #[trigger] request.instructions@[m].content@[b] is Image);
                &&& 0 <= i < router.candidates@.len()
                &&& r->Ok_0.target@ == candidate.target@
                &&& r->Ok_0.pool == candidate.pool
                &&& contract is Some && candidate.shapes@.len() > 0 ==> candidate.shapes@.contains(
                    contract->0.shape,
                )
                &&& contract is Some && candidate.intents@.len() > 0 ==> candidate.intents@.contains(
                    contract->0.intent,
                )
                &&& candidate.context_cap_tokens is Some ==> tokens
                    <= candidate.context_cap_tokens->0
                &&& image || image_instruction ==> candidate.modalities@.contains(Modality::Image)
                &&& !image && !image_instruction ==> candidate.modalities@.contains(Modality::Text)
                &&& candidate.pool == Pool::OpenAi && snapshot.openai is Some
                    ==> !snapshot.openai->0.limit_reached && (
                snapshot.openai->0.weekly_used_percent is None
                    || snapshot.openai->0.weekly_used_percent->0 < 100_000_000)
                &&& candidate.pool == Pool::DeepSeek ==> snapshot.deepseek is Some
                    && snapshot.deepseek->0.is_available && snapshot.deepseek->0.error is None
                    && decimal::is_positive(text::trimmed(snapshot.deepseek->0.total_balance@))
            },
{
    let i = candidate_behind(router, snapshot, request, r);
    let candidate = router.candidates@[i];
    let contract = r->Ok_0.contract;
    let effort = effective_effort(contract, text::opt_text(request.reasoning.effort));
    eligible_candidate_fits(
        candidate,
        snapshot,
        tokens,
        modality_of(request),
        effort,
        contract,
        fallback_allowed(router.candidates@, snapshot, modality_of(request), effort, contract),
    );
    images_are_seen(request.messages@);
    images_are_seen(request.instructions@);
    if candidate.pool == Pool::DeepSeek {
        deepseek_serves_only_as_sanctioned(router.candidates@, snapshot, request, contract, i);
    }
    assert(router.candidates@[i].target@ == r->Ok_0.target@);
}

/// An image counts wherever it stands.
proof fn images_are_seen(messages: Seq<Message>)
    ensures
        any_image(messages) <==> exists|m: int, b: int|
            (0 <= m < messages.len() && 0 <= b < messages[m].content@.len()
                && #[trigger] messages[m].content@[b] is Image),
{
    if any_image(messages) {
        let m = choose|m: int|
            0 <= m < messages.len() && has_image((#[trigger] messages[m]).content@);
        let b = choose|b: int|
            0 <= b < messages[m].content@.len() && (#[trigger] messages[m].content@[b]) is Image;
        assert(messages[m].content@[b] is Image);
    }
    if exists|m: int, b: int|
        (0 <= m < messages.len() && 0 <= b < messages[m].content@.len()
            && #[trigger] messages[m].content@[b] is Image) {
        let (m, b) = choose|m: int, b: int|
            (0 <= m < messages.len() && 0 <= b < messages[m].content@.len()
                && #[trigger] messages[m].content@[b] is Image);
        assert(has_image(messages[m].content@));
    }
}

/// Whether a candidate fits a request semantically, in plain terms.
pub proof fn semantic_fit_in_plain_terms(
    candidate: Candidate,
    modality: Modality,
    effort: Option<String>,
    contract: Option<SemanticContract>,
    r: bool,
)
    requires
        call_ensures(
            candidate_semantic_eligible,
            (&candidate, modality, &effort, contract),
            r,
        ),
    ensures
        r <==> {
            &&& contract is Some && candidate.shapes@.len() > 0 ==> candidate.shapes@.contains(
                contract->0.shape,
            )
            &&& contract is Some && candidate.intents@.len() > 0 ==> candidate.intents@.contains(
                contract->0.intent,
            )
            &&& candidate.modalities@.contains(modality)
            &&& candidate.reasoning == ReasoningPolicy::NonThinking ==> effort is None
                || effort->0@.len() == 0 || effort->0@ == "none"@
            &&& candidate.reasoning == ReasoningPolicy::Thinking ==> effort is None || effort->0@
                != "none"@
        },
{
}

/// DeepSeek serves only as the sanctioned fallback: where an OpenAI candidate of the
/// route fits the request, the OpenAI pool is confirmed exhausted, and the routed
/// request says that it is the fallback exactly where DeepSeek serves it on a route
/// with an OpenAI candidate whose pool is confirmed exhausted.
pub proof fn deepseek_never_displaces_openai(
    router: ResourceRouter,
    snapshot: ResourceSnapshot,
    request: Request,
    r: Result<RoutedRequest, LibsyError>,
    effort: Option<String>,
    modality: Modality,
    fits: bool,
    o: int,
)
    requires
        call_ensures(
            ResourceRouter::route,
            (&router, Ok::<&ResourceSnapshot, String>(&snapshot), request),
            r,
        ),
        r is Ok,
        0 <= o < router.candidates@.len(),
        router.candidates@[o].pool == Pool::OpenAi,
        effort is None <==> (request.reasoning.effort is None || (r->Ok_0.contract is Some
            && r->Ok_0.contract->0.shape == WorkShape::Bounded)),
        effort is Some ==> effort->0@ == request.reasoning.effort->0@,
        call_ensures(request_modality, (&request,), modality),
        call_ensures(
            candidate_semantic_eligible,
            (&router.candidates@[o], modality, &effort, r->Ok_0.contract),
            fits,
        ),
    ensures
        ({
            let exhausted = snapshot.openai is Some && (snapshot.openai->0.limit_reached || (
            snapshot.openai->0.weekly_used_percent is Some
                && snapshot.openai->0.weekly_used_percent->0 >= 100_000_000));
            &&& r->Ok_0.pool == Pool::DeepSeek && fits ==> exhausted
            &&& r->Ok_0.sanctioned_fallback <==> r->Ok_0.pool == Pool::DeepSeek && exhausted
        }),
{
    let i = candidate_behind(router, snapshot, request, r);
    assert(has_openai(router.candidates@));
    assert(text::opt_text(effort) == effective_effort(
        r->Ok_0.contract,
        text::opt_text(request.reasoning.effort),
    ));
    if r->Ok_0.pool == Pool::DeepSeek {
        deepseek_serves_only_as_sanctioned(
            router.candidates@,
            snapshot,
            request,
            r->Ok_0.contract,
            i,
        );
        if fits {
            assert(openai_serves(
                router.candidates@,
                modality,
                text::opt_text(effort),
                r->Ok_0.contract,
            ));
        }
    }
}

/// The first that can serve takes the request. A candidate that serves the contract,
/// whose cap holds the request, that takes its modality and effort, and whose pool
/// is open, is selected unless an earlier one is. The DeepSeek pool is open where
/// its balance is, and the OpenAI pool is confirmed exhausted or no OpenAI candidate
/// of the route fits.
pub proof fn first_that_can_serve_is_selected(
    router: ResourceRouter,
    snapshot: ResourceSnapshot,
    request: Request,
    tokens: u64,
    modality: Modality,
    contract: Option<SemanticContract>,
    effort: Option<String>,
    r: Result<RoutedRequest, LibsyError>,
    j: int,
)
    requires
        call_ensures(
            ResourceRouter::route,
            (&router, Ok::<&ResourceSnapshot, String>(&snapshot), request),
            r,
        ),
        call_ensures(estimate_request_tokens, (&request,), tokens),
        call_ensures(request_modality, (&request,), modality),
        call_ensures(
            ResourceRouter::effective_contract,
            (&router, &request),
            Ok::<Option<SemanticContract>, LibsyError>(contract),
        ),
        effort is None <==> (request.reasoning.effort is None || (contract is Some
            && contract->0.shape == WorkShape::Bounded)),
        effort is Some ==> effort->0@ == request.reasoning.effort->0@,
        0 <= j < router.candidates@.len(),
        call_ensures(
            candidate_semantic_eligible,
            (&router.candidates@[j], modality, &effort, contract),
            true,
        ),
        router.candidates@[j].context_cap_tokens is None || tokens
            <= router.candidates@[j].context_cap_tokens->0,
        router.candidates@[j].pool == Pool::OpenAi ==> snapshot.openai is None || (
        !snapshot.openai->0.limit_reached && (snapshot.openai->0.weekly_used_percent is None
            || snapshot.openai->0.weekly_used_percent->0 < 100_000_000)),
        router.candidates@[j].pool == Pool::DeepSeek ==> {
            &&& snapshot.deepseek is Some
            &&& snapshot.deepseek->0.is_available
            &&& snapshot.deepseek->0.error is None
            &&& decimal::is_positive(text::trimmed(snapshot.deepseek->0.total_balance@))
            &&& (snapshot.openai is Some && (snapshot.openai->0.limit_reached || (
            snapshot.openai->0.weekly_used_percent is Some
                && snapshot.openai->0.weekly_used_percent->0 >= 100_000_000))) || forall|o: int|
                0 <= o < router.candidates@.len() && (#[trigger] router.candidates@[o]).pool
                    == Pool::OpenAi ==> !semantic_fit(
                    router.candidates@[o],
                    modality,
                    text::opt_text(effort),
                    contract,
                )
        },
    ensures
        r is Ok,
        r->Ok_0.contract == contract,
        exists|i: int| 0 <= i <= j && (#[trigger] router.candidates@[i]).target@ == r->Ok_0.target@,
{
    let e = effective_effort(contract, text::opt_text(request.reasoning.effort));
    assert(text::opt_text(effort) == e);
    let allowed = fallback_allowed(router.candidates@, snapshot, modality, e, contract);
    assert(semantic_fit(router.candidates@[j], modality, e, contract));
    if router.candidates@[j].pool == Pool::DeepSeek {
        assert(allowed);
        assert(pool_objections(Pool::DeepSeek, snapshot, true) =~= Seq::empty());
    }
    assert(route_objections(router.candidates@, snapshot, request, contract, j).len() == 0);
    let i = candidate_behind(router, snapshot, request, r);
    if i > j {
        assert(route_objections(router.candidates@, snapshot, request, contract, j).len() > 0);
    }
    assert(router.candidates@[i].target@ == r->Ok_0.target@);
}

/// A routed request is the caller's but for the effort.
pub proof fn routing_changes_the_effort_alone(
    router: ResourceRouter,
    snapshot: ResourceSnapshot,
    request: Request,
    r: Result<RoutedRequest, LibsyError>,
)
    requires
        call_ensures(
            ResourceRouter::route,
            (&router, Ok::<&ResourceSnapshot, String>(&snapshot), request),
            r,
        ),
        r is Ok,
    ensures
        r->Ok_0.request.model == request.model,
        r->Ok_0.request.messages == request.messages,
        r->Ok_0.request.instructions == request.instructions,
        r->Ok_0.request.tools == request.tools,
        r->Ok_0.request.extensions == request.extensions,
        r->Ok_0.request.max_output_tokens == request.max_output_tokens,
        r->Ok_0.request.candidate_input_tokens == request.candidate_input_tokens,
{
    let i = candidate_behind(router, snapshot, request, r);
}

/// A failed fetch routes nothing: the error names the route and the failure.
pub proof fn failed_fetch_routes_nothing(
    router: ResourceRouter,
    error: String,
    request: Request,
    r: Result<RoutedRequest, LibsyError>,
)
    requires
        call_ensures(
            ResourceRouter::route,
            (&router, Err::<&ResourceSnapshot, String>(error), request),
            r,
        ),
    ensures
        r is Err,
        r->Err_0@ == router.name@ + ": resource state fetch failed ("@ + error@
            + "); see server logs"@,
{
}

/// Where a contract comes from. Without a filter there is none; a fixed one is as
/// configured; one of the request is read from `work_shape` and `reasoning_intent`
/// where both are texts, and else from the legacy `work_class`, of which `reasoning`
/// is deliberate agentic work. Anything else is refused, and so is bounded work that
/// is to be deliberate.
pub proof fn contracts_come_from_structured_metadata(
    router: ResourceRouter,
    request: Request,
    r: Result<Option<SemanticContract>, LibsyError>,
)
    requires
        call_ensures(ResourceRouter::effective_contract, (&router, &request), r),
    ensures
        ({
            let shape = extension(request, "work_shape"@);
            let intent = extension(request, "reasoning_intent"@);
            let class = extension(request, "work_class"@);
            let both = shape is Some && shape->0 is Text && intent is Some && intent->0 is Text;
            let s = text::lower(text::trimmed(shape->0->Text_0));
            let t = text::lower(text::trimmed(intent->0->Text_0));
            let c = text::lower(text::trimmed(class->0->Text_0));
            match router.contract_filter {
                ContractFilter::Any => r is Ok && r->Ok_0 is None,
                ContractFilter::Fixed(contract) => {
                    &&& r is Err <==> contract.shape == WorkShape::Bounded && contract.intent
                        == ReasoningIntent::Deliberate
                    &&& r is Ok ==> r->Ok_0 == Some(contract)
                },
                ContractFilter::Request => if both {
                    &&& r is Ok <==> {
                        ||| s == "bounded"@ && t == "none"@
                        ||| s == "agentic"@ && (t == "none"@ || t == "deliberate"@)
                    }
                    &&& r is Ok ==> r->Ok_0 is Some && (r->Ok_0->0.shape == WorkShape::Bounded <==> s
                        == "bounded"@) && (r->Ok_0->0.intent == ReasoningIntent::Deliberate <==> t
                        == "deliberate"@)
                } else if class is Some && class->0 is Text {
                    &&& r is Ok <==> c == "bounded"@ || c == "agentic"@ || c == "reasoning"@
                    &&& r is Ok ==> r->Ok_0 is Some && (r->Ok_0->0.shape == WorkShape::Bounded <==> c
                        == "bounded"@) && (r->Ok_0->0.intent == ReasoningIntent::Deliberate <==> c
                        == "reasoning"@)
                } else {
                    r is Err && r->Err_0@ == router.name@
                        + ": work_shape + reasoning_intent metadata required (or legacy work_class); refusing to guess from prompt text"@
                },
            }
        }),
{
    reveal_strlit("bounded");
    reveal_strlit("agentic");
    reveal_strlit("reasoning");
    reveal_strlit("none");
    reveal_strlit("deliberate");
    assert("bounded"@[0] == 'b' && "agentic"@[0] == 'a' && "reasoning"@[0] == 'r');
    assert("none"@[0] == 'n' && "deliberate"@[0] == 'd');
}

/// Estimates add up: a text counts a quarter of its characters, an image 1024
/// tokens, anything else nothing, over all blocks of all messages and instructions.
pub proof fn estimates_add_up(
    content: Seq<ContentBlock>,
    block: ContentBlock,
    messages: Seq<Message>,
    message: Message,
)
    ensures
        content_tokens(Seq::empty()) == 0,
        content_tokens(content.push(block)) == content_tokens(content) + (match block {
            ContentBlock::Text { text } => text@.len() / 4,
            ContentBlock::Image => 1024,
            ContentBlock::Other => 0,
        }),
        messages_tokens(Seq::empty()) == 0,
        messages_tokens(messages.push(message)) == messages_tokens(messages) + content_tokens(
            message.content@,
        ),
{
    assert(content.push(block).drop_last() =~= content);
    assert(messages.push(message).drop_last() =~= messages);
}

/// The estimate of a request is that of its messages and its instructions together,
/// held at the largest 64-bit number.
pub proof fn estimate_covers_messages_and_instructions(request: Request, tokens: u64)
    requires
        call_ensures(estimate_request_tokens, (&request,), tokens),
    ensures
        ({
            let sum = messages_tokens(request.messages@) + messages_tokens(request.instructions@);
            &&& sum <= u64::MAX ==> tokens == sum
            &&& sum > u64::MAX ==> tokens == u64::MAX
        }),
{
}

/// An image in any message or instruction makes an image request; without one it is
/// a text request.
pub proof fn an_image_anywhere_counts(request: Request, modality: Modality)
    requires
        call_ensures(request_modality, (&request,), modality),
    ensures
        modality == Modality::Image <==> {
            ||| exists|m: int, b: int|
                (0 <= m < request.messages@.len() && 0 <= b < request.messages@[m].content@.len()
                    && #[trigger] request.messages@[m].content@[b] is Image)
            ||| exists|m: int, b: int|
                (0 <= m < request.instructions@.len() && 0 <= b
                    < request.instructions@[m].content@.len()
                    && #[trigger] request.instructions@[m].content@[b] is Image)
        },
{
    images_are_seen(request.messages@);
    images_are_seen(request.instructions@);
}

/// Only the limit flag or a reported use of the whole allowance confirms that the
/// OpenAI pool is exhausted; what remains and what is used make up the whole.
pub proof fn exhaustion_is_confirmed_by_the_allowance(
    state: OpenAiResourceState,
    exhausted: bool,
    eligible: bool,
    remaining: Option<i128>,
)
    requires
        call_ensures(OpenAiResourceState::confirmed_exhausted, (&state,), exhausted),
        call_ensures(OpenAiResourceState::weekly_eligible, (&state,), eligible),
        call_ensures(OpenAiResourceState::weekly_remaining_percent, (&state,), remaining),
    ensures
        exhausted <==> state.limit_reached || (state.weekly_used_percent is Some
            && state.weekly_used_percent->0 >= 100_000_000),
        eligible <==> state.available && !state.spend_control_reached && !exhausted,
        remaining is Some <==> state.weekly_used_percent is Some,
        remaining is Some ==> remaining->0 + state.weekly_used_percent->0 == 100_000_000,
        state.weekly_used_percent is Some ==> (exhausted <==> state.limit_reached || remaining->0
            <= 0),
{
}

/// A DeepSeek pool is eligible where it is available, its last read did not fail, and
/// its total balance is positive; the other balances do not count.
pub proof fn balances_decide_for_deepseek(state: DeepSeekResourceState, eligible: bool)
    requires
        call_ensures(DeepSeekResourceState::eligible, (&state,), eligible),
    ensures
        eligible <==> state.is_available && state.error is None && decimal::is_positive(
            text::trimmed(state.total_balance@),
        ),
{
}

/// What is said against a candidate is true of it.
pub proof fn reasons_are_true(
    candidate: Candidate,
    snapshot: ResourceSnapshot,
    request_tokens: u64,
    modality: Modality,
    effort: Option<Seq<char>>,
    contract: Option<SemanticContract>,
    deepseek_fallback_allowed: bool,
    kind: IneligibleKind,
)
    requires
        objections(
            candidate,
            snapshot,
            request_tokens,
            modality,
            effort,
            contract,
            deepseek_fallback_allowed,
        ).contains(kind),
    ensures
        match kind {
            IneligibleKind::WorkShape => contract is Some && !candidate.shapes@.contains(
                contract->0.shape,
            ),
            IneligibleKind::ReasoningIntent => contract is Some && !candidate.intents@.contains(
                contract->0.intent,
            ),
            IneligibleKind::OpenAiPoolExhausted => candidate.pool == Pool::OpenAi
                && snapshot.openai is Some && (snapshot.openai->0.limit_reached || (
            snapshot.openai->0.weekly_used_percent is Some
                && snapshot.openai->0.weekly_used_percent->0 >= 100_000_000)),
            IneligibleKind::DeepSeekPool => candidate.pool == Pool::DeepSeek && (snapshot.deepseek
                is None || !snapshot.deepseek->0.is_available || snapshot.deepseek->0.error is Some
                || !decimal::is_positive(text::trimmed(snapshot.deepseek->0.total_balance@))),
            IneligibleKind::DeepSeekFallbackBlocked => candidate.pool == Pool::DeepSeek
                && !deepseek_fallback_allowed,
            IneligibleKind::ContextCap => candidate.context_cap_tokens is Some && request_tokens
                > candidate.context_cap_tokens->0,
            IneligibleKind::Modality => !candidate.modalities@.contains(modality),
            IneligibleKind::ReasoningContract => effort is Some && (candidate.reasoning
                == ReasoningPolicy::NonThinking && effort->0.len() > 0 && effort->0 != "none"@
                || candidate.reasoning == ReasoningPolicy::Thinking && effort->0 == "none"@),
        },
{
    let found = objections(
        candidate,
        snapshot,
        request_tokens,
        modality,
        effort,
        contract,
        deepseek_fallback_allowed,
    );
    let k = choose|k: int| 0 <= k < found.len() && found[k] == kind;
    assert(found[k] == kind);
}

/// The reasons of a refusal are told one after the other, each by its text, with a
/// semicolon between them.
pub proof fn reasons_are_told_in_order(kinds: Seq<IneligibleKind>, kind: IneligibleKind)
    ensures
        joined_labels(seq![kind]) == label(kind),
        kinds.len() > 0 ==> joined_labels(kinds.push(kind)) == joined_labels(kinds) + "; "@ + label(
            kind,
        ),
{
    assert(kinds.push(kind).drop_last() =~= kinds);
}

/// The texts of the reasons.
pub proof fn reasons_have_their_texts(kind: IneligibleKind, text: &'static str)
    requires
        call_ensures(reason_label, (kind,), text),
    ensures
        kind == IneligibleKind::OpenAiPoolExhausted ==> text@
            == "openai pool exhausted (confirmed)"@,
        kind == IneligibleKind::DeepSeekPool ==> text@ == "deepseek pool unavailable"@,
        kind == IneligibleKind::DeepSeekFallbackBlocked ==> text@
            == "deepseek fallback blocked (openai not confirmed exhausted)"@,
        kind == IneligibleKind::ContextCap ==> text@ == "request exceeds candidate context cap"@,
        kind == IneligibleKind::Modality ==> text@
            == "request modality not supported by candidate"@,
        kind == IneligibleKind::ReasoningContract ==> text@
            == "request reasoning contract conflicts with candidate"@,
        kind == IneligibleKind::WorkShape ==> text@
            == "candidate does not serve the request work shape"@,
        kind == IneligibleKind::ReasoningIntent ==> text@
            == "candidate does not serve the request reasoning intent"@,
{
}

/// Legacy classes: only `bounded` is bounded work, only `reasoning` is deliberate.
pub proof fn legacy_classes_have_their_contracts(class: WorkClass, contract: SemanticContract)
    requires
        call_ensures(SemanticContract::from_work_class, (class,), contract),
    ensures
        contract.shape == WorkShape::Bounded <==> class == WorkClass::Bounded,
        contract.intent == ReasoningIntent::Deliberate <==> class == WorkClass::Reasoning,
{
}

/// The metadata values are read in any case and with white space around them.
pub proof fn metadata_values_are_read(
    value: &str,
    class: Result<WorkClass, String>,
    shape: Result<WorkShape, String>,
    intent: Result<ReasoningIntent, String>,
)
    requires
        call_ensures(WorkClass::parse, (value,), class),
        call_ensures(WorkShape::parse, (value,), shape),
        call_ensures(ReasoningIntent::parse, (value,), intent),
    ensures
        ({
            let v = text::lower(text::trimmed(value@));
            &&& class == Ok::<WorkClass, String>(WorkClass::Bounded) <==> v == "bounded"@
            &&& class == Ok::<WorkClass, String>(WorkClass::Agentic) <==> v == "agentic"@
            &&& class == Ok::<WorkClass, String>(WorkClass::Reasoning) <==> v == "reasoning"@
            &&& shape == Ok::<WorkShape, String>(WorkShape::Bounded) <==> v == "bounded"@
            &&& shape == Ok::<WorkShape, String>(WorkShape::Agentic) <==> v == "agentic"@
            &&& intent == Ok::<ReasoningIntent, String>(ReasoningIntent::Direct) <==> v == "none"@
            &&& intent == Ok::<ReasoningIntent, String>(ReasoningIntent::Deliberate) <==> v
                == "deliberate"@
        }),
{
    reveal_strlit("bounded");
    reveal_strlit("agentic");
    reveal_strlit("reasoning");
    reveal_strlit("none");
    reveal_strlit("deliberate");
    assert("bounded"@[0] == 'b' && "agentic"@[0] == 'a' && "reasoning"@[0] == 'r');
    assert("none"@[0] == 'n' && "deliberate"@[0] == 'd');
}

/// A refusal tells of the whole route: how many candidates there are, and behind it,
/// candidate by candidate, everything that stands against each, of which there is
/// something for every one.
pub proof fn refusals_tell_of_every_candidate(
    router: ResourceRouter,
    snapshot: ResourceSnapshot,
    request: Request,
    contract: Option<SemanticContract>,
    r: Result<RoutedRequest, LibsyError>,
    i: int,
) -> (kinds: Seq<IneligibleKind>)
    requires
        call_ensures(
            ResourceRouter::route,
            (&router, Ok::<&ResourceSnapshot, String>(&snapshot), request),
            r,
        ),
        call_ensures(
            ResourceRouter::effective_contract,
            (&router, &request),
            Ok::<Option<SemanticContract>, LibsyError>(contract),
        ),
        r is Err,
        0 <= i < router.candidates@.len(),
    ensures
        r->Err_0@ == router.name@ + ": no eligible target ("@ + text::decimal(
            router.candidates@.len(),
        ) + "); reasons: "@ + joined_labels(kinds),
        ({
            let told = gathered(router.candidates@, snapshot, request, contract, i).len() as int;
            let found = route_objections(router.candidates@, snapshot, request, contract, i);
            &&& found.len() > 0
            &&& 0 <= told <= told + found.len() <= kinds.len()
            &&& kinds.subrange(told, told + found.len()) == found
            &&& i == 0 ==> told == 0
            &&& i == router.candidates@.len() - 1 ==> told + found.len() == kinds.len()
            &&& gathered(router.candidates@, snapshot, request, contract, i + 1).len() == told
                + found.len()
        }),
{
    let n = router.candidates@.len() as int;
    gathered_in_order(router.candidates@, snapshot, request, contract, i, n);
    gathered(router.candidates@, snapshot, request, contract, n)
}

proof fn gathered_in_order(
    candidates: Seq<Candidate>,
    snapshot: ResourceSnapshot,
    request: Request,
    contract: Option<SemanticContract>,
    i: int,
    n: int,
)
    requires
        0 <= i < n,
    ensures
        ({
            let all = gathered(candidates, snapshot, request, contract, n);
            let told = gathered(candidates, snapshot, request, contract, i).len() as int;
            let found = route_objections(candidates, snapshot, request, contract, i);
            &&& 0 <= told <= told + found.len() <= all.len()
            &&& all.subrange(told, told + found.len()) == found
        }),
    decreases n,
{
    let all = gathered(candidates, snapshot, request, contract, n);
    let told = gathered(candidates, snapshot, request, contract, i).len() as int;
    let found = route_objections(candidates, snapshot, request, contract, i);
    if i < n - 1 {
        gathered_in_order(candidates, snapshot, request, contract, i, n - 1);
        let fewer = gathered(candidates, snapshot, request, contract, n - 1);
        assert(all.subrange(told, told + found.len()) =~= fewer.subrange(
            told,
            told + found.len(),
        ));
    } else {
        assert(all.subrange(told, told + found.len()) =~= found);
    }
}

/// What a refused contract is answered: the route's name, and what is wrong.
pub proof fn refused_contracts_are_explained(
    router: ResourceRouter,
    request: Request,
    r: Result<Option<SemanticContract>, LibsyError>,
)
    requires
        call_ensures(ResourceRouter::effective_contract, (&router, &request), r),
        r is Err,
    ensures
        ({
            let shape = extension(request, "work_shape"@);
            let intent = extension(request, "reasoning_intent"@);
            let class = extension(request, "work_class"@);
            let s = text::lower(text::trimmed(shape->0->Text_0));
            let t = text::lower(text::trimmed(intent->0->Text_0));
            let c = text::lower(text::trimmed(class->0->Text_0));
            let both = shape is Some && shape->0 is Text && intent is Some && intent->0 is Text;
            let contradiction = router.name@
                + ": bounded work_shape with reasoning_intent=deliberate is contradictory; reclassify the task as deliberate/non-bounded before routing"@;
            match router.contract_filter {
                ContractFilter::Any => false,
                ContractFilter::Fixed(_) => r->Err_0@ == contradiction,
                ContractFilter::Request => {
                    &&& both && s != "bounded"@ && s != "agentic"@ ==> r->Err_0@ == router.name@
                        + ": "@ + ("invalid work_shape "@ + text::debug_text(s)
                        + " (expected bounded | agentic)"@)
                    &&& both && (s == "bounded"@ || s == "agentic"@) && t != "none"@ && t
                        != "deliberate"@ ==> r->Err_0@ == router.name@ + ": "@ + (
                    "invalid reasoning_intent "@ + text::debug_text(t)
                        + " (expected none | deliberate)"@)
                    &&& both && s == "bounded"@ && t == "deliberate"@ ==> r->Err_0@ == contradiction
                    &&& !both && class is Some && class->0 is Text ==> r->Err_0@ == router.name@
                        + ": "@ + ("invalid work_class "@ + text::debug_text(c)
                        + " (expected bounded | agentic | reasoning)"@)
                },
            }
        }),
{
    reveal_strlit("bounded");
    reveal_strlit("agentic");
    reveal_strlit("none");
    reveal_strlit("deliberate");
    assert("bounded"@[0] == 'b' && "agentic"@[0] == 'a');
    assert("none"@[0] == 'n' && "deliberate"@[0] == 'd');
}

/// A fetch is published where it succeeded and a slot is attached: to that slot, and
/// the very snapshot that is handed out. The slot that was attached first stays.
pub proof fn successful_fetches_are_published<E>(
    state: &mut ResourceState,
    other: &mut ResourceState,
    slot: SharedResourceTelemetry,
    now: u128,
    fetched: Result<ResourceSnapshot, E>,
    r: (Result<Arc<ResourceSnapshot>, E>, Option<Publication>),
)
    requires
        call_ensures(ResourceState::fetched::<E>, (state, now, fetched), r),
        call_ensures(ResourceState::attach_telemetry, (other, slot), ()),
    ensures
        r.0 is Ok <==> fetched is Ok,
        fetched is Ok ==> *r.0->Ok_0 == fetched->Ok_0,
        fetched is Err ==> r.0->Err_0 == fetched->Err_0 && final(state).cache.entry == old(
            state,
        ).cache.entry,
        r.1 is Some <==> fetched is Ok && old(state).telemetry is Some,
        r.1 is Some ==> Some(r.1->0.slot) == old(state).telemetry && r.1->0.snapshot == r.0->Ok_0,
        fetched is Ok ==> final(state).cache.entry == Some((now, r.0->Ok_0)),
        final(other).telemetry is Some,
        old(other).telemetry is None ==> final(other).telemetry == Some(slot),
        old(other).telemetry is Some ==> final(other).telemetry == old(other).telemetry,
        final(other).cache == old(other).cache,
{
}

} // verus!
