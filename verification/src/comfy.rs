//! Hardware-resource intake: the consumption of a GPU host's snapshot and of its
//! feed of transition events.
//!
//! The host is a hardware domain, apart from the cost and credential pools. Its
//! snapshot is cached with a time to live; its transition events go into a
//! bounded ledger that removes duplicates, correlates starts with terminals, and
//! keeps a sliding window of measured durations. Times are counted in
//! microseconds after the Unix epoch, durations in microseconds.
use std::collections::VecDeque;
use std::sync::Arc;

use vstd::prelude::*;
use vstd::string::StringExecFns;
use crate::assoc::{absent, append, distinct_keys, first_at, found, lacks, lookup, map_of, remove_only, replace};
use crate::cache::TtlCache;
use crate::text;

verus! {

/// Canonical GPU owner vocabulary. An absent owner is factually unowned;
/// `Unknown` is an owner that cannot be established.
#[derive(Clone, Copy, Debug, PartialEq, Eq, Structural)]
pub enum ComfyOwner {
    Comfy,
    Unsloth,
    Conflict,
    Unknown,
}

impl ComfyOwner {
    /// True only for a concrete owner (never `Unknown`).
    pub fn is_owner(self) -> (r: bool)
        ensures
            r == (self != ComfyOwner::Unknown),
    {
        matches!(self, ComfyOwner::Comfy | ComfyOwner::Unsloth | ComfyOwner::Conflict)
    }
}

/// The mode vocabulary shared by the snapshot and the transition feed.
#[derive(Clone, Copy, Debug, PartialEq, Eq, Structural)]
pub enum ComfyMode {
    Idle,
    Comfy,
    Studio,
    Conflict,
    Unknown,
}

/// Whether a transition is open, from the snapshot.
#[derive(Clone, Copy, Debug, PartialEq, Eq, Structural)]
pub enum ComfyTransitionState {
    Idle,
    InTransition,
}

/// Transition target vocabulary.
#[derive(Clone, Copy, Debug, PartialEq, Eq, Structural)]
pub enum ComfyTransitionTarget {
    Idle,
    Comfy,
    Studio,
}

/// Resident Qwen profile, set only where it is factually provable.
#[derive(Clone, Copy, Debug, PartialEq, Eq, Structural)]
pub enum ComfyResidentProfile {
    Fast,
    Long,
    Unknown,
}

/// A workload-profile class, used as the transition-history key.
#[derive(Clone, Copy, Debug, PartialEq, Eq, Structural)]
pub enum ComfyProfileClass {
    /// The sealed-idle boundary (GPU at baseline, no server).
    SealedIdle,
    Fast,
    Long,
    /// Z-Image Turbo text-to-image.
    WkZimageT2i,
    /// Boogu image generation.
    WkBooguGen,
    /// Boogu image editing.
    WkBooguEdit,
    /// Conservative fallback for any unseen or unknown busy class.
    Generic,
}

/// The name of a class.
pub open spec fn class_name(class: ComfyProfileClass) -> Seq<char> {
    match class {
        ComfyProfileClass::SealedIdle => "sealed_idle"@,
        ComfyProfileClass::Fast => "FAST"@,
        ComfyProfileClass::Long => "LONG"@,
        ComfyProfileClass::WkZimageT2i => "WK_ZIMAGE_T2I"@,
        ComfyProfileClass::WkBooguGen => "WK_BOOGU_GEN"@,
        ComfyProfileClass::WkBooguEdit => "WK_BOOGU_EDIT"@,
        ComfyProfileClass::Generic => "WK_GENERIC"@,
    }
}

/// The class that a name stands for, in any case and with white space around it;
/// an unknown name stands for the generic class.
pub open spec fn class_called(name: Seq<char>) -> ComfyProfileClass {
    let n = text::upper(text::trimmed(name));
    if n == "SEALED_IDLE"@ || n == "IDLE"@ || n == "NONE"@ {
        ComfyProfileClass::SealedIdle
    } else if n == "FAST"@ {
        ComfyProfileClass::Fast
    } else if n == "LONG"@ {
        ComfyProfileClass::Long
    } else if n == "WK_ZIMAGE_T2I"@ || n == "C1"@ {
        ComfyProfileClass::WkZimageT2i
    } else if n == "WK_BOOGU_GEN"@ || n == "C2"@ {
        ComfyProfileClass::WkBooguGen
    } else if n == "WK_BOOGU_EDIT"@ || n == "C3"@ {
        ComfyProfileClass::WkBooguEdit
    } else {
        ComfyProfileClass::Generic
    }
}

/// The class of a mode: only an idle host is at the sealed-idle boundary.
pub open spec fn class_of_mode(mode: Option<ComfyMode>) -> ComfyProfileClass {
    if mode == Some(ComfyMode::Idle) {
        ComfyProfileClass::SealedIdle
    } else {
        ComfyProfileClass::Generic
    }
}

impl ComfyProfileClass {
    /// The name of the class.
    pub fn as_str(self) -> (r: &'static str)
        ensures
            r@ == class_name(self),
    {
        match self {
            ComfyProfileClass::SealedIdle => "sealed_idle",
            ComfyProfileClass::Fast => "FAST",
            ComfyProfileClass::Long => "LONG",
            ComfyProfileClass::WkZimageT2i => "WK_ZIMAGE_T2I",
            ComfyProfileClass::WkBooguGen => "WK_BOOGU_GEN",
            ComfyProfileClass::WkBooguEdit => "WK_BOOGU_EDIT",
            ComfyProfileClass::Generic => "WK_GENERIC",
        }
    }

    /// The class that a name stands for.
    pub fn parse(name: &str) -> (r: Self)
        ensures
            r == class_called(name@),
    {
        let trimmed = text::trim(name);
        let upper = text::to_upper(trimmed.as_str());
        let n = upper.as_str();
        if text::str_eq(n, "SEALED_IDLE") || text::str_eq(n, "IDLE") || text::str_eq(n, "NONE") {
            ComfyProfileClass::SealedIdle
        } else if text::str_eq(n, "FAST") {
            ComfyProfileClass::Fast
        } else if text::str_eq(n, "LONG") {
            ComfyProfileClass::Long
        } else if text::str_eq(n, "WK_ZIMAGE_T2I") || text::str_eq(n, "C1") {
            ComfyProfileClass::WkZimageT2i
        } else if text::str_eq(n, "WK_BOOGU_GEN") || text::str_eq(n, "C2") {
            ComfyProfileClass::WkBooguGen
        } else if text::str_eq(n, "WK_BOOGU_EDIT") || text::str_eq(n, "C3") {
            ComfyProfileClass::WkBooguEdit
        } else {
            ComfyProfileClass::Generic
        }
    }

    /// The class of an event's source mode.
    pub fn from_source_mode(mode: Option<ComfyMode>) -> (r: Self)
        ensures
            r == class_of_mode(mode),
    {
        match mode {
            Some(ComfyMode::Idle) => ComfyProfileClass::SealedIdle,
            _ => ComfyProfileClass::Generic,
        }
    }

    /// The class of an event's target mode.
    pub fn from_target_mode(mode: Option<ComfyMode>) -> (r: Self)
        ensures
            r == class_of_mode(mode),
    {
        match mode {
            Some(ComfyMode::Idle) => ComfyProfileClass::SealedIdle,
            _ => ComfyProfileClass::Generic,
        }
    }
}

impl std::str::FromStr for ComfyProfileClass {
    type Err = String;

    fn from_str(name: &str) -> (r: Result<Self, String>)
        ensures
            r == Ok::<ComfyProfileClass, String>(class_called(name@)),
    {
        Ok(ComfyProfileClass::parse(name))
    }
}

/// Reading a class's name gives the class back.
pub proof fn parse_undoes_class_name(class: ComfyProfileClass)
    ensures
        class_called(class_name(class)) == class,
{
    reveal_strlit("sealed_idle");
    reveal_strlit("SEALED_IDLE");
    reveal_strlit("IDLE");
    reveal_strlit("NONE");
    reveal_strlit("FAST");
    reveal_strlit("LONG");
    reveal_strlit("WK_ZIMAGE_T2I");
    reveal_strlit("C1");
    reveal_strlit("WK_BOOGU_GEN");
    reveal_strlit("C2");
    reveal_strlit("WK_BOOGU_EDIT");
    reveal_strlit("C3");
    reveal_strlit("WK_GENERIC");
    let name = class_name(class);
    assert(!text::is_white_space(name[0]));
    assert(!text::is_white_space(name.last()));
    assert(text::trimmed(name) == name);
    assert(text::upper("sealed_idle"@) =~= "SEALED_IDLE"@);
    if class != ComfyProfileClass::SealedIdle {
        assert(text::upper(name) =~= name);
    }
    assert("FAST"@[0] == 'F' && "LONG"@[0] == 'L' && "IDLE"@[0] == 'I' && "NONE"@[0] == 'N');
    assert("WK_ZIMAGE_T2I"@[3] == 'Z' && "WK_BOOGU_EDIT"@[3] == 'B');
    assert("WK_GENERIC"@.len() == 10 && "SEALED_IDLE"@.len() == 11);
    assert("WK_BOOGU_GEN"@.len() == 12 && "WK_BOOGU_EDIT"@.len() == 13);
    assert("WK_ZIMAGE_T2I"@.len() == 13);
}

/// The ordered per-event feed cursor.
#[derive(Clone, Debug, PartialEq, Eq)]
pub struct TransitionCursor {
    /// Opaque producer-lifetime identity.
    pub producer_epoch: String,
    /// Highest contiguous `eid` ingested for that epoch.
    pub last_eid: i64,
}

impl View for TransitionCursor {
    type V = (Seq<char>, i64);

    open spec fn view(&self) -> (Seq<char>, i64) {
        (self.producer_epoch@, self.last_eid)
    }
}

impl TransitionCursor {
    /// The cursor before the first event of an epoch.
    pub fn fresh(producer_epoch: &str) -> (r: Self)
        ensures
            r@ == (producer_epoch@, 0i64),
    {
        TransitionCursor { producer_epoch: text::copy_str(producer_epoch), last_eid: 0 }
    }
}

/// Correlation outcome of a transition event.
#[derive(Clone, Copy, Debug, PartialEq, Eq, Structural)]
pub enum CorrelationStatus {
    Matched,
    OrphanTerminal,
    ReusedRid,
}

/// Event phase.
#[derive(Clone, Copy, Debug, PartialEq, Eq, Structural)]
pub enum TransitionPhase {
    Start,
    Terminal,
}

/// Terminal result.
#[derive(Clone, Copy, Debug, PartialEq, Eq, Structural)]
pub enum TransitionResult {
    Pending,
    Succeeded,
    Failed,
    Unknown,
}

/// One factual transition event.
#[derive(Clone, Debug)]
pub struct TransitionEvent {
    /// Shell invocation id; correlation-only, never canonical.
    pub rid: String,
    /// Producer epoch that this event belongs to.
    pub epoch: String,
    /// Ordered per-event feed sequence (the cursor key).
    pub eid: i64,
    /// Canonical transition identity within the epoch.
    pub transition_id: i64,
    pub transition_start_known: bool,
    pub correlation_status: CorrelationStatus,
    pub command: String,
    pub source_mode: Option<ComfyMode>,
    pub target_mode: Option<ComfyMode>,
    pub source_profile: Option<String>,
    pub target_profile: Option<String>,
    pub phase: TransitionPhase,
    pub result: Option<TransitionResult>,
    pub underlying_rc: Option<i64>,
    pub observed_at: i64,
    pub ingested_at: i64,
}

/// One page of the transition feed.
#[derive(Clone, Debug)]
pub struct TransitionFeed {
    pub producer_epoch: String,
    pub oldest_available_eid: Option<i64>,
    pub latest_eid: Option<i64>,
    pub epoch_reset: bool,
    pub gap: bool,
    pub overflow: bool,
    pub events: Vec<TransitionEvent>,
}

/// How a feed page relates to the persisted cursor.
#[derive(Clone, Copy, Debug, PartialEq, Eq, Structural)]
pub enum FeedDisposition {
    /// Contiguous continuation; the events are to be ingested.
    Continuation,
    /// Same epoch but a missing `eid` in range; nothing is made up for it.
    Gap,
    /// The producer restarted: the cursor is reset to the new epoch.
    EpochReset,
    /// The cursor is below the retained leading edge of the producer's ledger.
    Overflow,
}

/// The greater of two numbers.
pub open spec fn greater(a: int, b: int) -> int {
    if a >= b {
        a
    } else {
        b
    }
}

/// How the cursor advances over a feed page: the disposition, and the epoch and
/// `eid` of the cursor after it.
pub open spec fn advanced(persisted: Option<(Seq<char>, i64)>, feed: TransitionFeed) -> (
    FeedDisposition,
    Seq<char>,
    int,
) {
    let epoch = feed.producer_epoch@;
    let events = feed.events@;
    match persisted {
        None => (
            FeedDisposition::Continuation,
            epoch,
            if events.len() > 0 {
                events.last().eid as int
            } else {
                0
            },
        ),
        Some((known, last)) => if feed.epoch_reset || known != epoch {
            (FeedDisposition::EpochReset, epoch, 0)
        } else if feed.oldest_available_eid is Some && last < feed.oldest_available_eid->0 - 1 {
            let edge = match feed.latest_eid {
                Some(latest) => latest as int,
                None => feed.oldest_available_eid->0 - 1,
            };
            (FeedDisposition::Overflow, epoch, greater(edge, last as int))
        } else if events.len() > 0 && events[0].eid != last + 1 {
            (FeedDisposition::Gap, known, last as int)
        } else if events.len() > 0 {
            (FeedDisposition::Continuation, epoch, events.last().eid as int)
        } else {
            (FeedDisposition::Continuation, known, last as int)
        },
    }
}

/// Decides how the cursor advances over a feed page.
///
/// A reset flag or another epoch resets it. A cursor strictly below the retained
/// leading edge has overflowed. A first event that does not follow the cursor is
/// a gap, and the cursor stays. Anything else continues to the last event.
pub fn advance_cursor(persisted: Option<&TransitionCursor>, feed: &TransitionFeed) -> (r: (
    FeedDisposition,
    Option<TransitionCursor>,
))
    ensures
        ({
            let (disposition, epoch, last) = advanced(
                match persisted {
                    Some(cursor) => Some(cursor@),
                    None => None,
                },
                *feed,
            );
            &&& r.0 == disposition
            &&& r.1 is Some
            &&& r.1->0.producer_epoch@ == epoch
            &&& r.1->0.last_eid == last
        }),
{
    let count: usize = feed.events.len();
    let cursor = match persisted {
        Some(cursor) => cursor,
        None => {
            let last: i64 = if count > 0 {
                feed.events[count - 1].eid
            } else {
                0
            };
            return (
                FeedDisposition::Continuation,
                Some(
                    TransitionCursor {
                        producer_epoch: text::copy_str(feed.producer_epoch.as_str()),
                        last_eid: last,
                    },
                ),
            );
        },
    };
    if feed.epoch_reset || !text::str_eq(
        cursor.producer_epoch.as_str(),
        feed.producer_epoch.as_str(),
    ) {
        return (
            FeedDisposition::EpochReset,
            Some(TransitionCursor::fresh(feed.producer_epoch.as_str())),
        );
    }
    if let Some(oldest) = feed.oldest_available_eid {
        if cursor.last_eid < oldest && cursor.last_eid < oldest - 1 {
            let edge: i64 = match feed.latest_eid {
                Some(latest) => latest,
                None => oldest - 1,
            };
            let last: i64 = if edge >= cursor.last_eid {
                edge
            } else {
                cursor.last_eid
            };
            return (
                FeedDisposition::Overflow,
                Some(
                    TransitionCursor {
                        producer_epoch: text::copy_str(feed.producer_epoch.as_str()),
                        last_eid: last,
                    },
                ),
            );
        }
    }
    if count > 0 {
        let follows = cursor.last_eid < i64::MAX && feed.events[0].eid == cursor.last_eid + 1;
        if !follows {
            return (
                FeedDisposition::Gap,
                Some(
                    TransitionCursor {
                        producer_epoch: text::copy_str(cursor.producer_epoch.as_str()),
                        last_eid: cursor.last_eid,
                    },
                ),
            );
        }
        return (
            FeedDisposition::Continuation,
            Some(
                TransitionCursor {
                    producer_epoch: text::copy_str(feed.producer_epoch.as_str()),
                    last_eid: feed.events[count - 1].eid,
                },
            ),
        );
    }
    (
        FeedDisposition::Continuation,
        Some(
            TransitionCursor {
                producer_epoch: text::copy_str(cursor.producer_epoch.as_str()),
                last_eid: cursor.last_eid,
            },
        ),
    )
}

/// Without a reset the cursor never moves back, on a feed whose events ascend.
pub proof fn cursor_never_moves_back(known: Seq<char>, last: i64, feed: TransitionFeed)
    requires
        forall|i: int, j: int|
            0 <= i < j < feed.events@.len() ==> (#[trigger] feed.events@[i]).eid < (
            #[trigger] feed.events@[j]).eid,
    ensures
        ({
            let (disposition, epoch, after) = advanced(Some((known, last)), feed);
            disposition != FeedDisposition::EpochReset ==> epoch == known && after >= last
        }),
{
    let events = feed.events@;
    if events.len() > 1 {
        assert(events[0].eid < events[events.len() - 1].eid);
    }
}

/// A gap leaves the cursor where it was: no continuity is made up.
pub proof fn gap_keeps_the_cursor(known: Seq<char>, last: i64, feed: TransitionFeed)
    ensures
        advanced(Some((known, last)), feed).0 == FeedDisposition::Gap ==> advanced(
            Some((known, last)),
            feed,
        ) == (FeedDisposition::Gap, known, last as int),
{
}

/// A known epoch that differs from the feed's is always a reset, to the start of
/// the new epoch.
pub proof fn restart_resets_the_cursor(known: Seq<char>, last: i64, feed: TransitionFeed)
    requires
        known != feed.producer_epoch@,
    ensures
        advanced(Some((known, last)), feed) == (
            FeedDisposition::EpochReset,
            feed.producer_epoch@,
            0int,
        ),
{
}

/// The `state` object of a snapshot.
#[derive(Clone, Debug)]
pub struct ComfySnapshotState {
    pub owner: Option<ComfyOwner>,
    pub mode: Option<ComfyMode>,
    pub transition_state: Option<ComfyTransitionState>,
    pub transition_target: Option<ComfyTransitionTarget>,
    pub comfyui: Option<String>,
    pub unsloth_studio: Option<String>,
    pub llama_server: Option<String>,
    pub studio_backend_health: Option<String>,
    pub resident_qwen_profile: Option<ComfyResidentProfile>,
    pub comfy_busy: Option<bool>,
    pub comfy_queue_running: Option<i64>,
    pub comfy_queue_pending: Option<i64>,
    pub vram_used_mib: Option<i64>,
    pub vram_free_mib: Option<i64>,
}

/// A state of which nothing is known.
pub open spec fn unknown_state() -> ComfySnapshotState {
    ComfySnapshotState {
        owner: None,
        mode: None,
        transition_state: None,
        transition_target: None,
        comfyui: None,
        unsloth_studio: None,
        llama_server: None,
        studio_backend_health: None,
        resident_qwen_profile: None,
        comfy_busy: None,
        comfy_queue_running: None,
        comfy_queue_pending: None,
        vram_used_mib: None,
        vram_free_mib: None,
    }
}

impl Default for ComfySnapshotState {
    fn default() -> (r: Self)
        ensures
            r == unknown_state(),
    {
        ComfySnapshotState {
            owner: None,
            mode: None,
            transition_state: None,
            transition_target: None,
            comfyui: None,
            unsloth_studio: None,
            llama_server: None,
            studio_backend_health: None,
            resident_qwen_profile: None,
            comfy_busy: None,
            comfy_queue_running: None,
            comfy_queue_pending: None,
            vram_used_mib: None,
            vram_free_mib: None,
        }
    }
}

/// A snapshot as the host serves it.
#[derive(Debug)]
pub struct ComfyRemoteSnapshot {
    /// Opaque producer-lifetime identity.
    pub producer_epoch: String,
    /// Monotonic; one more with every change of the authoritative tuple.
    pub state_generation: i64,
    /// Opaque digest of the authoritative tuple.
    pub state_fingerprint: String,
    pub state: ComfySnapshotState,
}

/// Derived source health.
#[derive(Clone, Copy, Debug, PartialEq, Eq, Structural)]
pub enum ComfySourceHealth {
    Healthy,
    Stale,
    Unavailable,
}

/// One snapshot with its derived freshness. Never holds secrets.
#[derive(Clone, Debug)]
pub struct ComfyResourceState {
    pub producer_epoch: String,
    pub state_generation: i64,
    pub state_fingerprint: String,
    pub state: ComfySnapshotState,
    pub source_health: ComfySourceHealth,
    /// Unix seconds of the last successful read (None = never/unknown).
    pub last_success_at: Option<i64>,
    /// Coarse error text of the most recent failed read.
    pub error: Option<String>,
}

/// `n` held within the signed 64-bit numbers.
pub open spec fn clamped(n: int) -> int {
    if n > i64::MAX {
        i64::MAX as int
    } else if n < i64::MIN {
        i64::MIN as int
    } else {
        n
    }
}

/// The signed 64-bit number of the same bits.
pub open spec fn as_signed(n: u64) -> int {
    if n <= i64::MAX {
        n as int
    } else {
        n - 0x1_0000_0000_0000_0000
    }
}

/// A snapshot is usable at a time: its source is healthy, its most recent read
/// did not fail, and its last successful read is known and no older than the time
/// to live.
pub open spec fn usable_at(state: ComfyResourceState, observed_unix: i64, ttl_seconds: u64) -> bool {
    &&& state.source_health == ComfySourceHealth::Healthy
    &&& state.error is None
    &&& state.last_success_at is Some
    &&& clamped(observed_unix - state.last_success_at->0) <= as_signed(ttl_seconds)
}

impl ComfyResourceState {
    /// Whether the snapshot is still usable. An unknown, stale or failed one is
    /// not, and opens no fallback.
    pub fn healthy(&self, observed_unix: i64, ttl_seconds: u64) -> (r: bool)
        ensures
            r == usable_at(*self, observed_unix, ttl_seconds),
    {
        if self.source_health != ComfySourceHealth::Healthy || self.error.is_some() {
            return false;
        }
        match self.last_success_at {
            Some(last) => {
                let age: i128 = observed_unix as i128 - last as i128;
                let held: i128 = if age > i64::MAX as i128 {
                    i64::MAX as i128
                } else if age < i64::MIN as i128 {
                    i64::MIN as i128
                } else {
                    age
                };
                let limit: i128 = if ttl_seconds <= i64::MAX as u64 {
                    ttl_seconds as i128
                } else {
                    ttl_seconds as i128 - 0x1_0000_0000_0000_0000i128
                };
                held <= limit
            },
            None => false,
        }
    }

    /// An unavailable state, for pool-local failure isolation.
    pub fn unavailable_error(error: String) -> (r: Self)
        ensures
            r.producer_epoch@.len() == 0,
            r.state_generation == 0,
            r.state_fingerprint@.len() == 0,
            r.state == unknown_state(),
            r.source_health == ComfySourceHealth::Unavailable,
            r.last_success_at is None,
            r.error == Some(error),
    {
        ComfyResourceState {
            producer_epoch: String::new(),
            state_generation: 0,
            state_fingerprint: String::new(),
            state: ComfySnapshotState::default(),
            source_health: ComfySourceHealth::Unavailable,
            last_success_at: None,
            error: Some(error),
        }
    }
}

/// A snapshot that was never read, whose most recent read failed, or whose source
/// is not healthy, is never usable.
pub proof fn unknown_snapshot_is_never_usable(
    state: ComfyResourceState,
    observed_unix: i64,
    ttl_seconds: u64,
)
    requires
        state.last_success_at is None || state.error is Some || state.source_health
            != ComfySourceHealth::Healthy,
    ensures
        !usable_at(state, observed_unix, ttl_seconds),
{
}

/// A snapshot that is not usable does not become usable with time.
pub proof fn staleness_is_final(
    state: ComfyResourceState,
    observed_unix: i64,
    later: i64,
    ttl_seconds: u64,
)
    requires
        observed_unix <= later,
        !usable_at(state, observed_unix, ttl_seconds),
    ensures
        !usable_at(state, later, ttl_seconds),
{
}

/// The latest snapshot of the host, fetched again once its time to live has passed.
#[derive(Debug)]
pub struct ComfySnapshotCache {
    pub cache: TtlCache<ComfyResourceState>,
}

impl ComfySnapshotCache {
    /// A cache that holds nothing yet; `ttl` is in nanoseconds.
    pub fn new(ttl: u128) -> (r: Self)
        ensures
            r.cache.ttl == ttl,
            r.cache.entry is None,
    {
        ComfySnapshotCache { cache: TtlCache::new(ttl) }
    }

    /// The time to live, in nanoseconds.
    pub fn ttl(&self) -> (r: u128)
        ensures
            r == self.cache.ttl,
    {
        self.cache.ttl
    }

    /// The cached snapshot, where it is still fresh; without one a fetch is due.
    pub fn cached(&self, now: u128) -> (r: Option<Arc<ComfyResourceState>>)
        ensures
            match r {
                Some(state) => self.cache.fresh(now) && state == (self.cache.entry->0).1,
                None => !self.cache.fresh(now),
            },
    {
        self.cache.lookup(now)
    }

    /// Takes in the result of a fetch; a failure leaves the cache as it was.
    pub fn fetched(&mut self, now: u128, fetched: Result<ComfyResourceState, String>) -> (r: Result<
        Arc<ComfyResourceState>,
        String,
    >)
        ensures
            final(self).cache.ttl == old(self).cache.ttl,
            match fetched {
                Ok(state) => r is Ok && *r->Ok_0 == state && final(self).cache.entry == Some(
                    (now, r->Ok_0),
                ),
                Err(error) => r == Err::<Arc<ComfyResourceState>, String>(error) && *final(self)
                    == *old(self),
            },
    {
        self.cache.refresh(now, fetched)
    }
}

/// One measured transition.
#[derive(Clone, Copy, Debug, PartialEq, Eq, Structural)]
pub struct TransitionSample {
    /// The time from start to terminal, in microseconds.
    pub runtime_ready_us: u64,
    pub transition_id: i64,
    pub observed_at: i64,
}

/// Bounded aggregate of one (source class, target class) cell. The extremes are
/// observed values, not a statistical interval.
#[derive(Clone, Copy, Debug, PartialEq, Eq, Structural)]
pub struct TransitionCellStats {
    pub sample_n: u64,
    pub median_us: Option<u64>,
    pub observed_min_us: Option<u64>,
    pub observed_max_us: Option<u64>,
}

/// The aggregate of a cell without samples.
pub open spec fn no_stats() -> TransitionCellStats {
    TransitionCellStats {
        sample_n: 0,
        median_us: None,
        observed_min_us: None,
        observed_max_us: None,
    }
}

impl Default for TransitionCellStats {
    fn default() -> (r: Self)
        ensures
            r == no_stats(),
    {
        TransitionCellStats {
            sample_n: 0,
            median_us: None,
            observed_min_us: None,
            observed_max_us: None,
        }
    }
}

/// A start that waits for its terminal.
#[verifier::ext_equal]
pub struct StartView {
    /// The start's invocation id.
    pub rid: Seq<char>,
    pub observed_at: i64,
    /// The start event's place in the feed of its epoch.
    pub eid: i64,
}

/// Starts that wait for their terminal, by epoch and transition.
pub type Starts = Map<(Seq<char>, i64), StartView>;

/// The identity, in the feed, of the event that a remembered start came from.
pub open spec fn start_event(starts: Starts, key: (Seq<char>, i64)) -> (Seq<char>, i64) {
    (key.0, starts[key].eid)
}

/// The starts whose event is still retained.
pub open spec fn still_retained(starts: Starts, recent: Seq<(Seq<char>, i64)>) -> Starts {
    Map::new(
        |key: (Seq<char>, i64)|
            starts.contains_key(key) && recent.contains(start_event(starts, key)),
        |key: (Seq<char>, i64)| starts[key],
    )
}

/// The starts that did not come from an event.
pub open spec fn not_from(starts: Starts, event: (Seq<char>, i64)) -> Starts {
    Map::new(
        |key: (Seq<char>, i64)| starts.contains_key(key) && start_event(starts, key) != event,
        |key: (Seq<char>, i64)| starts[key],
    )
}

/// The start that an event tells of.
pub open spec fn start_of(ev: TransitionEvent) -> StartView {
    StartView { rid: ev.rid@, observed_at: ev.observed_at, eid: ev.eid }
}

/// A source class, a target class, and the microseconds between.
pub type Measured = (ComfyProfileClass, ComfyProfileClass, u64);

/// The identity of an event's transition.
pub open spec fn transition_key(ev: TransitionEvent) -> (Seq<char>, i64) {
    (ev.epoch@, ev.transition_id)
}

/// The starts after an event: a start is remembered; a terminal that is no
/// orphan uses its start up.
pub open spec fn starts_after(starts: Starts, ev: TransitionEvent) -> Starts {
    match ev.phase {
        TransitionPhase::Start => starts.insert(transition_key(ev), start_of(ev)),
        TransitionPhase::Terminal => if ev.correlation_status == CorrelationStatus::OrphanTerminal {
            starts
        } else {
            starts.remove(transition_key(ev))
        },
    }
}

/// What an event measures: a terminal that is no orphan, whose start is
/// remembered and did not come after it.
pub open spec fn measured(starts: Starts, ev: TransitionEvent) -> Option<Measured> {
    if ev.phase == TransitionPhase::Terminal && ev.correlation_status
        != CorrelationStatus::OrphanTerminal && starts.contains_key(transition_key(ev))
        && ev.observed_at >= starts[transition_key(ev)].observed_at {
        Some(
            (
                class_of_mode(ev.source_mode),
                class_of_mode(ev.target_mode),
                (ev.observed_at - starts[transition_key(ev)].observed_at) as u64,
            ),
        )
    } else {
        None
    }
}

/// A remembered start.
#[derive(Debug)]
struct StartEntry {
    epoch: String,
    transition_id: i64,
    rid: String,
    observed_at: i64,
    eid: i64,
}

/// Correlates starts with terminals to derive durations.
#[derive(Debug)]
pub struct CorrelationTable {
    starts: Vec<StartEntry>,
}

impl View for CorrelationTable {
    type V = Starts;

    closed spec fn view(&self) -> Starts {
        map_of(self.pairs())
    }
}

impl CorrelationTable {
    closed spec fn pairs(&self) -> Seq<((Seq<char>, i64), StartView)> {
        Seq::new(
            self.starts@.len(),
            |i: int|
                {
                    let entry = self.starts@[i];
                    (
                        (entry.epoch@, entry.transition_id),
                        StartView {
                            rid: entry.rid@,
                            observed_at: entry.observed_at,
                            eid: entry.eid,
                        },
                    )
                },
        )
    }

    /// Every transition has at most one remembered start.
    pub closed spec fn wf(&self) -> bool {
        distinct_keys(self.pairs())
    }

    /// A table that remembers nothing.
    pub fn new() -> (r: Self)
        ensures
            r.wf(),
            r@ == Map::<(Seq<char>, i64), StartView>::empty(),
    {
        let r = CorrelationTable { starts: Vec::new() };
        proof {
            assert(r.pairs() =~= Seq::empty());
        }
        r
    }

    fn index_of(&self, epoch: &str, transition_id: i64) -> (r: Option<usize>)
        ensures
            match r {
                Some(i) => first_at(self.pairs(), (epoch@, transition_id), i as int),
                None => lacks(self.pairs(), (epoch@, transition_id)),
            },
    {
        let mut i: usize = 0;
        while i < self.starts.len()
            invariant
                i <= self.starts.len(),
                forall|j: int|
                    0 <= j < i ==> (#[trigger] self.pairs()[j]).0 != (epoch@, transition_id),
            decreases self.starts.len() - i,
        {
            if self.starts[i].transition_id == transition_id && text::str_eq(
                self.starts[i].epoch.as_str(),
                epoch,
            ) {
                assert(self.pairs()[i as int].0 == (epoch@, transition_id));
                return Some(i);
            }
            assert(self.pairs()[i as int].0 != (epoch@, transition_id));
            i = i + 1;
        }
        None
    }

    /// Correlates an event: the source class, target class and duration where a
    /// terminal is matched to a remembered start. Orphan terminals never make up a
    /// match.
    pub fn feed(&mut self, ev: &TransitionEvent) -> (r: Option<Measured>)
        requires
            old(self).wf(),
        ensures
            final(self).wf(),
            final(self)@ == starts_after(old(self)@, *ev),
            r == measured(old(self)@, *ev),
    {
        let ghost key = transition_key(*ev);
        let ghost before = self.pairs();
        match ev.phase {
            TransitionPhase::Start => {
                let entry = StartEntry {
                    epoch: text::copy_str(ev.epoch.as_str()),
                    transition_id: ev.transition_id,
                    rid: text::copy_str(ev.rid.as_str()),
                    observed_at: ev.observed_at,
                    eid: ev.eid,
                };
                match self.index_of(ev.epoch.as_str(), ev.transition_id) {
                    Some(i) => {
                        self.starts.set(i, entry);
                        proof {
                            replace(before, key, i as int, start_of(*ev));
                            assert(self.pairs() =~= before.update(i as int, (key, start_of(*ev))));
                            keys_kept(before, key, i as int, start_of(*ev));
                        }
                    },
                    None => {
                        self.starts.push(entry);
                        proof {
                            append(before, key, start_of(*ev));
                            assert(self.pairs() =~= before.push((key, start_of(*ev))));
                            key_added(before, key, start_of(*ev));
                        }
                    },
                }
                None
            },
            TransitionPhase::Terminal => {
                if ev.correlation_status == CorrelationStatus::OrphanTerminal {
                    return None;
                }
                match self.index_of(ev.epoch.as_str(), ev.transition_id) {
                    Some(i) => {
                        proof {
                            lookup(before, key, i as int);
                            assert(before[i as int].1.observed_at
                                == self.starts@[i as int].observed_at);
                            assert forall|j: int|
                                i < j < before.len() implies (#[trigger] before[j]).0 != key by {
                                assert(before[i as int].0 == key);
                            }
                            remove_only(before, key, i as int);
                        }
                        let start_at: i64 = self.starts.remove(i).observed_at;
                        proof {
                            assert(self.pairs() =~= before.remove(i as int));
                            key_removed(before, i as int);
                        }
                        let elapsed: i128 = ev.observed_at as i128 - start_at as i128;
                        if elapsed < 0 {
                            return None;
                        }
                        Some(
                            (
                                ComfyProfileClass::from_source_mode(ev.source_mode),
                                ComfyProfileClass::from_target_mode(ev.target_mode),
                                elapsed as u64,
                            ),
                        )
                    },
                    None => {
                        proof {
                            absent(before, key);
                            assert(self@.remove(key) =~= self@);
                        }
                        None
                    },
                }
            },
        }
    }
}

impl CorrelationTable {
    /// Forgets the starts that came from an event of an epoch.
    pub fn forget(&mut self, epoch: &str, eid: i64)
        requires
            old(self).wf(),
        ensures
            final(self).wf(),
            final(self)@ == not_from(old(self)@, (epoch@, eid)),
    {
        let ghost event = (epoch@, eid);
        let mut i: usize = 0;
        while i < self.starts.len()
            invariant
                i <= self.starts.len(),
                event == (epoch@, eid),
                self.wf(),
                not_from(self@, event) == not_from(old(self)@, event),
                forall|j: int|
                    0 <= j < i ==> ((#[trigger] self.pairs()[j]).0.0, self.pairs()[j].1.eid)
                        != event,
            decreases self.starts.len() - i,
        {
            let ghost before = self.pairs();
            if self.starts[i].eid == eid && text::str_eq(self.starts[i].epoch.as_str(), epoch) {
                proof {
                    let key = before[i as int].0;
                    assert(first_at(before, key, i as int));
                    lookup(before, key, i as int);
                    remove_only(before, key, i as int);
                    key_removed(before, i as int);
                    assert(not_from(map_of(before).remove(key), event) =~= not_from(
                        map_of(before),
                        event,
                    ));
                }
                let _ = self.starts.remove(i);
                proof {
                    assert(self.pairs() =~= before.remove(i as int));
                    assert forall|j: int| 0 <= j < i implies (
                        (#[trigger] self.pairs()[j]).0.0,
                        self.pairs()[j].1.eid,
                    ) != event by {
                        assert(self.pairs()[j] == before[j]);
                    }
                }
            } else {
                i = i + 1;
            }
        }
        proof {
            let pairs = self.pairs();
            assert forall|key: (Seq<char>, i64)| self@.contains_key(key) implies start_event(
                self@,
                key,
            ) != event by {
                found(pairs, key);
                let j = choose|j: int|
                    0 <= j < pairs.len() && #[trigger] pairs[j] == (key, map_of(pairs)[key]);
                assert((pairs[j].0.0, pairs[j].1.eid) != event);
            }
            assert(not_from(self@, event) =~= self@);
        }
    }
}

proof fn keys_kept<K, V>(pairs: Seq<(K, V)>, key: K, at: int, value: V)
    requires
        distinct_keys(pairs),
        first_at(pairs, key, at),
    ensures
        distinct_keys(pairs.update(at, (key, value))),
{
    let after = pairs.update(at, (key, value));
    assert forall|i: int, j: int| 0 <= i < j < after.len() implies (#[trigger] after[i]).0 != (
    #[trigger] after[j]).0 by {
        assert(after[i].0 == pairs[i].0);
        assert(after[j].0 == pairs[j].0);
    }
}

proof fn key_added<K, V>(pairs: Seq<(K, V)>, key: K, value: V)
    requires
        distinct_keys(pairs),
        lacks(pairs, key),
    ensures
        distinct_keys(pairs.push((key, value))),
{
    let after = pairs.push((key, value));
    assert forall|i: int, j: int| 0 <= i < j < after.len() implies (#[trigger] after[i]).0 != (
    #[trigger] after[j]).0 by {
        assert(after[i] == pairs[i]);
        if j < pairs.len() {
            assert(after[j] == pairs[j]);
        }
    }
}

proof fn key_removed<K, V>(pairs: Seq<(K, V)>, at: int)
    requires
        distinct_keys(pairs),
        0 <= at < pairs.len(),
    ensures
        distinct_keys(pairs.remove(at)),
{
    let after = pairs.remove(at);
    assert forall|i: int, j: int| 0 <= i < j < after.len() implies (#[trigger] after[i]).0 != (
    #[trigger] after[j]).0 by {
        let pi = if i < at { i } else { i + 1 };
        let pj = if j < at { j } else { j + 1 };
        assert(after[i] == pairs[pi]);
        assert(after[j] == pairs[pj]);
    }
}

/// A cell's key: source class, then target class.
pub type CellKey = (ComfyProfileClass, ComfyProfileClass);

/// What a ledger holds.
pub struct LedgerView {
    pub max_recent_events: nat,
    pub sliding_window_size: nat,
    /// The retained events, by epoch and `eid`, oldest first.
    pub recent: Seq<(Seq<char>, i64)>,
    pub cells: Map<CellKey, Seq<TransitionSample>>,
    pub starts: Starts,
    pub last_active_profile: Option<ComfyProfileClass>,
}

/// The last `n` of a sequence, or all of a shorter one.
pub open spec fn newest<A>(s: Seq<A>, n: nat) -> Seq<A> {
    if s.len() > n {
        s.skip(s.len() - n)
    } else {
        s
    }
}

/// The identity of an event in the feed.
pub open spec fn event_key(ev: TransitionEvent) -> (Seq<char>, i64) {
    (ev.epoch@, ev.eid)
}

/// The samples of a cell.
pub open spec fn samples_in(cells: Map<CellKey, Seq<TransitionSample>>, key: CellKey) -> Seq<
    TransitionSample,
> {
    if cells.contains_key(key) {
        cells[key]
    } else {
        Seq::empty()
    }
}

/// A ledger after one event. A retained event changes nothing. Any other is
/// retained and correlated, and what it measures goes into its cell. A start is
/// remembered only as long as its event is retained.
pub open spec fn with_event(ledger: LedgerView, ev: TransitionEvent) -> LedgerView {
    if ledger.recent.contains(event_key(ev)) {
        ledger
    } else {
        let recent = newest(ledger.recent.push(event_key(ev)), ledger.max_recent_events);
        let kept = LedgerView {
            recent,
            starts: still_retained(starts_after(ledger.starts, ev), recent),
            ..ledger
        };
        match measured(ledger.starts, ev) {
            None => kept,
            Some((source, target, us)) => {
                let sample = TransitionSample {
                    runtime_ready_us: us,
                    transition_id: ev.transition_id,
                    observed_at: ev.observed_at,
                };
                LedgerView {
                    cells: ledger.cells.insert(
                        (source, target),
                        newest(
                            samples_in(ledger.cells, (source, target)).push(sample),
                            ledger.sliding_window_size,
                        ),
                    ),
                    last_active_profile: if target != ComfyProfileClass::SealedIdle {
                        Some(target)
                    } else {
                        ledger.last_active_profile
                    },
                    ..kept
                }
            },
        }
    }
}

/// A ledger after the first `n` events of a page.
pub open spec fn with_events(ledger: LedgerView, events: Seq<TransitionEvent>, n: nat) -> LedgerView
    decreases n,
{
    if n == 0 {
        ledger
    } else {
        with_event(with_events(ledger, events, (n - 1) as nat), events[n - 1])
    }
}

/// How many of the first `n` events of a page are new to a ledger.
pub open spec fn new_events(ledger: LedgerView, events: Seq<TransitionEvent>, n: nat) -> nat
    decreases n,
{
    if n == 0 {
        0
    } else {
        let before = (n - 1) as nat;
        new_events(ledger, events, before) + if with_events(ledger, events, before).recent.contains(
            event_key(events[n - 1]),
        ) {
            0nat
        } else {
            1nat
        }
    }
}

/// A ledger as an ingestion finds it: a producer restart discards the retained
/// events and the waiting starts of the prior epoch.
pub open spec fn opened(ledger: LedgerView, disposition: FeedDisposition) -> LedgerView {
    if disposition == FeedDisposition::EpochReset {
        LedgerView { recent: Seq::empty(), starts: Map::empty(), ..ledger }
    } else {
        ledger
    }
}

/// A ledger after a page of the feed.
pub open spec fn ingested(
    ledger: LedgerView,
    disposition: FeedDisposition,
    events: Seq<TransitionEvent>,
) -> LedgerView {
    with_events(opened(ledger, disposition), events, events.len())
}

/// A bounded transition and history ledger.
#[derive(Debug)]
pub struct ComfyTransitionLedger {
    max_recent_events: usize,
    sliding_window_size: usize,
    /// The retained events, by epoch and `eid`, oldest first.
    recent: VecDeque<(String, i64)>,
    cells: Vec<(CellKey, Vec<TransitionSample>)>,
    correlation: CorrelationTable,
    /// The profile that was last active before the current sealed idle.
    last_active_profile: Option<ComfyProfileClass>,
}

/// What a list of retained events says.
pub open spec fn keys_view(recent: Seq<(String, i64)>) -> Seq<(Seq<char>, i64)> {
    Seq::new(recent.len(), |i: int| (recent[i].0@, recent[i].1))
}

/// What a list of cells says.
pub open spec fn cells_view(cells: Seq<(CellKey, Vec<TransitionSample>)>) -> Seq<
    (CellKey, Seq<TransitionSample>),
> {
    Seq::new(cells.len(), |i: int| (cells[i].0, cells[i].1@))
}

impl View for ComfyTransitionLedger {
    type V = LedgerView;

    closed spec fn view(&self) -> LedgerView {
        LedgerView {
            max_recent_events: self.max_recent_events as nat,
            sliding_window_size: self.sliding_window_size as nat,
            recent: keys_view(self.recent@),
            cells: map_of(cells_view(self.cells@)),
            starts: self.correlation@,
            last_active_profile: self.last_active_profile,
        }
    }
}

/// Every remembered start comes from a retained event, and no two from the same.
pub open spec fn starts_are_retained(starts: Starts, recent: Seq<(Seq<char>, i64)>) -> bool {
    &&& forall|key: (Seq<char>, i64)| #[trigger]
        starts.contains_key(key) ==> recent.contains(start_event(starts, key))
    &&& forall|a: (Seq<char>, i64), b: (Seq<char>, i64)|
        #[trigger] starts.contains_key(a) && #[trigger] starts.contains_key(b) && a != b
            ==> start_event(starts, a) != start_event(starts, b)
}

/// The limits of a ledger hold: of the retained events, each of which is retained
/// once, of the remembered starts, and of the samples of every cell.
pub open spec fn within_limits(ledger: LedgerView) -> bool {
    &&& ledger.max_recent_events > 0
    &&& ledger.sliding_window_size > 0
    &&& ledger.recent.len() <= ledger.max_recent_events
    &&& ledger.recent.no_duplicates()
    &&& starts_are_retained(ledger.starts, ledger.recent)
    &&& ledger.starts.dom().finite()
    &&& ledger.starts.dom().len() <= ledger.max_recent_events
    &&& forall|key: CellKey| #[trigger]
        ledger.cells.contains_key(key) ==> 0 < ledger.cells[key].len()
            <= ledger.sliding_window_size
}

/// Ingesting keeps a ledger within its limits.
pub proof fn ingestion_stays_within_limits(
    ledger: LedgerView,
    events: Seq<TransitionEvent>,
    n: nat,
)
    requires
        within_limits(ledger),
        n <= events.len(),
    ensures
        within_limits(with_events(ledger, events, n)),
        with_events(ledger, events, n).max_recent_events == ledger.max_recent_events,
        with_events(ledger, events, n).sliding_window_size == ledger.sliding_window_size,
    decreases n,
{
    if n > 0 {
        ingestion_stays_within_limits(ledger, events, (n - 1) as nat);
        one_event_stays_within_limits(with_events(ledger, events, (n - 1) as nat), events[n - 1]);
    }
}

/// There are at most as many remembered starts as retained events.
proof fn starts_are_few(starts: Starts, recent: Seq<(Seq<char>, i64)>)
    requires
        starts_are_retained(starts, recent),
    ensures
        starts.dom().finite(),
        starts.dom().len() <= recent.len(),
    decreases recent.len(),
{
    if recent.len() == 0 {
        assert(starts.dom() =~= Set::empty());
    } else {
        let rest = recent.drop_last();
        if exists|key: (Seq<char>, i64)|
            #[trigger] starts.contains_key(key) && start_event(starts, key) == recent.last() {
            let key = choose|key: (Seq<char>, i64)|
                #[trigger] starts.contains_key(key) && start_event(starts, key) == recent.last();
            let fewer = starts.remove(key);
            assert forall|k: (Seq<char>, i64)| #[trigger] fewer.contains_key(k) implies rest.contains(
                start_event(fewer, k),
            ) by {
                assert(starts.contains_key(k));
                kept_but_last(recent, start_event(starts, k));
            }
            assert forall|a: (Seq<char>, i64), b: (Seq<char>, i64)|
                #[trigger] fewer.contains_key(a) && #[trigger] fewer.contains_key(b) && a
                    != b implies start_event(fewer, a) != start_event(fewer, b) by {
                assert(starts.contains_key(a) && starts.contains_key(b));
            }
            starts_are_few(fewer, rest);
            assert(starts.dom() =~= fewer.dom().insert(key));
        } else {
            assert forall|k: (Seq<char>, i64)| #[trigger] starts.contains_key(k) implies rest.contains(
                start_event(starts, k),
            ) by {
                kept_but_last(recent, start_event(starts, k));
            }
            starts_are_few(starts, rest);
        }
    }
}

proof fn kept_but_last<A>(s: Seq<A>, x: A)
    requires
        s.contains(x),
        s.last() != x,
    ensures
        s.drop_last().contains(x),
{
    let i = choose|i: int| 0 <= i < s.len() && s[i] == x;
    assert(s.drop_last()[i] == x);
}

/// What one event does to the retained events and to the starts.
proof fn one_event_keeps_starts_retained(ledger: LedgerView, ev: TransitionEvent)
    requires
        within_limits(ledger),
        !ledger.recent.contains(event_key(ev)),
    ensures
        ({
            let after = with_event(ledger, ev);
            let pushed = ledger.recent.push(event_key(ev));
            let starts = starts_after(ledger.starts, ev);
            &&& after.recent.no_duplicates()
            &&& starts_are_retained(starts, pushed)
            &&& starts_are_retained(after.starts, after.recent)
            &&& pushed.len() <= ledger.max_recent_events ==> after.starts == starts
            &&& pushed.len() > ledger.max_recent_events ==> after.recent == pushed.drop_first()
                && after.starts == not_from(starts, pushed[0])
        }),
{
    let after = with_event(ledger, ev);
    let key = event_key(ev);
    let pushed = ledger.recent.push(key);
    let starts = starts_after(ledger.starts, ev);
    assert(pushed.no_duplicates());
    assert(pushed[pushed.len() - 1] == key);
    assert forall|k: (Seq<char>, i64)| #[trigger] starts.contains_key(k) implies pushed.contains(
        start_event(starts, k),
    ) && (start_event(starts, k) == key ==> k == transition_key(ev)) by {
        if start_event(starts, k) != key || k != transition_key(ev) {
            assert(ledger.starts.contains_key(k));
            let e = start_event(ledger.starts, k);
            assert(ledger.recent.contains(e));
            let i = choose|i: int| 0 <= i < ledger.recent.len() && ledger.recent[i] == e;
            assert(pushed[i] == e);
        }
    }
    assert forall|a: (Seq<char>, i64), b: (Seq<char>, i64)|
        #[trigger] starts.contains_key(a) && #[trigger] starts.contains_key(b) && a
            != b implies start_event(starts, a) != start_event(starts, b) by {
        if start_event(starts, a) == start_event(starts, b) && start_event(starts, a) != key {
            assert(ledger.starts.contains_key(a) && ledger.starts.contains_key(b));
        }
    }
    if pushed.len() > ledger.max_recent_events {
        assert(after.recent =~= pushed.drop_first());
        assert forall|k: (Seq<char>, i64)| #[trigger] starts.contains_key(k) implies (
        after.recent.contains(start_event(starts, k)) <==> start_event(starts, k) != pushed[0]) by {
            let e = start_event(starts, k);
            if e == pushed[0] {
                if after.recent.contains(e) {
                    let i = choose|i: int| 0 <= i < after.recent.len() && after.recent[i] == e;
                    assert(pushed[i + 1] == pushed[0]);
                }
            } else {
                let i = choose|i: int| 0 <= i < pushed.len() && pushed[i] == e;
                assert(after.recent[i - 1] == e);
            }
        }
        assert(after.starts =~= not_from(starts, pushed[0]));
    } else {
        assert(after.starts =~= starts);
    }
    assert forall|k: (Seq<char>, i64)| #[trigger] after.starts.contains_key(k) implies {
        &&& after.recent.contains(start_event(after.starts, k))
        &&& starts.contains_key(k)
        &&& start_event(after.starts, k) == start_event(starts, k)
    } by {}
}

proof fn one_event_stays_within_limits(ledger: LedgerView, ev: TransitionEvent)
    requires
        within_limits(ledger),
    ensures
        within_limits(with_event(ledger, ev)),
        with_event(ledger, ev).max_recent_events == ledger.max_recent_events,
        with_event(ledger, ev).sliding_window_size == ledger.sliding_window_size,
{
    let after = with_event(ledger, ev);
    if !ledger.recent.contains(event_key(ev)) {
        one_event_keeps_starts_retained(ledger, ev);
        starts_are_few(after.starts, after.recent);
    }
    assert forall|key: CellKey| #[trigger] after.cells.contains_key(key) implies 0
        < after.cells[key].len() <= after.sliding_window_size by {
        if ledger.cells.contains_key(key) {
            assert(0 < ledger.cells[key].len() <= ledger.sliding_window_size);
        }
    }
}

impl ComfyTransitionLedger {
    /// The ledger is sound and within its limits.
    pub closed spec fn wf(&self) -> bool {
        self.correlation.wf() && within_limits(self@)
    }

    /// An empty ledger; a limit of zero counts as one.
    pub fn with_limits(max_recent_events: usize, sliding_window_size: usize) -> (r: Self)
        ensures
            r.wf(),
            r@ == (LedgerView {
                max_recent_events: if max_recent_events > 0 {
                    max_recent_events as nat
                } else {
                    1
                },
                sliding_window_size: if sliding_window_size > 0 {
                    sliding_window_size as nat
                } else {
                    1
                },
                recent: Seq::empty(),
                cells: Map::empty(),
                starts: Map::empty(),
                last_active_profile: None,
            }),
    {
        let r = ComfyTransitionLedger {
            max_recent_events: if max_recent_events > 0 {
                max_recent_events
            } else {
                1
            },
            sliding_window_size: if sliding_window_size > 0 {
                sliding_window_size
            } else {
                1
            },
            recent: VecDeque::new(),
            cells: Vec::new(),
            correlation: CorrelationTable::new(),
            last_active_profile: None,
        };
        proof {
            assert(keys_view(r.recent@) =~= Seq::empty());
            assert(cells_view(r.cells@) =~= Seq::empty());
            assert(r@.starts.dom() =~= Set::empty());
        }
        r
    }

    /// The profile that was last active before the current sealed idle.
    pub fn last_active_profile(&self) -> (r: Option<ComfyProfileClass>)
        ensures
            r == self@.last_active_profile,
    {
        self.last_active_profile
    }

    /// How many events are retained.
    pub fn recent_event_count(&self) -> (r: usize)
        ensures
            r == self@.recent.len(),
    {
        self.recent.len()
    }

    fn cell_index(&self, key: CellKey) -> (r: Option<usize>)
        ensures
            match r {
                Some(i) => first_at(cells_view(self.cells@), key, i as int),
                None => lacks(cells_view(self.cells@), key),
            },
    {
        let mut i: usize = 0;
        while i < self.cells.len()
            invariant
                i <= self.cells.len(),
                forall|j: int|
                    0 <= j < i ==> (#[trigger] cells_view(self.cells@)[j]).0 != key,
            decreases self.cells.len() - i,
        {
            let (source, target) = self.cells[i].0;
            if source == key.0 && target == key.1 {
                assert(cells_view(self.cells@)[i as int].0 == key);
                return Some(i);
            }
            assert(cells_view(self.cells@)[i as int].0 != key);
            i = i + 1;
        }
        None
    }

    /// The samples of a cell, oldest first, where it has any.
    pub fn cell(&self, source: ComfyProfileClass, target: ComfyProfileClass) -> (r: Option<
        &Vec<TransitionSample>,
    >)
        ensures
            match r {
                Some(samples) => self@.cells.contains_key((source, target)) && samples@
                    == self@.cells[(source, target)],
                None => !self@.cells.contains_key((source, target)),
            },
    {
        match self.cell_index((source, target)) {
            Some(i) => {
                proof {
                    lookup(cells_view(self.cells@), (source, target), i as int);
                }
                Some(&self.cells[i].1)
            },
            None => {
                proof {
                    absent(cells_view(self.cells@), (source, target));
                }
                None
            },
        }
    }

    fn retains(&self, epoch: &str, eid: i64) -> (r: bool)
        ensures
            r == self@.recent.contains((epoch@, eid)),
    {
        let mut i: usize = 0;
        while i < self.recent.len()
            invariant
                i <= self.recent.len(),
                forall|j: int| 0 <= j < i ==> (#[trigger] self@.recent[j]) != (epoch@, eid),
            decreases self.recent.len() - i,
        {
            let entry = &self.recent[i];
            if entry.1 == eid && text::str_eq(entry.0.as_str(), epoch) {
                assert(self@.recent[i as int] == (epoch@, eid));
                return true;
            }
            assert(self@.recent[i as int] != (epoch@, eid));
            i = i + 1;
        }
        false
    }

    fn add_sample(&mut self, key: CellKey, sample: TransitionSample)
        requires
            old(self).sliding_window_size > 0,
        ensures
            final(self).correlation == old(self).correlation,
            final(self)@ == (LedgerView {
                cells: old(self)@.cells.insert(
                    key,
                    newest(
                        samples_in(old(self)@.cells, key).push(sample),
                        old(self)@.sliding_window_size,
                    ),
                ),
                ..old(self)@
            }),
    {
        let ghost pairs = cells_view(self.cells@);
        let ghost wanted = newest(
            samples_in(self@.cells, key).push(sample),
            self@.sliding_window_size,
        );
        match self.cell_index(key) {
            Some(i) => {
                proof {
                    lookup(pairs, key, i as int);
                }
                let window: usize = self.sliding_window_size;
                push_newest(&mut self.cells[i].1, sample, window);
                proof {
                    replace(pairs, key, i as int, wanted);
                    assert(cells_view(self.cells@) =~= pairs.update(i as int, (key, wanted)));
                }
            },
            None => {
                let mut samples: Vec<TransitionSample> = Vec::new();
                samples.push(sample);
                proof {
                    absent(pairs, key);
                    append(pairs, key, wanted);
                    assert(samples@ =~= Seq::<TransitionSample>::empty().push(sample));
                }
                self.cells.push((key, samples));
                proof {
                    assert(cells_view(self.cells@) =~= pairs.push((key, wanted)));
                }
            },
        }
    }

    fn ingest_event(&mut self, ev: &TransitionEvent) -> (r: bool)
        requires
            old(self).wf(),
        ensures
            final(self).wf(),
            final(self)@ == with_event(old(self)@, *ev),
            r == !old(self)@.recent.contains(event_key(*ev)),
    {
        let ghost before = self@;
        if self.retains(ev.epoch.as_str(), ev.eid) {
            return false;
        }
        let derived = self.correlation.feed(ev);
        self.recent.push_back((text::copy_str(ev.epoch.as_str()), ev.eid));
        proof {
            assert(keys_view(self.recent@) =~= before.recent.push(event_key(*ev)));
        }
        proof {
            one_event_keeps_starts_retained(before, *ev);
        }
        if self.recent.len() > self.max_recent_events {
            let ghost was = keys_view(self.recent@);
            if let Some((epoch, eid)) = self.recent.pop_front() {
                self.correlation.forget(epoch.as_str(), eid);
            }
            proof {
                assert(keys_view(self.recent@) =~= was.drop_first());
            }
        }
        if let Some((source, target, runtime_ready_us)) = derived {
            let sample = TransitionSample {
                runtime_ready_us,
                transition_id: ev.transition_id,
                observed_at: ev.observed_at,
            };
            self.add_sample((source, target), sample);
            // A terminal to sealed idle keeps the profile that was active before.
            if target != ComfyProfileClass::SealedIdle {
                self.last_active_profile = Some(target);
            }
        }
        proof {
            one_event_stays_within_limits(before, *ev);
        }
        true
    }

    /// Ingests a page of the feed under its disposition, and says how many of its
    /// events were new.
    pub fn ingest(&mut self, disposition: FeedDisposition, feed: &TransitionFeed) -> (r: usize)
        requires
            old(self).wf(),
        ensures
            final(self).wf(),
            final(self)@ == ingested(old(self)@, disposition, feed.events@),
            r == new_events(
                opened(old(self)@, disposition),
                feed.events@,
                feed.events@.len(),
            ),
    {
        if disposition == FeedDisposition::EpochReset {
            self.recent.clear();
            self.correlation = CorrelationTable::new();
            proof {
                assert(keys_view(self.recent@) =~= Seq::empty());
            }
        }
        let ghost start = self@;
        proof {
            assert(start == opened(old(self)@, disposition));
        }
        let mut added: usize = 0;
        let mut i: usize = 0;
        while i < feed.events.len()
            invariant
                i <= feed.events.len(),
                self.wf(),
                self@ == with_events(start, feed.events@, i as nat),
                added == new_events(start, feed.events@, i as nat),
                added <= i,
            decreases feed.events.len() - i,
        {
            if self.ingest_event(&feed.events[i]) {
                added = added + 1;
            }
            i = i + 1;
        }
        added
    }
}

impl Default for ComfyTransitionLedger {
    fn default() -> (r: Self)
        ensures
            r.wf(),
            r@.max_recent_events == 4096,
            r@.sliding_window_size == 64,
            r@.recent.len() == 0,
            r@.cells == Map::<CellKey, Seq<TransitionSample>>::empty(),
            r@.starts == Map::<(Seq<char>, i64), StartView>::empty(),
            r@.last_active_profile is None,
    {
        ComfyTransitionLedger::with_limits(4096, 64)
    }
}

fn push_newest(samples: &mut Vec<TransitionSample>, sample: TransitionSample, window: usize)
    requires
        window > 0,
    ensures
        final(samples)@ == newest(old(samples)@.push(sample), window as nat),
{
    let ghost all = samples@.push(sample);
    samples.push(sample);
    while samples.len() > window
        invariant
            newest(samples@, window as nat) == newest(all, window as nat),
            window > 0,
        decreases samples.len(),
    {
        let ghost was = samples@;
        let _ = samples.remove(0);
        proof {
            assert(samples@ =~= was.drop_first());
            assert(newest(samples@, window as nat) =~= newest(was, window as nat));
        }
    }
}

/// The durations of a list of samples.
pub open spec fn durations(samples: Seq<TransitionSample>) -> Seq<u64> {
    Seq::new(samples.len(), |i: int| samples[i].runtime_ready_us)
}

/// `sorted` holds exactly `values`, in ascending order.
pub open spec fn sorts(sorted: Seq<u64>, values: Seq<u64>) -> bool {
    &&& sorted.to_multiset() == values.to_multiset()
    &&& forall|i: int, j: int| 0 <= i <= j < sorted.len() ==> sorted[i] <= sorted[j]
}

/// The aggregate of durations in ascending order: their number, the lower
/// median, the least and the greatest.
pub open spec fn stats_of(sorted: Seq<u64>) -> TransitionCellStats {
    if sorted.len() == 0 {
        no_stats()
    } else {
        TransitionCellStats {
            sample_n: sorted.len() as u64,
            median_us: Some(sorted[(sorted.len() - 1) / 2]),
            observed_min_us: Some(sorted[0]),
            observed_max_us: Some(sorted.last()),
        }
    }
}

fn insert_sorted(sorted: &mut Vec<u64>, value: u64)
    requires
        forall|i: int, j: int| 0 <= i <= j < old(sorted)@.len() ==> old(sorted)@[i] <= old(sorted)@[j],
    ensures
        forall|i: int, j: int|
            0 <= i <= j < final(sorted)@.len() ==> final(sorted)@[i] <= final(sorted)@[j],
        final(sorted)@.to_multiset() == old(sorted)@.to_multiset().insert(value),
{
    let ghost was = sorted@;
    let mut at: usize = sorted.len();
    while at > 0 && sorted[at - 1] > value
        invariant
            at <= sorted.len(),
            was == sorted@,
            forall|i: int, j: int| 0 <= i <= j < was.len() ==> was[i] <= was[j],
            forall|k: int| at <= k < was.len() ==> was[k] > value,
        decreases at,
    {
        at = at - 1;
    }
    sorted.insert(at, value);
    proof {
        let now = sorted@;
        assert(now =~= was.insert(at as int, value));
        now.to_multiset_ensures();
        assert(now.remove(at as int) =~= was);
        assert(now[at as int] == value);
        assert(now.contains(value));
        assert(now.to_multiset() =~= was.to_multiset().insert(value));
        assert forall|i: int, j: int| 0 <= i <= j < now.len() implies now[i] <= now[j] by {
            if at > 0 {
                assert(was[at - 1] <= value);
            }
        }
    }
}

impl ComfyTransitionLedger {
    /// The aggregate of a cell.
    pub fn cell_stats(&self, source: ComfyProfileClass, target: ComfyProfileClass) -> (r:
        TransitionCellStats)
        ensures
            exists|sorted: Seq<u64>| #[trigger]
                sorts(sorted, durations(samples_in(self@.cells, (source, target)))) && r
                    == stats_of(sorted),
    {
        let samples = match self.cell(source, target) {
            Some(samples) => samples,
            None => {
                proof {
                    let none = durations(samples_in(self@.cells, (source, target)));
                    assert(sorts(none, none));
                }
                return TransitionCellStats::default();
            },
        };
        let ghost all = durations(samples@);
        let mut sorted: Vec<u64> = Vec::new();
        let mut i: usize = 0;
        proof {
            assert(all.take(0) =~= Seq::empty());
            assert(sorted@ =~= Seq::empty());
        }
        while i < samples.len()
            invariant
                i <= samples.len(),
                all == durations(samples@),
                forall|i: int, j: int| 0 <= i <= j < sorted@.len() ==> sorted@[i] <= sorted@[j],
                sorted@.to_multiset() == all.take(i as int).to_multiset(),
            decreases samples.len() - i,
        {
            insert_sorted(&mut sorted, samples[i].runtime_ready_us);
            proof {
                assert(all.take(i + 1) =~= all.take(i as int).push(all[i as int]));
                all.take(i as int).to_multiset_ensures();
            }
            i = i + 1;
        }
        proof {
            assert(all.take(all.len() as int) =~= all);
            assert(all == durations(samples_in(self@.cells, (source, target))));
            assert(sorts(sorted@, all));
        }
        if sorted.len() == 0 {
            return TransitionCellStats::default();
        }
        let n: usize = sorted.len();
        TransitionCellStats {
            sample_n: n as u64,
            median_us: Some(sorted[(n - 1) / 2]),
            observed_min_us: Some(sorted[0]),
            observed_max_us: Some(sorted[n - 1]),
        }
    }
}

/// One list of durations has one aggregate, and its least, median and greatest
/// stand in that order.
pub proof fn stats_are_determined(a: Seq<u64>, b: Seq<u64>, values: Seq<u64>)
    requires
        sorts(a, values),
        sorts(b, values),
    ensures
        stats_of(a) == stats_of(b),
        a.len() > 0 ==> a[0] <= a[(a.len() - 1) / 2] <= a.last(),
{
    vstd::seq_lib::lemma_sorted_unique(a, b, |x: u64, y: u64| x <= y);
}

/// A terminal that the producer marks as an orphan measures nothing and uses up
/// no start; nor does a terminal without a remembered start measure anything. The
/// starts are then those whose events are still retained.
pub proof fn orphans_measure_nothing(ledger: LedgerView, ev: TransitionEvent)
    requires
        within_limits(ledger),
        ev.phase == TransitionPhase::Terminal,
        ev.correlation_status == CorrelationStatus::OrphanTerminal || !ledger.starts.contains_key(
            transition_key(ev),
        ),
    ensures
        with_event(ledger, ev).cells == ledger.cells,
        with_event(ledger, ev).last_active_profile == ledger.last_active_profile,
        with_event(ledger, ev).starts == still_retained(
            ledger.starts,
            with_event(ledger, ev).recent,
        ),
{
    assert(still_retained(ledger.starts, ledger.recent) =~= ledger.starts);
    if !ledger.starts.contains_key(transition_key(ev)) {
        assert(ledger.starts.remove(transition_key(ev)) =~= ledger.starts);
    }
}

/// A transition that seals into idle keeps the profile that was active before;
/// one that lands in any other class makes that class the active one.
pub proof fn only_activity_sets_the_active_profile(ledger: LedgerView, ev: TransitionEvent)
    requires
        !ledger.recent.contains(event_key(ev)),
        measured(ledger.starts, ev) is Some,
    ensures
        with_event(ledger, ev).last_active_profile == (if ev.target_mode == Some(ComfyMode::Idle) {
            ledger.last_active_profile
        } else {
            Some(class_of_mode(ev.target_mode))
        }),
{
}

/// A page of which every event is retained adds nothing and changes nothing.
pub proof fn ingesting_again_changes_nothing(
    ledger: LedgerView,
    events: Seq<TransitionEvent>,
    n: nat,
)
    requires
        n <= events.len(),
        forall|i: int|
            0 <= i < events.len() ==> ledger.recent.contains(event_key(#[trigger] events[i])),
    ensures
        with_events(ledger, events, n) == ledger,
        new_events(ledger, events, n) == 0,
    decreases n,
{
    if n > 0 {
        ingesting_again_changes_nothing(ledger, events, (n - 1) as nat);
    }
}

/// A page ingested once more, as a continuation, leaves the ledger as it is and
/// adds nothing, as long as every one of its events is still retained.
pub proof fn ingestion_is_idempotent(
    ledger: LedgerView,
    disposition: FeedDisposition,
    events: Seq<TransitionEvent>,
)
    requires
        forall|i: int|
            0 <= i < events.len() ==> ingested(ledger, disposition, events).recent.contains(
                event_key(#[trigger] events[i]),
            ),
    ensures
        ({
            let once = ingested(ledger, disposition, events);
            &&& ingested(once, FeedDisposition::Continuation, events) == once
            &&& new_events(
                opened(once, FeedDisposition::Continuation),
                events,
                events.len(),
            ) == 0
        }),
{
    ingesting_again_changes_nothing(ingested(ledger, disposition, events), events, events.len());
}

/// A page that fits beside what is retained is retained whole, so that ingesting
/// it again changes nothing.
pub proof fn fitting_page_is_retained(ledger: LedgerView, events: Seq<TransitionEvent>, n: nat)
    requires
        n <= events.len(),
        ledger.recent.len() + n <= ledger.max_recent_events,
    ensures
        with_events(ledger, events, n).max_recent_events == ledger.max_recent_events,
        with_events(ledger, events, n).recent.len() <= ledger.recent.len() + n,
        forall|i: int|
            0 <= i < n ==> with_events(ledger, events, n).recent.contains(
                event_key(#[trigger] events[i]),
            ),
    decreases n,
{
    if n > 0 {
        let before = with_events(ledger, events, (n - 1) as nat);
        let after = with_events(ledger, events, n);
        fitting_page_is_retained(ledger, events, (n - 1) as nat);
        let key = event_key(events[n - 1]);
        if !before.recent.contains(key) {
            assert(after.recent == before.recent.push(key));
            assert(after.recent[before.recent.len() as int] == key);
            assert forall|i: int| 0 <= i < n implies after.recent.contains(
                event_key(#[trigger] events[i]),
            ) by {
                if i < n - 1 {
                    let k = event_key(events[i]);
                    assert(before.recent.contains(k));
                    let at = choose|at: int| 0 <= at < before.recent.len() && before.recent[at] == k;
                    assert(after.recent[at] == k);
                }
            }
        }
    }
}

/// After a producer restart nothing of the prior epoch's events or starts is
/// left: what is retained, and what waits, comes from the new page alone.
pub proof fn restart_forgets_the_prior_epoch(
    ledger: LedgerView,
    other: LedgerView,
    events: Seq<TransitionEvent>,
)
    requires
        other == (LedgerView { recent: other.recent, starts: other.starts, ..ledger }),
    ensures
        ingested(ledger, FeedDisposition::EpochReset, events) == ingested(
            other,
            FeedDisposition::EpochReset,
            events,
        ),
{
}

/// How many elements satisfy a predicate does not depend on their order.
proof fn counts_ignore_order(a: Seq<u64>, b: Seq<u64>, p: spec_fn(u64) -> bool)
    requires
        a.to_multiset() == b.to_multiset(),
    ensures
        a.filter(p).len() == b.filter(p).len(),
    decreases a.len(),
{
    a.to_multiset_ensures();
    b.to_multiset_ensures();
    assert(a.len() == b.len());
    reveal(Seq::filter);
    if a.len() > 0 {
        let x = a.last();
        assert(a.contains(x)) by {
            assert(a[a.len() - 1] == x);
        }
        assert(b.to_multiset().count(x) > 0);
        let i = choose|i: int| 0 <= i < b.len() && b[i] == x;
        let rest = b.remove(i);
        assert(a.remove(a.len() - 1) =~= a.drop_last());
        counts_ignore_order(a.drop_last(), rest, p);
        let one = seq![x];
        assert(b =~= b.take(i) + one + b.skip(i + 1));
        assert(rest =~= b.take(i) + b.skip(i + 1));
        Seq::filter_distributes_over_add(b.take(i) + one, b.skip(i + 1), p);
        Seq::filter_distributes_over_add(b.take(i), one, p);
        Seq::filter_distributes_over_add(b.take(i), b.skip(i + 1), p);
        assert(one.drop_last() =~= Seq::empty());
        assert(one.drop_last().filter(p).len() == 0);
        assert(one.filter(p).len() == (if p(x) {
            1int
        } else {
            0int
        }));
    }
}

proof fn all_are_counted(s: Seq<u64>, p: spec_fn(u64) -> bool)
    requires
        forall|i: int| 0 <= i < s.len() ==> p(#[trigger] s[i]),
    ensures
        s.filter(p).len() == s.len(),
    decreases s.len(),
{
    reveal(Seq::filter);
    if s.len() > 0 {
        assert(p(s[s.len() - 1]));
        all_are_counted(s.drop_last(), p);
    }
}

proof fn none_is_counted(s: Seq<u64>, p: spec_fn(u64) -> bool)
    requires
        forall|i: int| 0 <= i < s.len() ==> !p(#[trigger] s[i]),
    ensures
        s.filter(p).len() == 0,
    decreases s.len(),
{
    reveal(Seq::filter);
    if s.len() > 0 {
        assert(!p(s[s.len() - 1]));
        none_is_counted(s.drop_last(), p);
    }
}

/// Samples are counted by their durations.
proof fn samples_count_as_durations(
    samples: Seq<TransitionSample>,
    q: spec_fn(TransitionSample) -> bool,
    p: spec_fn(u64) -> bool,
)
    requires
        forall|s: TransitionSample| #[trigger] q(s) == p(s.runtime_ready_us),
    ensures
        samples.filter(q).len() == durations(samples).filter(p).len(),
    decreases samples.len(),
{
    reveal(Seq::filter);
    if samples.len() > 0 {
        samples_count_as_durations(samples.drop_last(), q, p);
        assert(durations(samples).drop_last() =~= durations(samples.drop_last()));
        assert(q(samples.last()) == p(durations(samples).last()));
    }
}

/// The median of a cell is one of its durations; at least half of them are no
/// greater, at least half are no smaller, and where two qualify it is the lower
/// one: fewer than half are smaller.
pub proof fn median_splits_the_durations(
    ledger: ComfyTransitionLedger,
    source: ComfyProfileClass,
    target: ComfyProfileClass,
    stats: TransitionCellStats,
)
    requires
        call_ensures(ComfyTransitionLedger::cell_stats, (&ledger, source, target), stats),
        ledger@.cells.contains_key((source, target)),
        ledger@.cells[(source, target)].len() > 0,
    ensures
        stats.median_us is Some,
        ({
            let samples = ledger@.cells[(source, target)];
            let n = samples.len();
            let median = stats.median_us->0;
            &&& exists|i: int|
                0 <= i < n && (#[trigger] samples[i]).runtime_ready_us == median
            &&& 2 * samples.filter(|s: TransitionSample| s.runtime_ready_us <= median).len() >= n
            &&& 2 * samples.filter(|s: TransitionSample| s.runtime_ready_us >= median).len() >= n
            &&& 2 * samples.filter(|s: TransitionSample| s.runtime_ready_us < median).len() < n
        }),
{
    let samples = ledger@.cells[(source, target)];
    let values = durations(samples);
    let sorted = choose|sorted: Seq<u64>| #[trigger]
        sorts(sorted, values) && stats == stats_of(sorted);
    sorted.to_multiset_ensures();
    values.to_multiset_ensures();
    let n = sorted.len() as int;
    let k = (n - 1) / 2;
    let m = sorted[k];
    let low = sorted.take(k + 1);
    let high = sorted.skip(k + 1);
    let under = sorted.take(k);
    let over = sorted.skip(k);
    let le = |d: u64| d <= m;
    let ge = |d: u64| d >= m;
    let lt = |d: u64| d < m;
    assert(sorted =~= low + high);
    assert(sorted =~= under + over);
    Seq::filter_distributes_over_add(low, high, le);
    Seq::filter_distributes_over_add(under, over, ge);
    Seq::filter_distributes_over_add(under, over, lt);
    all_are_counted(low, le);
    all_are_counted(over, ge);
    none_is_counted(over, lt);
    under.lemma_filter_len(lt);
    counts_ignore_order(sorted, values, le);
    counts_ignore_order(sorted, values, ge);
    counts_ignore_order(sorted, values, lt);
    samples_count_as_durations(samples, |s: TransitionSample| s.runtime_ready_us <= m, le);
    samples_count_as_durations(samples, |s: TransitionSample| s.runtime_ready_us >= m, ge);
    samples_count_as_durations(samples, |s: TransitionSample| s.runtime_ready_us < m, lt);
    assert(sorted.contains(m));
    assert(values.to_multiset().count(m) > 0);
    assert(values.contains(m));
    let i = choose|i: int| 0 <= i < values.len() && values[i] == m;
    assert(samples[i].runtime_ready_us == m);
}

/// The extremes of a cell are durations of it, and no duration lies beyond them;
/// every sample is counted.
pub proof fn extremes_enclose_the_durations(
    ledger: ComfyTransitionLedger,
    source: ComfyProfileClass,
    target: ComfyProfileClass,
    stats: TransitionCellStats,
)
    requires
        call_ensures(ComfyTransitionLedger::cell_stats, (&ledger, source, target), stats),
        ledger@.cells.contains_key((source, target)),
        0 < ledger@.cells[(source, target)].len() <= u64::MAX,
    ensures
        stats.observed_min_us is Some && stats.observed_max_us is Some,
        ({
            let samples = ledger@.cells[(source, target)];
            &&& stats.sample_n == samples.len()
            &&& forall|i: int|
                0 <= i < samples.len() ==> stats.observed_min_us->0 <= (
                #[trigger] samples[i]).runtime_ready_us <= stats.observed_max_us->0
            &&& exists|i: int|
                0 <= i < samples.len() && (#[trigger] samples[i]).runtime_ready_us
                    == stats.observed_min_us->0
            &&& exists|i: int|
                0 <= i < samples.len() && (#[trigger] samples[i]).runtime_ready_us
                    == stats.observed_max_us->0
        }),
{
    let samples = ledger@.cells[(source, target)];
    let values = durations(samples);
    let sorted = choose|sorted: Seq<u64>| #[trigger]
        sorts(sorted, values) && stats == stats_of(sorted);
    sorted.to_multiset_ensures();
    values.to_multiset_ensures();
    assert forall|i: int| 0 <= i < samples.len() implies stats.observed_min_us->0 <= (
    #[trigger] samples[i]).runtime_ready_us <= stats.observed_max_us->0 by {
        assert(values.contains(values[i]));
        assert(sorted.to_multiset().count(values[i]) > 0);
        assert(sorted.contains(values[i]));
        let j = choose|j: int| 0 <= j < sorted.len() && sorted[j] == values[i];
        assert(sorted[0] <= sorted[j] <= sorted[sorted.len() - 1]);
    }
    let least = sorted[0];
    let greatest = sorted[sorted.len() - 1];
    assert(sorted.contains(least) && sorted.contains(greatest));
    assert(values.to_multiset().count(least) > 0 && values.to_multiset().count(greatest) > 0);
    let i = choose|i: int| 0 <= i < values.len() && values[i] == least;
    let j = choose|j: int| 0 <= j < values.len() && values[j] == greatest;
    assert(samples[i].runtime_ready_us == least);
    assert(samples[j].runtime_ready_us == greatest);
}

/// A cell without samples has no aggregate but the number zero.
pub proof fn empty_cells_have_no_aggregate(
    ledger: ComfyTransitionLedger,
    source: ComfyProfileClass,
    target: ComfyProfileClass,
    stats: TransitionCellStats,
)
    requires
        call_ensures(ComfyTransitionLedger::cell_stats, (&ledger, source, target), stats),
        !ledger@.cells.contains_key((source, target)),
    ensures
        stats.sample_n == 0,
        stats.median_us is None && stats.observed_min_us is None && stats.observed_max_us is None,
{
    let values = durations(samples_in(ledger@.cells, (source, target)));
    let sorted = choose|sorted: Seq<u64>| #[trigger]
        sorts(sorted, values) && stats == stats_of(sorted);
    sorted.to_multiset_ensures();
    values.to_multiset_ensures();
}

/// A start and its terminal measure the time between them: the sample goes, as the
/// newest one, into the cell of the terminal's modes, before it stand the newest
/// samples of before, and the start is used up. No other cell changes.
pub proof fn start_and_terminal_measure_the_time_between(
    ledger: LedgerView,
    start: TransitionEvent,
    end: TransitionEvent,
)
    requires
        within_limits(ledger),
        start.phase == TransitionPhase::Start,
        end.phase == TransitionPhase::Terminal,
        end.correlation_status != CorrelationStatus::OrphanTerminal,
        start.epoch@ == end.epoch@,
        start.transition_id == end.transition_id,
        start.eid != end.eid,
        start.observed_at <= end.observed_at,
        !ledger.recent.contains((start.epoch@, start.eid)),
        !ledger.recent.contains((end.epoch@, end.eid)),
    ensures
        ({
            let after = ingested(ledger, FeedDisposition::Continuation, seq![start, end]);
            let cell = (
                if end.source_mode == Some(ComfyMode::Idle) {
                    ComfyProfileClass::SealedIdle
                } else {
                    ComfyProfileClass::Generic
                },
                if end.target_mode == Some(ComfyMode::Idle) {
                    ComfyProfileClass::SealedIdle
                } else {
                    ComfyProfileClass::Generic
                },
            );
            let before = if ledger.cells.contains_key(cell) {
                ledger.cells[cell]
            } else {
                Seq::empty()
            };
            let samples = after.cells[cell];
            &&& new_events(ledger, seq![start, end], 2) == 2
            &&& after.cells.contains_key(cell)
            &&& samples.len() == if before.len() < ledger.sliding_window_size {
                before.len() + 1
            } else {
                ledger.sliding_window_size
            }
            &&& samples.last() == (TransitionSample {
                runtime_ready_us: (end.observed_at - start.observed_at) as u64,
                transition_id: end.transition_id,
                observed_at: end.observed_at,
            })
            &&& samples.drop_last() == before.skip(before.len() - (samples.len() - 1))
            &&& !after.starts.contains_key((end.epoch@, end.transition_id))
            &&& forall|other: CellKey|
                other != cell ==> (#[trigger] after.cells.contains_key(other)
                    <==> ledger.cells.contains_key(other)) && (ledger.cells.contains_key(other)
                    ==> after.cells[other] == ledger.cells[other])
            &&& after.last_active_profile == if end.target_mode == Some(ComfyMode::Idle) {
                ledger.last_active_profile
            } else {
                Some(ComfyProfileClass::Generic)
            }
        }),
{
    let events = seq![start, end];
    reveal_with_fuel(with_events, 3);
    reveal_with_fuel(new_events, 3);
    let one = with_event(ledger, start);
    let two = with_event(one, end);
    assert(events[0] == start && events[1] == end);
    assert(with_events(ledger, events, 1) == one);
    assert(with_events(ledger, events, 2) == two);
    let key = event_key(start);
    let pushed = ledger.recent.push(key);
    one_event_keeps_starts_retained(ledger, start);
    one_event_stays_within_limits(ledger, start);
    assert(pushed[pushed.len() - 1] == key);
    assert(one.recent.contains(key)) by {
        assert(one.recent[one.recent.len() - 1] == key);
    }
    let id = (end.epoch@, end.transition_id);
    assert(starts_after(ledger.starts, start).contains_key(id));
    assert(one.starts.contains_key(id));
    assert(one.starts[id].observed_at == start.observed_at);
    assert(!one.recent.contains(event_key(end))) by {
        if one.recent.contains(event_key(end)) {
            let i = choose|i: int| 0 <= i < one.recent.len() && one.recent[i] == event_key(end);
            let shift = pushed.len() - one.recent.len();
            assert(pushed[i + shift] == event_key(end));
            assert(i + shift < ledger.recent.len());
            assert(ledger.recent[i + shift] == event_key(end));
        }
    }
    assert(measured(one.starts, end) is Some);
    one_event_keeps_starts_retained(one, end);
    let cell = (class_of_mode(end.source_mode), class_of_mode(end.target_mode));
    let before = samples_in(ledger.cells, cell);
    let samples = two.cells[cell];
    assert(one.cells == ledger.cells);
    assert(samples.drop_last() =~= before.skip(before.len() - (samples.len() - 1)));
    if ledger.cells.contains_key(cell) {
        assert(ledger.cells[cell].len() <= ledger.sliding_window_size);
    }
}

/// An event is taken in once: where it is retained, by epoch and `eid`, it changes
/// nothing; where it is not, it becomes the newest one retained, and only where
/// the ledger is full the oldest makes room.
pub proof fn events_are_retained_once_newest_last(ledger: LedgerView, ev: TransitionEvent)
    requires
        within_limits(ledger),
    ensures
        ({
            let after = with_event(ledger, ev);
            let key = (ev.epoch@, ev.eid);
            if ledger.recent.contains(key) {
                after == ledger
            } else if ledger.recent.len() < ledger.max_recent_events {
                after.recent == ledger.recent.push(key)
            } else {
                after.recent == ledger.recent.push(key).drop_first()
            }
        }),
{
    let pushed = ledger.recent.push((ev.epoch@, ev.eid));
    assert(pushed.skip(1) =~= pushed.drop_first());
}

/// Only starts wait: after an event a transition, by epoch and id, waits where the
/// event is its start, or where it waited before, its start is still retained, and
/// the event is no terminal of it other than an orphan.
pub proof fn only_starts_wait(ledger: LedgerView, ev: TransitionEvent, id: (Seq<char>, i64))
    requires
        within_limits(ledger),
        !ledger.recent.contains((ev.epoch@, ev.eid)),
    ensures
        ({
            let after = with_event(ledger, ev);
            let own = id == (ev.epoch@, ev.transition_id);
            if own && ev.phase == TransitionPhase::Start {
                &&& after.starts.contains_key(id)
                &&& after.starts[id].observed_at == ev.observed_at
                &&& after.starts[id].rid == ev.rid@
                &&& after.starts[id].eid == ev.eid
            } else if own && ev.correlation_status != CorrelationStatus::OrphanTerminal {
                !after.starts.contains_key(id)
            } else {
                &&& after.starts.contains_key(id) <==> ledger.starts.contains_key(id)
                    && after.recent.contains((id.0, ledger.starts[id].eid))
                &&& after.starts.contains_key(id) ==> after.starts[id] == ledger.starts[id]
            }
        }),
{
    let after = with_event(ledger, ev);
    assert(after.recent[after.recent.len() - 1] == event_key(ev));
}

/// Nothing is measured without a start: a terminal whose transition, by epoch and
/// id, does not wait, that the producer marks as an orphan, or that came before its
/// start, leaves every cell and the active profile as they are; so does a start.
pub proof fn nothing_is_measured_without_a_start(ledger: LedgerView, ev: TransitionEvent)
    requires
        ev.phase == TransitionPhase::Start || ev.correlation_status
            == CorrelationStatus::OrphanTerminal || !ledger.starts.contains_key(
            (ev.epoch@, ev.transition_id),
        ) || ev.observed_at < ledger.starts[(ev.epoch@, ev.transition_id)].observed_at,
    ensures
        with_event(ledger, ev).cells == ledger.cells,
        with_event(ledger, ev).last_active_profile == ledger.last_active_profile,
{
}

/// A restart discards what is retained and what waits, and keeps every measured
/// cell and the active profile; any other disposition discards nothing.
pub proof fn restart_keeps_what_was_measured(ledger: LedgerView, disposition: FeedDisposition)
    ensures
        ({
            let after = ingested(ledger, disposition, Seq::empty());
            &&& after.cells == ledger.cells
            &&& after.last_active_profile == ledger.last_active_profile
            &&& after.max_recent_events == ledger.max_recent_events
            &&& after.sliding_window_size == ledger.sliding_window_size
            &&& if disposition == FeedDisposition::EpochReset {
                after.recent.len() == 0 && after.starts == Map::<(Seq<char>, i64), StartView>::empty()
            } else {
                after == ledger
            }
        }),
{
}

/// A page is taken in event by event, each in its turn.
pub proof fn pages_are_taken_in_order(
    ledger: LedgerView,
    disposition: FeedDisposition,
    events: Seq<TransitionEvent>,
    next: TransitionEvent,
)
    ensures
        ingested(ledger, disposition, events.push(next)) == with_event(
            ingested(ledger, disposition, events),
            next,
        ),
        new_events(opened(ledger, disposition), events.push(next), events.len() + 1)
            == new_events(opened(ledger, disposition), events, events.len()) + if ingested(
            ledger,
            disposition,
            events,
        ).recent.contains((next.epoch@, next.eid)) {
            0int
        } else {
            1int
        },
{
    same_prefix_same_ledger(opened(ledger, disposition), events, events.push(next), events.len());
}

proof fn same_prefix_same_ledger(
    ledger: LedgerView,
    a: Seq<TransitionEvent>,
    b: Seq<TransitionEvent>,
    n: nat,
)
    requires
        n <= a.len(),
        n <= b.len(),
        forall|i: int| 0 <= i < n ==> a[i] == b[i],
    ensures
        with_events(ledger, a, n) == with_events(ledger, b, n),
        new_events(ledger, a, n) == new_events(ledger, b, n),
    decreases n,
{
    if n > 0 {
        same_prefix_same_ledger(ledger, a, b, (n - 1) as nat);
    }
}

/// Without a persisted cursor a page continues, to its last event, or to the start
/// of its epoch where it has none.
pub proof fn first_page_sets_the_cursor(
    feed: TransitionFeed,
    r: (FeedDisposition, Option<TransitionCursor>),
)
    requires
        call_ensures(advance_cursor, (None, &feed), r),
    ensures
        r.0 == FeedDisposition::Continuation,
        r.1 is Some,
        r.1->0.producer_epoch@ == feed.producer_epoch@,
        feed.events@.len() > 0 ==> r.1->0.last_eid == feed.events@.last().eid,
        feed.events@.len() == 0 ==> r.1->0.last_eid == 0,
{
}

/// What each page does to a persisted cursor. A reset flag or another epoch resets
/// it to the start of the page's epoch. A cursor more than one below the oldest
/// event that is left has overflowed, and moves to the latest one without going
/// back. A first event that is not the next one is a gap, and the cursor stays.
/// Anything else continues: to the last event, or not at all where there is none.
pub proof fn later_pages_move_the_cursor(
    cursor: TransitionCursor,
    feed: TransitionFeed,
    r: (FeedDisposition, Option<TransitionCursor>),
)
    requires
        call_ensures(advance_cursor, (Some(&cursor), &feed), r),
    ensures
        r.1 is Some,
        r.1->0.producer_epoch@ == feed.producer_epoch@,
        r.0 == FeedDisposition::EpochReset <==> feed.epoch_reset || cursor.producer_epoch@
            != feed.producer_epoch@,
        r.0 == FeedDisposition::EpochReset ==> r.1->0.last_eid == 0,
        r.0 != FeedDisposition::EpochReset ==> (r.0 == FeedDisposition::Overflow
            <==> feed.oldest_available_eid is Some && cursor.last_eid + 1
            < feed.oldest_available_eid->0),
        r.0 == FeedDisposition::Overflow ==> r.1->0.last_eid >= cursor.last_eid,
        r.0 == FeedDisposition::Overflow && feed.latest_eid is Some && feed.latest_eid->0
            >= cursor.last_eid ==> r.1->0.last_eid == feed.latest_eid->0,
        r.0 == FeedDisposition::Overflow && feed.latest_eid is Some && feed.latest_eid->0
            < cursor.last_eid ==> r.1->0.last_eid == cursor.last_eid,
        r.0 == FeedDisposition::Overflow && feed.latest_eid is None ==> r.1->0.last_eid
            == feed.oldest_available_eid->0 - 1,
        r.0 == FeedDisposition::Gap ==> feed.events@.len() > 0 && feed.events@[0].eid
            != cursor.last_eid + 1 && r.1->0.last_eid == cursor.last_eid,
        r.0 == FeedDisposition::Continuation && feed.events@.len() > 0 ==> feed.events@[0].eid
            == cursor.last_eid + 1 && r.1->0.last_eid == feed.events@.last().eid,
        r.0 == FeedDisposition::Continuation && feed.events@.len() == 0 ==> r.1->0.last_eid
            == cursor.last_eid,
        feed.events@.len() == 0 ==> r.0 != FeedDisposition::Gap,
{
}

/// A healthy snapshot is usable for its time to live after the last successful
/// read, and not a second longer. A time to live beyond the signed numbers counts as
/// the signed number of the same bits, which is negative.
pub proof fn snapshot_lives_for_its_ttl(
    state: ComfyResourceState,
    observed_unix: i64,
    ttl_seconds: u64,
    r: bool,
)
    requires
        call_ensures(ComfyResourceState::healthy, (&state, observed_unix, ttl_seconds), r),
    ensures
        ({
            let known = state.source_health == ComfySourceHealth::Healthy && state.error is None
                && state.last_success_at is Some;
            let age = observed_unix - state.last_success_at->0;
            &&& ttl_seconds < i64::MAX ==> (r <==> known && age <= ttl_seconds)
            &&& ttl_seconds == i64::MAX ==> (r <==> known)
            &&& ttl_seconds > i64::MAX ==> (r <==> known && age <= ttl_seconds
                - 0x1_0000_0000_0000_0000)
        }),
{
}

/// Of the modes only idle is the sealed-idle boundary; any other, and none, counts
/// as busy of no particular class, as a source and as a target alike.
pub proof fn only_idle_is_sealed(
    mode: Option<ComfyMode>,
    source: ComfyProfileClass,
    target: ComfyProfileClass,
)
    requires
        call_ensures(ComfyProfileClass::from_source_mode, (mode,), source),
        call_ensures(ComfyProfileClass::from_target_mode, (mode,), target),
    ensures
        source == target,
        source == if mode == Some(ComfyMode::Idle) {
            ComfyProfileClass::SealedIdle
        } else {
            ComfyProfileClass::Generic
        },
{
}

/// Neither case nor surrounding white space matters in a class's name.
pub proof fn class_names_ignore_case_and_space(
    a: &str,
    b: &str,
    x: ComfyProfileClass,
    y: ComfyProfileClass,
)
    requires
        call_ensures(ComfyProfileClass::parse, (a,), x),
        call_ensures(ComfyProfileClass::parse, (b,), y),
        text::upper(text::trimmed(a@)) == text::upper(text::trimmed(b@)),
    ensures
        x == y,
{
}

/// The short names of the workload classes, and the other names of the boundary.
pub proof fn aliases_stand_for_their_classes(name: &str, class: ComfyProfileClass)
    requires
        call_ensures(ComfyProfileClass::parse, (name,), class),
    ensures
        ({
            let n = text::upper(text::trimmed(name@));
            &&& class == ComfyProfileClass::SealedIdle <==> n == "SEALED_IDLE"@ || n == "IDLE"@ || n
                == "NONE"@
            &&& class == ComfyProfileClass::WkZimageT2i <==> n == "WK_ZIMAGE_T2I"@ || n == "C1"@
            &&& class == ComfyProfileClass::WkBooguGen <==> n == "WK_BOOGU_GEN"@ || n == "C2"@
            &&& class == ComfyProfileClass::WkBooguEdit <==> n == "WK_BOOGU_EDIT"@ || n == "C3"@
            &&& class == ComfyProfileClass::Fast <==> n == "FAST"@
            &&& class == ComfyProfileClass::Long <==> n == "LONG"@
        }),
{
    reveal_strlit("SEALED_IDLE");
    reveal_strlit("IDLE");
    reveal_strlit("NONE");
    reveal_strlit("FAST");
    reveal_strlit("LONG");
    reveal_strlit("WK_ZIMAGE_T2I");
    reveal_strlit("C1");
    reveal_strlit("WK_BOOGU_GEN");
    reveal_strlit("C2");
    reveal_strlit("WK_BOOGU_EDIT");
    reveal_strlit("C3");
    assert("FAST"@[0] == 'F' && "LONG"@[0] == 'L' && "IDLE"@[0] == 'I' && "NONE"@[0] == 'N');
    assert("WK_ZIMAGE_T2I"@[3] == 'Z' && "WK_BOOGU_EDIT"@[3] == 'B');
    assert("SEALED_IDLE"@.len() == 11 && "WK_BOOGU_GEN"@.len() == 12);
    assert("WK_BOOGU_EDIT"@.len() == 13 && "WK_ZIMAGE_T2I"@.len() == 13);
    assert("C1"@[1] == '1' && "C2"@[1] == '2' && "C3"@[1] == '3');
    assert("C1"@.len() == 2 && "C2"@.len() == 2 && "C3"@.len() == 2);
    assert("FAST"@.len() == 4 && "LONG"@.len() == 4 && "IDLE"@.len() == 4 && "NONE"@.len() == 4);
}

/// Ingesting a start and its terminal measures the time between them: both are new,
/// and the newest sample of the cell of the terminal's modes is their distance.
pub proof fn ingested_transitions_are_measured(
    ledger: &mut ComfyTransitionLedger,
    feed: TransitionFeed,
    start: TransitionEvent,
    end: TransitionEvent,
    r: usize,
)
    requires
        call_ensures(
            ComfyTransitionLedger::ingest,
            (ledger, FeedDisposition::Continuation, &feed),
            r,
        ),
        within_limits(old(ledger)@),
        feed.events@ == seq![start, end],
        start.phase == TransitionPhase::Start,
        end.phase == TransitionPhase::Terminal,
        end.correlation_status != CorrelationStatus::OrphanTerminal,
        start.epoch@ == end.epoch@,
        start.transition_id == end.transition_id,
        start.eid != end.eid,
        start.observed_at <= end.observed_at,
        !old(ledger)@.recent.contains((start.epoch@, start.eid)),
        !old(ledger)@.recent.contains((end.epoch@, end.eid)),
    ensures
        r == 2,
        ({
            let cell = (
                if end.source_mode == Some(ComfyMode::Idle) {
                    ComfyProfileClass::SealedIdle
                } else {
                    ComfyProfileClass::Generic
                },
                if end.target_mode == Some(ComfyMode::Idle) {
                    ComfyProfileClass::SealedIdle
                } else {
                    ComfyProfileClass::Generic
                },
            );
            &&& final(ledger)@.cells.contains_key(cell)
            &&& final(ledger)@.cells[cell].len() > 0
            &&& final(ledger)@.cells[cell].last().runtime_ready_us == end.observed_at
                - start.observed_at
        }),
{
    start_and_terminal_measure_the_time_between(old(ledger)@, start, end);
}

/// A page that is ingested twice in a row, and fits beside what is retained, adds its
/// events once: the second time nothing is new and nothing changes.
pub proof fn pages_are_ingested_once(
    first: &mut ComfyTransitionLedger,
    second: &mut ComfyTransitionLedger,
    feed: TransitionFeed,
    a: usize,
    b: usize,
)
    requires
        call_ensures(
            ComfyTransitionLedger::ingest,
            (first, FeedDisposition::Continuation, &feed),
            a,
        ),
        call_ensures(
            ComfyTransitionLedger::ingest,
            (second, FeedDisposition::Continuation, &feed),
            b,
        ),
        old(second)@ == final(first)@,
        old(first)@.recent.len() + feed.events@.len() <= old(first)@.max_recent_events,
    ensures
        b == 0,
        final(second)@ == final(first)@,
{
    let ledger = old(first)@;
    fitting_page_is_retained(ledger, feed.events@, feed.events@.len());
    ingestion_is_idempotent(ledger, FeedDisposition::Continuation, feed.events@);
}

/// A parse error for a snapshot or feed payload.
#[derive(Debug)]
pub enum ComfyParseError {
    MissingField(&'static str),
    InvalidValue(&'static str, String),
    Json(String),
}

impl ComfyParseError {
    /// The text of the error.
    pub fn message(&self) -> (r: String)
        ensures
            r@ == (match *self {
                ComfyParseError::MissingField(field) => "missing field "@ + field@,
                ComfyParseError::InvalidValue(field, value) => "invalid value for "@ + field@
                    + ": "@ + value@,
                ComfyParseError::Json(error) => "malformed JSON: "@ + error@,
            }),
    {
        match self {
            ComfyParseError::MissingField(field) => {
                let mut message = text::copy_str("missing field ");
                message.append(field);
                message
            },
            ComfyParseError::InvalidValue(field, value) => {
                let mut message = text::join3("invalid value for ", field, ": ");
                message.append(value.as_str());
                message
            },
            ComfyParseError::Json(error) => {
                let mut message = text::copy_str("malformed JSON: ");
                message.append(error.as_str());
                message
            },
        }
    }
}

/// The texts of the parse errors.
pub proof fn parse_errors_are_told(error: ComfyParseError, r: String)
    requires
        call_ensures(ComfyParseError::message, (&error,), r),
    ensures
        error matches ComfyParseError::MissingField(name) ==> r@ == "missing field "@ + name@,
        error matches ComfyParseError::InvalidValue(name, value) ==> r@ == "invalid value for "@
            + name@ + ": "@ + value@,
        error matches ComfyParseError::Json(text) ==> r@ == "malformed JSON: "@ + text@,
{
}

/// An empty ledger has the limits that it was given, of which zero counts as one, and
/// holds nothing; any owner but the unknown one is an owner.
pub proof fn new_ledgers_are_empty(
    events: usize,
    window: usize,
    ledger: ComfyTransitionLedger,
    owner: ComfyOwner,
    owned: bool,
)
    requires
        call_ensures(ComfyTransitionLedger::with_limits, (events, window), ledger),
        call_ensures(ComfyOwner::is_owner, (owner,), owned),
    ensures
        ledger@.max_recent_events == if events == 0 {
            1
        } else {
            events as nat
        },
        ledger@.sliding_window_size == if window == 0 {
            1
        } else {
            window as nat
        },
        ledger@.recent.len() == 0,
        forall|key: CellKey| !(#[trigger] ledger@.cells.contains_key(key)),
        forall|id: (Seq<char>, i64)| !(#[trigger] ledger@.starts.contains_key(id)),
        ledger@.last_active_profile is None,
        owned <==> owner == ComfyOwner::Comfy || owner == ComfyOwner::Unsloth || owner
            == ComfyOwner::Conflict,
{
}

} // verus!
