//! Hardware-resource intake: cursor, ledger, freshness and cache.
use std::sync::Arc;

use switchyard::comfy::{
    advance_cursor, ComfyMode, ComfyOwner, ComfyParseError, ComfyProfileClass, ComfyResourceState,
    ComfySnapshotCache, ComfySnapshotState, ComfySourceHealth, ComfyTransitionLedger,
    CorrelationStatus, CorrelationTable, FeedDisposition, TransitionCellStats, TransitionCursor,
    TransitionEvent, TransitionFeed, TransitionPhase, TransitionResult,
};

fn micros(seconds: f64) -> i64 {
    (seconds * 1_000_000.0) as i64
}

/// Build a START event for transition `tid` in `epoch` at `eid`, from
/// `source` mode toward `target` mode, observed at `observed`.
fn start_event(
    epoch: &str,
    eid: i64,
    tid: i64,
    source: Option<ComfyMode>,
    target: Option<ComfyMode>,
    observed: f64,
) -> TransitionEvent {
    TransitionEvent {
        rid: format!("shell-{tid}"),
        epoch: epoch.to_string(),
        eid,
        transition_id: tid,
        transition_start_known: true,
        correlation_status: CorrelationStatus::Matched,
        command: "activate:comfy".into(),
        source_mode: source,
        target_mode: target,
        source_profile: None,
        target_profile: None,
        phase: TransitionPhase::Start,
        result: Some(TransitionResult::Pending),
        underlying_rc: None,
        observed_at: micros(observed),
        ingested_at: micros(observed),
    }
}

/// Build a TERMINAL event for transition `tid` in `epoch` at `eid`
/// observed at `observed`.
fn terminal_event(
    epoch: &str,
    eid: i64,
    tid: i64,
    source: Option<ComfyMode>,
    target: Option<ComfyMode>,
    observed: f64,
) -> TransitionEvent {
    TransitionEvent {
        rid: format!("shell-{tid}"),
        epoch: epoch.to_string(),
        eid,
        transition_id: tid,
        transition_start_known: false,
        correlation_status: CorrelationStatus::Matched,
        command: "activate:comfy".into(),
        source_mode: source,
        target_mode: target,
        source_profile: None,
        target_profile: None,
        phase: TransitionPhase::Terminal,
        result: Some(TransitionResult::Succeeded),
        underlying_rc: Some(0),
        observed_at: micros(observed),
        ingested_at: micros(observed),
    }
}

struct FeedBuilder {
    epoch: String,
    oldest: Option<i64>,
    latest: Option<i64>,
    epoch_reset: bool,
    gap: bool,
    overflow: bool,
    events: Vec<TransitionEvent>,
}

impl FeedBuilder {
    fn new(epoch: &str) -> Self {
        Self {
            epoch: epoch.into(),
            oldest: None,
            latest: None,
            epoch_reset: false,
            gap: false,
            overflow: false,
            events: Vec::new(),
        }
    }
    fn push(mut self, ev: TransitionEvent) -> Self {
        let eid = ev.eid;
        self.events.push(ev);
        self.latest = Some(self.latest.map_or(eid, |l| l.max(eid)));
        if self.oldest.is_none() {
            self.oldest = Some(eid);
        } else {
            self.oldest = Some(self.oldest.unwrap().min(eid));
        }
        self
    }
    fn epoch_reset(mut self) -> Self {
        self.epoch_reset = true;
        self
    }
    fn overflow_oldest(mut self, oldest: i64) -> Self {
        self.oldest = Some(oldest);
        self
    }
    fn build(self) -> TransitionFeed {
        TransitionFeed {
            producer_epoch: self.epoch,
            oldest_available_eid: self.oldest,
            latest_eid: self.latest,
            epoch_reset: self.epoch_reset,
            gap: self.gap,
            overflow: self.overflow,
            events: self.events,
        }
    }
}

/// A single completed transition (START eid n, TERMINAL eid n+1) in epoch "e0"
/// sealing into idle, with a derived runtime duration of 1000ms.
fn sealed_idle_transition(tid: i64) -> Vec<TransitionEvent> {
    vec![
        start_event(
            "e0",
            tid * 2 + 1,
            tid,
            Some(ComfyMode::Idle),
            Some(ComfyMode::Comfy),
            1000.0,
        ),
        terminal_event(
            "e0",
            tid * 2 + 2,
            tid,
            Some(ComfyMode::Comfy),
            Some(ComfyMode::Idle),
            1001.0,
        ),
    ]
}

fn feed_from_events(events: Vec<TransitionEvent>) -> TransitionFeed {
    let mut b = FeedBuilder::new("e0");
    for ev in events {
        b = b.push(ev);
    }
    b.build()
}

#[test]
fn normal_ingestion_derives_duration_in_sealed_cell() {
    let mut ledger = ComfyTransitionLedger::default();
    let feed = feed_from_events(sealed_idle_transition(1));
    let added = ledger.ingest(FeedDisposition::Continuation, &feed);
    assert_eq!(added, 2, "start+terminal both ingested");
    assert_eq!(ledger.recent_event_count(), 2);
    let stats = ledger.cell_stats(ComfyProfileClass::Generic, ComfyProfileClass::SealedIdle);
    assert_eq!(stats.sample_n, 1);
    assert_eq!(stats.median_us, Some(1_000_000));
    assert_eq!(ledger.last_active_profile(), None);
}

#[test]
fn normal_ingestion_active_target_sets_last_active_profile() {
    let mut ledger = ComfyTransitionLedger::default();
    let feed = feed_from_events(vec![
        start_event(
            "e0",
            1,
            1,
            Some(ComfyMode::Idle),
            Some(ComfyMode::Comfy),
            1000.0,
        ),
        terminal_event(
            "e0",
            2,
            1,
            Some(ComfyMode::Comfy),
            Some(ComfyMode::Comfy),
            1001.0,
        ),
    ]);
    ledger.ingest(FeedDisposition::Continuation, &feed);
    assert_eq!(
        ledger.last_active_profile(),
        Some(ComfyProfileClass::Generic)
    );
}

#[test]
fn duplicate_events_are_idempotent() {
    let mut ledger = ComfyTransitionLedger::default();
    let feed = feed_from_events(sealed_idle_transition(1));
    let first = ledger.ingest(FeedDisposition::Continuation, &feed);
    assert_eq!(first, 2);
    let second = ledger.ingest(FeedDisposition::Continuation, &feed);
    assert_eq!(second, 0, "duplicate events must not be re-appended");
    assert_eq!(ledger.recent_event_count(), 2);
    let stats = ledger.cell_stats(ComfyProfileClass::Generic, ComfyProfileClass::SealedIdle);
    assert_eq!(stats.sample_n, 1, "duration must not double-count on dup");
}

#[test]
fn duplicate_feed_with_cursor_advance_is_noop() {
    let mut ledger = ComfyTransitionLedger::default();
    let feed = feed_from_events(sealed_idle_transition(1));
    let (disp, _) = advance_cursor(None, &feed);
    ledger.ingest(disp, &feed);
    let (disp2, _) = advance_cursor(Some(&TransitionCursor::fresh("e0")), &feed);
    let added = ledger.ingest(disp2, &feed);
    assert_eq!(added, 0);
}

#[test]
fn cursor_continuation_advances_to_latest() {
    let mut b = FeedBuilder::new("e0").overflow_oldest(1);
    for ev in sealed_idle_transition(1) {
        b = b.push(ev);
    }
    let feed = b.build();
    let persisted = TransitionCursor {
        producer_epoch: "e0".into(),
        last_eid: 2,
    };
    let (disp, next) = advance_cursor(Some(&persisted), &feed);
    assert_eq!(disp, FeedDisposition::Continuation);
    let next = next.expect("cursor advances");
    assert_eq!(next.last_eid, 4);
    assert_eq!(next.producer_epoch, "e0");
}

#[test]
fn cursor_fresh_start_none_is_continuation_not_epoch_reset() {
    let mut b = FeedBuilder::new("e0").overflow_oldest(1);
    for ev in sealed_idle_transition(1) {
        b = b.push(ev);
    }
    let feed = b.build();
    let (disp, next) = advance_cursor(None, &feed);
    assert_eq!(
        disp,
        FeedDisposition::Continuation,
        "fresh start is a continuation, not epoch reset"
    );
    let next = next.expect("fresh cursor advances");
    assert_eq!(next.last_eid, 4);
    assert_eq!(next.producer_epoch, "e0");
}

#[test]
fn cursor_continuation_empty_page_no_advance() {
    let feed = FeedBuilder::new("e0").build();
    let persisted = TransitionCursor {
        producer_epoch: "e0".into(),
        last_eid: 5,
    };
    let (disp, next) = advance_cursor(Some(&persisted), &feed);
    assert_eq!(disp, FeedDisposition::Continuation);
    assert_eq!(next.unwrap().last_eid, 5);
    assert_eq!(feed.events.len(), 0);
}

#[test]
fn cursor_gap_detects_missing_eid() {
    let feed = FeedBuilder::new("e0")
        .overflow_oldest(1)
        .push(start_event(
            "e0",
            8,
            2,
            Some(ComfyMode::Idle),
            Some(ComfyMode::Comfy),
            2000.0,
        ))
        .build();
    let persisted = TransitionCursor {
        producer_epoch: "e0".into(),
        last_eid: 3,
    };
    let (disp, next) = advance_cursor(Some(&persisted), &feed);
    assert_eq!(disp, FeedDisposition::Gap);
    assert_eq!(next.unwrap().last_eid, 3);
}

#[test]
fn gap_ingest_does_not_fabricate_duration() {
    let mut ledger = ComfyTransitionLedger::default();
    let feed = feed_from_events(vec![terminal_event(
        "e0",
        9,
        99,
        Some(ComfyMode::Comfy),
        Some(ComfyMode::Idle),
        3000.0,
    )]);
    ledger.ingest(FeedDisposition::Gap, &feed);
    assert_eq!(ledger.recent_event_count(), 1);
    let stats = ledger.cell_stats(ComfyProfileClass::Generic, ComfyProfileClass::SealedIdle);
    assert_eq!(
        stats.sample_n, 0,
        "orphan terminal must not fabricate a duration"
    );
}

#[test]
fn epoch_reset_resets_cursor_and_clears_recent() {
    let mut ledger = ComfyTransitionLedger::default();
    ledger.ingest(
        FeedDisposition::Continuation,
        &feed_from_events(sealed_idle_transition(1)),
    );
    assert_eq!(ledger.recent_event_count(), 2);

    let new_feed = FeedBuilder::new("e1")
        .epoch_reset()
        .push(start_event(
            "e1",
            1,
            1,
            Some(ComfyMode::Idle),
            Some(ComfyMode::Studio),
            5000.0,
        ))
        .push(terminal_event(
            "e1",
            2,
            1,
            Some(ComfyMode::Studio),
            Some(ComfyMode::Comfy),
            5001.0,
        ))
        .build();
    let (disp, cursor) = advance_cursor(
        Some(&TransitionCursor {
            producer_epoch: "e0".into(),
            last_eid: 2,
        }),
        &new_feed,
    );
    assert_eq!(disp, FeedDisposition::EpochReset);
    assert_eq!(cursor.unwrap().producer_epoch, "e1");

    let added = ledger.ingest(disp, &new_feed);
    assert_eq!(ledger.recent_event_count(), 2);
    assert_eq!(added, 2);
}

#[test]
fn epoch_reset_clears_correlation_cross_epoch_orphan() {
    let mut ledger = ComfyTransitionLedger::default();
    ledger.ingest(
        FeedDisposition::Continuation,
        &feed_from_events(vec![start_event(
            "e0",
            1,
            1,
            Some(ComfyMode::Idle),
            Some(ComfyMode::Comfy),
            1000.0,
        )]),
    );
    let new_feed = FeedBuilder::new("e1")
        .epoch_reset()
        .push(terminal_event(
            "e1",
            1,
            1,
            Some(ComfyMode::Comfy),
            Some(ComfyMode::Comfy),
            2000.0,
        ))
        .build();
    let (disp, _) = advance_cursor(
        Some(&TransitionCursor {
            producer_epoch: "e0".into(),
            last_eid: 1,
        }),
        &new_feed,
    );
    assert_eq!(disp, FeedDisposition::EpochReset);
    ledger.ingest(disp, &new_feed);
    let stats = ledger.cell_stats(ComfyProfileClass::Generic, ComfyProfileClass::Generic);
    assert_eq!(
        stats.sample_n, 0,
        "cross-epoch start must not satisfy a terminal"
    );
}

#[test]
fn unavailable_fails_closed() {
    let s = ComfyResourceState::unavailable_error("connect failed".into());
    assert_eq!(s.source_health, ComfySourceHealth::Unavailable);
    assert!(!s.healthy(1_000_100, 30));
}

#[test]
fn stale_fails_closed() {
    let s = ComfyResourceState {
        producer_epoch: "e".into(),
        state_generation: 1,
        state_fingerprint: "fp".into(),
        state: ComfySnapshotState::default(),
        source_health: ComfySourceHealth::Healthy,
        last_success_at: Some(1_000_000),
        error: None,
    };
    assert!(!s.healthy(1_003_600, 30));
    assert!(s.healthy(1_000_010, 30));
}

#[test]
fn never_read_fails_closed() {
    let s = ComfyResourceState {
        producer_epoch: "e".into(),
        state_generation: 0,
        state_fingerprint: String::new(),
        state: ComfySnapshotState::default(),
        source_health: ComfySourceHealth::Healthy,
        last_success_at: None,
        error: None,
    };
    assert!(!s.healthy(1_000_000, 30));
}

#[test]
fn recent_event_window_bounded() {
    let mut ledger = ComfyTransitionLedger::with_limits(4, 64);
    let events = sealed_idle_transition(1)
        .into_iter()
        .chain(sealed_idle_transition(2).into_iter())
        .chain(sealed_idle_transition(3).into_iter());
    let feed = feed_from_events(events.collect());
    ledger.ingest(FeedDisposition::Continuation, &feed);
    assert!(
        ledger.recent_event_count() <= 4,
        "retained window must be bounded"
    );
}

#[test]
fn sliding_window_per_cell_bounded() {
    let mut ledger = ComfyTransitionLedger::with_limits(4096, 2);
    for tid in 1..=3 {
        let feed = feed_from_events(sealed_idle_transition(tid));
        ledger.ingest(FeedDisposition::Continuation, &feed);
    }
    let stats = ledger.cell_stats(ComfyProfileClass::Generic, ComfyProfileClass::SealedIdle);
    assert_eq!(stats.sample_n, 2, "sliding window caps at 2");
}

#[test]
fn overflow_disposition_detected() {
    let feed = FeedBuilder::new("e0")
        .overflow_oldest(10)
        .push(start_event(
            "e0",
            11,
            5,
            Some(ComfyMode::Idle),
            Some(ComfyMode::Comfy),
            1000.0,
        ))
        .build();
    let persisted = TransitionCursor {
        producer_epoch: "e0".into(),
        last_eid: 1,
    };
    let (disp, _) = advance_cursor(Some(&persisted), &feed);
    assert_eq!(disp, FeedDisposition::Overflow);
}

#[test]
fn boundary_cursor_not_overflow() {
    let feed = FeedBuilder::new("e0")
        .overflow_oldest(10)
        .push(start_event(
            "e0",
            10,
            5,
            Some(ComfyMode::Idle),
            Some(ComfyMode::Comfy),
            1000.0,
        ))
        .build();
    let persisted = TransitionCursor {
        producer_epoch: "e0".into(),
        last_eid: 9,
    };
    let (disp, _) = advance_cursor(Some(&persisted), &feed);
    assert_eq!(disp, FeedDisposition::Continuation);
}

#[test]
fn restart_semantics_clear_recent_retain_bounded() {
    let mut ledger = ComfyTransitionLedger::default();
    ledger.ingest(
        FeedDisposition::Continuation,
        &feed_from_events(sealed_idle_transition(1)),
    );
    ledger.ingest(
        FeedDisposition::Continuation,
        &feed_from_events(sealed_idle_transition(2)),
    );
    assert_eq!(ledger.recent_event_count(), 4);

    let new_feed = FeedBuilder::new("e1")
        .epoch_reset()
        .push(start_event(
            "e1",
            1,
            1,
            Some(ComfyMode::Idle),
            Some(ComfyMode::Comfy),
            9000.0,
        ))
        .push(terminal_event(
            "e1",
            2,
            1,
            Some(ComfyMode::Comfy),
            Some(ComfyMode::Idle),
            9001.0,
        ))
        .build();
    let (disp, _) = advance_cursor(
        Some(&TransitionCursor {
            producer_epoch: "e0".into(),
            last_eid: 4,
        }),
        &new_feed,
    );
    assert_eq!(disp, FeedDisposition::EpochReset);
    ledger.ingest(disp, &new_feed);
    assert_eq!(
        ledger.recent_event_count(),
        2,
        "old epoch events must be discarded on restart"
    );
}

fn fetched(n: i64) -> ComfyResourceState {
    ComfyResourceState {
        producer_epoch: format!("e{n}"),
        state_generation: n,
        state_fingerprint: format!("fp{n}"),
        state: ComfySnapshotState::default(),
        source_health: ComfySourceHealth::Healthy,
        last_success_at: Some(1_000_000),
        error: None,
    }
}

#[test]
fn ttl_serves_cached_then_refetches() {
    let ms = 1_000_000u128;
    let mut cache = ComfySnapshotCache::new(200 * ms);
    assert_eq!(cache.ttl(), 200 * ms);
    assert!(cache.cached(0).is_none());
    let s1 = cache.fetched(10 * ms, Ok(fetched(1))).unwrap();
    assert_eq!(s1.state_generation, 1);
    let s2 = cache.cached(209 * ms).unwrap();
    assert_eq!(s2.state_generation, 1);
    assert!(Arc::ptr_eq(&s1, &s2));
    assert!(cache.cached(210 * ms).is_none());
    assert!(cache.cached(260 * ms).is_none());
    assert_eq!(
        cache
            .fetched(260 * ms, Err("down".to_string()))
            .unwrap_err(),
        "down"
    );
    assert_eq!(cache.cached(11 * ms).unwrap().state_generation, 1);
    let s3 = cache.fetched(260 * ms, Ok(fetched(2))).unwrap();
    assert_eq!(s3.state_generation, 2);
    assert_eq!(cache.cached(261 * ms).unwrap().state_generation, 2);
}

#[test]
fn a_failed_read_is_no_authority() {
    let failed = ComfyResourceState {
        error: Some("connect failed".to_string()),
        ..fetched(1)
    };
    assert!(fetched(1).healthy(1_000_010, 30));
    assert!(!failed.healthy(1_000_010, 30));
}

#[test]
fn a_start_is_forgotten_with_its_event() {
    let generic = ComfyProfileClass::Generic;
    let page = |event| feed_from_events(vec![event]);
    let run = |window| {
        let mut ledger = ComfyTransitionLedger::with_limits(window, 64);
        for event in [
            start_event("e0", 1, 1, None, None, 1.0),
            start_event("e0", 2, 2, None, None, 2.0),
            terminal_event("e0", 3, 2, None, None, 3.0),
            terminal_event("e0", 4, 1, None, None, 4.0),
        ] {
            ledger.ingest(FeedDisposition::Continuation, &page(event));
        }
        ledger.cell_stats(generic, generic)
    };
    assert_eq!(run(3).sample_n, 2);
    assert_eq!(run(2).sample_n, 1, "the first start left with its event");
    assert_eq!(run(2).median_us, Some(1_000_000));
    assert_eq!(run(1).sample_n, 1);
    let mut table = CorrelationTable::new();
    table.feed(&start_event("e0", 1, 1, None, None, 1.0));
    table.feed(&start_event("e0", 2, 2, None, None, 1.0));
    table.forget("e0", 1);
    table.forget("e1", 2);
    assert!(table.feed(&terminal_event("e0", 3, 1, None, None, 3.0)).is_none());
    assert!(table.feed(&terminal_event("e0", 4, 2, None, None, 3.0)).is_some());
}

#[test]
fn ttl_beyond_the_signed_range_is_negative() {
    let s = fetched(1);
    assert!(!s.healthy(1_000_000, u64::MAX));
    assert!(s.healthy(1_000_000, i64::MAX as u64));
    let ancient = ComfyResourceState {
        last_success_at: Some(i64::MIN),
        ..fetched(1)
    };
    assert!(ancient.healthy(i64::MAX, i64::MAX as u64));
    assert!(!ancient.healthy(i64::MAX, 30));
}

#[test]
fn class_names_are_read_back() {
    for class in [
        ComfyProfileClass::SealedIdle,
        ComfyProfileClass::Fast,
        ComfyProfileClass::Long,
        ComfyProfileClass::WkZimageT2i,
        ComfyProfileClass::WkBooguGen,
        ComfyProfileClass::WkBooguEdit,
        ComfyProfileClass::Generic,
    ] {
        assert_eq!(class.as_str().parse::<ComfyProfileClass>(), Ok(class));
    }
    assert_eq!(
        ComfyProfileClass::parse(" idle\t"),
        ComfyProfileClass::SealedIdle
    );
    assert_eq!(ComfyProfileClass::parse("c2"), ComfyProfileClass::WkBooguGen);
    assert_eq!(ComfyProfileClass::parse("other"), ComfyProfileClass::Generic);
    assert_eq!(ComfyProfileClass::SealedIdle.as_str(), "sealed_idle");
}

#[test]
fn only_concrete_owners_own() {
    assert!(ComfyOwner::Comfy.is_owner());
    assert!(ComfyOwner::Unsloth.is_owner());
    assert!(ComfyOwner::Conflict.is_owner());
    assert!(!ComfyOwner::Unknown.is_owner());
}

#[test]
fn correlation_needs_a_start_and_uses_it_up() {
    let idle = Some(ComfyMode::Idle);
    let comfy = Some(ComfyMode::Comfy);
    let mut table = CorrelationTable::new();
    assert_eq!(table.feed(&start_event("e0", 1, 7, idle, comfy, 10.0)), None);
    let mut orphan = terminal_event("e0", 2, 7, comfy, idle, 11.0);
    orphan.correlation_status = CorrelationStatus::OrphanTerminal;
    assert_eq!(table.feed(&orphan), None);
    assert_eq!(
        table.feed(&terminal_event("e1", 2, 7, comfy, idle, 11.0)),
        None
    );
    assert_eq!(
        table.feed(&terminal_event("e0", 2, 7, comfy, idle, 11.5)),
        Some((
            ComfyProfileClass::Generic,
            ComfyProfileClass::SealedIdle,
            1_500_000
        ))
    );
    assert_eq!(
        table.feed(&terminal_event("e0", 3, 7, comfy, idle, 12.0)),
        None
    );
    table.feed(&start_event("e0", 4, 8, idle, comfy, 20.0));
    table.feed(&start_event("e0", 5, 8, idle, comfy, 22.0));
    assert_eq!(
        table.feed(&terminal_event("e0", 6, 8, comfy, idle, 21.0)),
        None,
        "a terminal before its start is not measurable"
    );
}

#[test]
fn cell_stats_take_the_lower_median_and_the_extremes() {
    let mut ledger = ComfyTransitionLedger::with_limits(100, 64);
    for (tid, seconds) in [(1, 4.0), (2, 1.0), (3, 3.0), (4, 2.0)] {
        let events = vec![
            start_event("e0", tid * 2, tid, None, None, 100.0),
            terminal_event("e0", tid * 2 + 1, tid, None, None, 100.0 + seconds),
        ];
        ledger.ingest(FeedDisposition::Continuation, &feed_from_events(events));
    }
    let generic = ComfyProfileClass::Generic;
    let stats = ledger.cell_stats(generic, generic);
    assert_eq!(
        stats,
        TransitionCellStats {
            sample_n: 4,
            median_us: Some(2_000_000),
            observed_min_us: Some(1_000_000),
            observed_max_us: Some(4_000_000),
        }
    );
    let samples = ledger.cell(generic, generic).unwrap();
    assert_eq!(samples.len(), 4);
    assert_eq!(samples[0].runtime_ready_us, 4_000_000);
    assert_eq!(samples[3].transition_id, 4);
    assert!(ledger.cell(generic, ComfyProfileClass::Fast).is_none());
    assert_eq!(
        ledger.cell_stats(generic, ComfyProfileClass::Fast),
        TransitionCellStats::default()
    );
}

#[test]
fn an_event_pushed_out_of_the_window_is_new_again() {
    let mut ledger = ComfyTransitionLedger::with_limits(2, 64);
    let first = start_event("e0", 1, 1, None, None, 1.0);
    let page = |events: Vec<TransitionEvent>| feed_from_events(events);
    assert_eq!(
        ledger.ingest(FeedDisposition::Continuation, &page(vec![first.clone()])),
        1
    );
    let more = vec![
        start_event("e0", 2, 2, None, None, 1.0),
        start_event("e0", 3, 3, None, None, 1.0),
    ];
    assert_eq!(ledger.ingest(FeedDisposition::Continuation, &page(more.clone())), 2);
    assert_eq!(ledger.ingest(FeedDisposition::Continuation, &page(more)), 0);
    assert_eq!(
        ledger.ingest(FeedDisposition::Continuation, &page(vec![first])),
        1
    );
    assert_eq!(ledger.recent_event_count(), 2);
}

#[test]
fn overflow_advances_to_the_leading_edge() {
    let at = |last_eid| TransitionCursor {
        producer_epoch: "e0".to_string(),
        last_eid,
    };
    let mut feed = FeedBuilder::new("e0").overflow_oldest(10).build();
    let (disp, next) = advance_cursor(Some(&at(3)), &feed);
    assert_eq!((disp, next), (FeedDisposition::Overflow, Some(at(9))));
    feed.latest_eid = Some(20);
    assert_eq!(
        advance_cursor(Some(&at(3)), &feed),
        (FeedDisposition::Overflow, Some(at(20)))
    );
    feed.latest_eid = Some(1);
    assert_eq!(
        advance_cursor(Some(&at(3)), &feed),
        (FeedDisposition::Overflow, Some(at(3)))
    );
    feed.oldest_available_eid = Some(i64::MIN);
    assert_eq!(
        advance_cursor(Some(&at(i64::MAX)), &feed).0,
        FeedDisposition::Continuation
    );
    feed.events = vec![start_event("e0", 5, 1, None, None, 1.0)];
    assert_eq!(
        advance_cursor(Some(&at(i64::MAX)), &feed),
        (FeedDisposition::Gap, Some(at(i64::MAX)))
    );
    assert_eq!(
        advance_cursor(Some(&TransitionCursor::fresh("e9")), &feed),
        (FeedDisposition::EpochReset, Some(TransitionCursor::fresh("e0")))
    );
}

#[test]
fn parse_errors_have_their_texts() {
    assert_eq!(
        ComfyParseError::MissingField("eid").message(),
        "missing field eid"
    );
    assert_eq!(
        ComfyParseError::InvalidValue("mode", "x".to_string()).message(),
        "invalid value for mode: x"
    );
    assert_eq!(
        ComfyParseError::Json("eof".to_string()).message(),
        "malformed JSON: eof"
    );
}
