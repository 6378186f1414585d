use std::sync::Arc;
use venom_domain::operations::{
    query_system_events, SystemEvent, SystemEventCategory, SystemEventKind, SystemEventQueryIndex,
    SystemEventRecentWindows, SystemEventWindowTotals, SystemEventsQuery,
    DEFAULT_SYSTEM_EVENTS_LIMIT, MAX_SYSTEM_EVENTS_LIMIT,
};

fn event(event_id: &str, kind: SystemEventKind) -> SystemEvent {
    SystemEvent {
        event_id: event_id.into(),
        occurred_at_unix_ms: 1,
        kind,
        collection_key: None,
        component_key: None,
        command_id: None,
        integration_event_id: None,
        finding_count: None,
        retryable: None,
        detail: None,
    }
}

fn timed_event(event_id: &str, occurred_at_unix_ms: u64, kind: SystemEventKind) -> SystemEvent {
    SystemEvent {
        event_id: event_id.into(),
        occurred_at_unix_ms,
        kind,
        collection_key: None,
        component_key: None,
        command_id: None,
        integration_event_id: None,
        finding_count: None,
        retryable: None,
        detail: None,
    }
}

#[test]
fn system_events_query_reports_total_matches_not_only_returned_events() {
    let events = [
        event("event-001", SystemEventKind::ScanCommandCompleted),
        event("event-002", SystemEventKind::ScanCommandCompleted),
        event("event-003", SystemEventKind::ScanCommandCompleted),
    ];

    let page = query_system_events(&events, &SystemEventsQuery::new().with_limit(2));

    assert_eq!(page.total, 3);
    assert_eq!(page.returned, 2);
    assert_eq!(page.limit, 2);
    assert_eq!(page.events.len(), 2);
}

#[test]
fn system_events_query_counts_filtered_matches_before_truncation() {
    let events = [
        event("event-001", SystemEventKind::FindingRiskAccepted),
        event("event-002", SystemEventKind::FindingSuppressed),
        event("event-003", SystemEventKind::ScanCommandCompleted),
    ];

    let page = query_system_events(
        &events,
        &SystemEventsQuery::new()
            .with_category(SystemEventCategory::Governance)
            .with_limit(1),
    );

    assert_eq!(page.total, 2);
    assert_eq!(page.returned, 1);
    assert_eq!(page.events[0].category(), SystemEventCategory::Governance);
}

#[test]
fn system_events_query_normalizes_large_limits() {
    let page = query_system_events(
        &[event("event-001", SystemEventKind::ScanCommandCompleted)],
        &SystemEventsQuery::new().with_limit(MAX_SYSTEM_EVENTS_LIMIT + 500),
    );

    assert_eq!(page.limit, MAX_SYSTEM_EVENTS_LIMIT);
    assert_eq!(page.total, 1);
    assert_eq!(page.returned, 1);
}

#[test]
fn system_events_query_uses_default_limit() {
    let query = SystemEventsQuery::new();
    assert_eq!(query.normalized_limit(), DEFAULT_SYSTEM_EVENTS_LIMIT);
}

#[test]
fn system_events_query_raises_a_zero_limit_to_one() {
    let events = [
        event("event-001", SystemEventKind::ScanCommandCompleted),
        event("event-002", SystemEventKind::ScanCommandFailed),
    ];
    let page = query_system_events(&events, &SystemEventsQuery::default().with_limit(0));
    assert_eq!(page.limit, 1);
    assert_eq!(page.returned, 1);
    assert_eq!(page.total, 2);
    assert_eq!(page.events[0].event_id, "event-001");
}

#[test]
fn merged_index_keeps_recent_order_without_query_rebuilds() {
    let left = SystemEventQueryIndex::from_newest_first(&[
        timed_event("event-001", 1, SystemEventKind::FindingRiskAccepted),
        timed_event("event-003", 3, SystemEventKind::ScanCommandCompleted),
    ]);
    let right = SystemEventQueryIndex::from_newest_first(&[
        timed_event("event-002", 2, SystemEventKind::FindingSuppressed),
        timed_event("event-004", 4, SystemEventKind::IntegrationEventPublished),
    ]);

    let merged = SystemEventQueryIndex::merged(&left, &right);
    let page = merged.query(&SystemEventsQuery::new().with_limit(4));

    let ordered_ids = page
        .events
        .iter()
        .map(|event| event.event_id.as_str())
        .collect::<Vec<_>>();
    assert_eq!(
        ordered_ids,
        vec!["event-004", "event-003", "event-002", "event-001"]
    );
    assert_eq!(page.total, 4);
}

#[test]
fn category_query_uses_category_recent_window_not_only_global_recent_window() {
    let index = SystemEventQueryIndex::from_recent_windows(
        SystemEventWindowTotals {
            total: 201,
            scheduler_total: 1,
            command_total: 200,
            governance_total: 0,
            publication_total: 0,
        },
        SystemEventRecentWindows {
            recent_events: (0..MAX_SYSTEM_EVENTS_LIMIT)
                .map(|index| {
                    Arc::new(timed_event(
                        &format!("command-{index:03}"),
                        1_000 + u64::try_from(index).expect("index should fit"),
                        SystemEventKind::ScanCommandCompleted,
                    ))
                })
                .collect(),
            recent_scheduler_events: vec![Arc::new(timed_event(
                "scheduler-001",
                999,
                SystemEventKind::CollectionScanMaterialized,
            ))],
            recent_command_events: Vec::new(),
            recent_governance_events: Vec::new(),
            recent_publication_events: Vec::new(),
        },
    );

    let page = index.query(
        &SystemEventsQuery::new()
            .with_category(SystemEventCategory::Scheduler)
            .with_limit(5),
    );

    assert_eq!(page.total, 1);
    assert_eq!(page.returned, 1);
    assert_eq!(page.events[0].event_id.as_str(), "scheduler-001");
}

#[test]
fn system_event_query_index_keeps_truthful_recent_category_pages_without_category_slot_topology() {
    category_query_uses_category_recent_window_not_only_global_recent_window();
}

#[test]
fn pushing_a_retained_event_again_changes_nothing() {
    let mut index = SystemEventQueryIndex::new();
    index.push_newest(timed_event("a", 1, SystemEventKind::ScanCommandEnqueued));
    index.push_newest(timed_event("a", 2, SystemEventKind::ScanCommandFailed));
    let totals = index.window_totals();
    assert_eq!(totals.total, 1);
    assert_eq!(totals.command_total, 1);
    let page = index.query(&SystemEventsQuery::new());
    assert_eq!(page.events[0].kind, SystemEventKind::ScanCommandEnqueued);
}

#[test]
fn retained_window_keeps_newest_events_overall_and_by_category() {
    let mut index = SystemEventQueryIndex::default();
    index.push_newest(timed_event("old-scheduler", 0, SystemEventKind::CollectionScanMaterialized));
    for i in 0..(MAX_SYSTEM_EVENTS_LIMIT + 10) {
        index.push_newest(timed_event(
            &format!("command-{i:04}"),
            1 + i as u64,
            SystemEventKind::ScanCommandCompleted,
        ));
    }
    let all = index.query(&SystemEventsQuery::new().with_limit(MAX_SYSTEM_EVENTS_LIMIT));
    assert_eq!(all.total, MAX_SYSTEM_EVENTS_LIMIT + 11);
    assert_eq!(all.returned, MAX_SYSTEM_EVENTS_LIMIT);
    assert_eq!(all.events[0].event_id, format!("command-{:04}", MAX_SYSTEM_EVENTS_LIMIT + 9));
    let scheduler = index.query(
        &SystemEventsQuery::new().with_category(SystemEventCategory::Scheduler),
    );
    assert_eq!(scheduler.total, 1);
    assert_eq!(scheduler.returned, 1);
    let windows = index.recent_windows();
    assert_eq!(windows.recent_events.len(), MAX_SYSTEM_EVENTS_LIMIT);
    assert_eq!(windows.recent_command_events.len(), MAX_SYSTEM_EVENTS_LIMIT);
    assert_eq!(windows.recent_scheduler_events.len(), 1);
    assert!(windows.recent_publication_events.is_empty());
}

#[test]
fn delta_since_keeps_only_newer_events() {
    let mut base = SystemEventQueryIndex::new();
    base.push_newest(timed_event("a", 1, SystemEventKind::FindingReopened));
    let mut current = base.clone();
    current.push_newest(timed_event("b", 2, SystemEventKind::FindingsReopened));
    current.push_newest(timed_event("c", 3, SystemEventKind::IntegrationEventPublicationFailed));

    let delta = current.delta_since(&base).expect("base is older state");
    let totals = delta.window_totals();
    assert_eq!(totals.total, 2);
    assert_eq!(totals.governance_total, 1);
    assert_eq!(totals.publication_total, 1);
    let ids = delta
        .query(&SystemEventsQuery::new())
        .events
        .iter()
        .map(|e| e.event_id.clone())
        .collect::<Vec<_>>();
    assert_eq!(ids, vec!["c".to_string(), "b".to_string()]);

    assert!(base.delta_since(&current).is_none());
    let mut unrelated = SystemEventQueryIndex::new();
    unrelated.push_newest(timed_event("z", 1, SystemEventKind::FindingReopened));
    assert!(current.delta_since(&unrelated).is_none());
}

#[test]
fn event_names_and_categories_are_stable() {
    assert_eq!(SystemEventKind::CollectionScanMaterialized.as_str(), "collection-scan-materialized");
    assert_eq!(
        SystemEventKind::IntegrationEventPublicationFailed.as_str(),
        "integration-event-publication-failed"
    );
    assert_eq!(SystemEventKind::FindingsSuppressed.category(), SystemEventCategory::Governance);
    assert_eq!(SystemEventKind::ScanCommandFailed.category(), SystemEventCategory::Command);
    assert_eq!(SystemEventCategory::Publication.as_str(), "publication");
    assert_eq!(SystemEventCategory::Scheduler.as_str(), "scheduler");
}

#[test]
fn merging_indexes_is_order_free_and_restores_later_totals() {
    let left = SystemEventQueryIndex::from_newest_first(&[
        timed_event("event-003", 3, SystemEventKind::ScanCommandCompleted),
        timed_event("event-001", 1, SystemEventKind::FindingRiskAccepted),
    ]);
    let right = SystemEventQueryIndex::from_newest_first(&[
        timed_event("event-004", 4, SystemEventKind::IntegrationEventPublished),
        timed_event("event-002", 2, SystemEventKind::FindingSuppressed),
    ]);
    let lr = SystemEventQueryIndex::merged(&left, &right);
    let rl = SystemEventQueryIndex::merged(&right, &left);
    let ids = |index: &SystemEventQueryIndex| {
        index
            .query(&SystemEventsQuery::new().with_limit(4))
            .events
            .iter()
            .map(|event| event.event_id.clone())
            .collect::<Vec<_>>()
    };
    assert_eq!(ids(&lr), ids(&rl));
    assert_eq!(lr.window_totals(), rl.window_totals());

    let mut base = SystemEventQueryIndex::new();
    base.push_newest(timed_event("a", 1, SystemEventKind::FindingReopened));
    let mut current = base.clone();
    current.push_newest(timed_event("b", 2, SystemEventKind::FindingsReopened));
    let delta = current.delta_since(&base).expect("base is older state");
    assert_eq!(
        SystemEventQueryIndex::merged(&base, &delta).window_totals(),
        current.window_totals()
    );
}
