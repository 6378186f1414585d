use std::time::SystemTime;
use venom_domain::findings::{
    ArtifactKind, ArtifactRef, EvidenceFreshness, FindingChangeSet, FindingIngestionError,
    FindingProviderError, FindingProviderErrorKind, PackageCoordinate, ProviderScanReport,
    ReportedFinding, ScanRequest,
};
use venom_domain::integration::IntegrationEventPublicationFailure;
use venom_domain::operations::{SystemEventKind, SystemEventsQuery};
use venom_domain::scanning::durable_scan_runtime::{applied_outcome, provider_answer_outcome};
use venom_domain::scanning::{
    CompletedScanCommand, EnqueuedCommand, FailedScanCommand, RunNextScanResult, ScanCommandQueue,
    ScanCommandStatus, ScanQueueEvent,
};

fn request() -> ScanRequest {
    ScanRequest::new(
        "component:payments-api",
        ArtifactRef::new(ArtifactKind::ContainerImage, "registry.example/payments@sha256:111"),
        EvidenceFreshness::Deterministic,
    )
}

fn report() -> ProviderScanReport {
    ProviderScanReport::new(
        "fixture-provider",
        "component:payments-api",
        ArtifactRef::new(ArtifactKind::ContainerImage, "registry.example/payments@sha256:111"),
        SystemTime::UNIX_EPOCH,
        EvidenceFreshness::Deterministic,
        vec![ReportedFinding::new("CVE-2026-0001", PackageCoordinate::new("openssl", "3.0.0"))],
    )
    .with_knowledge_revision("fixture-db:2026-05-14")
}

fn change_set() -> FindingChangeSet {
    FindingChangeSet { discovered: 1, repeated: 0, withdrawn: 0, active: 1 }
}

#[test]
fn collection_batch_enqueue_is_idempotent_for_the_same_due_origin() {
    let mut runtime = ScanCommandQueue::new();

    let first = runtime.enqueue_collection_batch(
        "release:2026.05",
        1_000,
        vec!["scan-command-1".to_string()],
        vec![request()],
        10,
    );
    let second = runtime.enqueue_collection_batch(
        "release:2026.05",
        1_000,
        vec!["scan-command-2".to_string()],
        vec![request()],
        20,
    );

    assert_eq!(first, second);
    assert_eq!(runtime.pending_commands(), 1);
}

#[test]
fn enqueued_commands_run_in_order_until_terminal() {
    let mut queue = ScanCommandQueue::new();
    let ids = queue.enqueue_batch(
        vec![
            EnqueuedCommand { command_id: "a".into(), request: request(), collection_schedule_origin: None },
            EnqueuedCommand { command_id: "b".into(), request: request(), collection_schedule_origin: None },
        ],
        5,
    );
    assert_eq!(ids, vec!["a".to_string(), "b".to_string()]);
    assert_eq!(queue.pending_commands(), 2);
    assert_eq!(queue.next_pending_command().as_deref(), Some("a"));
    assert_eq!(queue.next_pending_component_key().as_deref(), Some("component:payments-api"));
    assert_eq!(queue.system_events().len(), 2);
    assert_eq!(queue.system_events()[0].event_id, "scan-command-enqueued-live-b");

    let accepted = provider_answer_outcome("a", "fixture-provider", &request(), Ok(report()))
        .expect("valid report");
    queue.capture_report("a", accepted).expect("queued");
    assert_eq!(queue.command_status("a"), Some(ScanCommandStatus::Applying));
    assert!(queue.captured_report("a").is_some());

    let completed = CompletedScanCommand {
        command_id: "a".into(),
        provider_key: "fixture-provider".into(),
        findings_reported: 1,
        change_set: change_set(),
    };
    let event = queue.completion_event(&completed).expect("queued");
    assert_eq!(event.event_id, "integration-event-scan-command-completed-a");
    queue.record_completed_outcome(&completed, 77).expect("queued");
    assert_eq!(queue.command_status("a"), Some(ScanCommandStatus::Completed));
    assert!(queue.captured_report("a").is_none());
    assert_eq!(queue.pending_integration_events().len(), 1);
    assert_eq!(queue.pending_integration_events()[0], event);
    let newest = &queue.system_events()[0];
    assert_eq!(newest.event_id, "scan-command-completed-live-a-77");
    assert_eq!(newest.detail.as_deref(), Some("discovered 1, repeated 0, withdrawn 0, active 1"));
    assert_eq!(newest.finding_count, Some(1));
    assert_eq!(queue.next_pending_command().as_deref(), Some("b"));

    let failed = FailedScanCommand {
        command_id: "b".into(),
        error_code: "provider-error".into(),
        retryable: true,
        detail: "down".into(),
    };
    queue.record_failed_outcome(&failed, 80).expect("queued");
    assert_eq!(queue.command_status("b"), Some(ScanCommandStatus::Failed));
    assert_eq!(queue.pending_commands(), 0);
    assert!(queue.next_pending_command().is_none());
    assert!(queue.next_pending_component_key().is_none());

    queue.record_publish_failed(
        &IntegrationEventPublicationFailure {
            event_id: "integration-event-scan-command-completed-a".into(),
            retryable: true,
            message: "broker down".into(),
        },
        90,
    );
    assert_eq!(queue.pending_integration_events().len(), 1);
    queue.record_published("integration-event-scan-command-completed-a", 91);
    assert!(queue.pending_integration_events().is_empty());
    let page = queue.query_system_events(&SystemEventsQuery::new().with_limit(2));
    assert_eq!(page.total, 6);
    assert_eq!(page.events[0].kind, SystemEventKind::IntegrationEventPublished);
    let statuses = queue.command_statuses_snapshot();
    assert_eq!(
        statuses,
        vec![("a".to_string(), ScanCommandStatus::Completed), ("b".to_string(), ScanCommandStatus::Failed)]
    );
}

#[test]
fn replayed_history_refuses_inconsistent_events() {
    let mut queue = ScanCommandQueue::new();
    let command = |id: &str| EnqueuedCommand {
        command_id: id.into(),
        request: request(),
        collection_schedule_origin: None,
    };
    queue.apply_batch_enqueued_event(vec![command("a")], 1, 1).expect("fresh");
    let duplicate = queue.apply_batch_enqueued_event(vec![command("a")], 1, 2).unwrap_err();
    assert_eq!(duplicate.line, 2);
    assert_eq!(duplicate.reason, "duplicate scan command id");
    assert_eq!(queue.system_events()[0].event_id, "scan-command-enqueued-1-0");
    queue.apply_enqueued_event(command("c"), 1, 3).expect("fresh");
    assert_eq!(queue.system_events()[0].event_id, "scan-command-enqueued-3");

    let unknown = queue.apply_report_captured_event("zzz", report(), 4).unwrap_err();
    assert_eq!(unknown.reason, "captured report without prior enqueue");
    queue.apply_report_captured_event("a", report(), 5).expect("pending");
    let again = queue.apply_report_captured_event("a", report(), 6).unwrap_err();
    assert_eq!(again.reason, "captured report for non-pending scan command");

    queue.apply_completed_event("a", 1, &change_set(), 9, None, 7).expect("applying");
    assert_eq!(queue.command_status("a"), Some(ScanCommandStatus::Completed));
    assert_eq!(queue.system_events()[0].event_id, "scan-command-completed-7");
    let twice = queue.apply_failed_event("a", 9, false, "late", 8).unwrap_err();
    assert_eq!(twice.reason, "duplicate terminal state for scan command");
    let missing = queue.apply_failed_event("nope", 9, false, "late", 9).unwrap_err();
    assert_eq!(missing.reason, "terminal event without prior enqueue");
    queue.apply_failed_event("c", 9, true, "gone", 10).expect("pending");
    assert_eq!(queue.system_events()[0].retryable, Some(true));
    queue.apply_publish_failed_event("evt", 11, true, "down", 11);
    assert_eq!(queue.system_events()[0].event_id, "scan-runtime-publish-failed-11");
    queue.apply_published_event("evt", 12, 12);
    assert_eq!(queue.system_events()[0].event_id, "scan-runtime-published-12");
}

#[test]
fn provider_answers_and_ingestion_results_decide_outcomes() {
    let error = FindingProviderError::new(FindingProviderErrorKind::Unavailable, true, "down");
    let failed = provider_answer_outcome("x", "fixture-provider", &request(), Err(error)).unwrap_err();
    assert_eq!(failed.error_code, "provider-error");
    assert!(failed.retryable);
    assert_eq!(failed.detail, "down");

    let mismatched = provider_answer_outcome("x", "other-provider", &request(), Ok(report())).unwrap_err();
    assert!(!mismatched.retryable);
    assert_eq!(mismatched.detail, "report provider key does not match the adapter key");

    match applied_outcome("x", "fixture-provider", 1, Ok(change_set())) {
        RunNextScanResult::Completed(done) => {
            assert_eq!(done.findings_reported, 1);
            assert_eq!(done.change_set, change_set());
        }
        other => panic!("unexpected {other:?}"),
    }
    match applied_outcome("x", "fixture-provider", 1, Err(FindingIngestionError::UnmanagedArtifact)) {
        RunNextScanResult::Failed(f) => {
            assert_eq!(f.error_code, "unmanaged-artifact");
            assert_eq!(f.detail, "provider report cannot be applied to managed ownership");
        }
        other => panic!("unexpected {other:?}"),
    }
    assert_eq!(ScanCommandStatus::Applying.as_str(), "applying");
    assert!(ScanCommandStatus::Failed.is_terminal());
    assert!(!ScanCommandStatus::Pending.is_terminal());
}

#[test]
fn shared_snapshots_match_the_queue() {
    let mut queue = ScanCommandQueue::new();
    let _ = queue.enqueue_batch(
        vec![
            EnqueuedCommand { command_id: "b".into(), request: request(), collection_schedule_origin: None },
            EnqueuedCommand { command_id: "a".into(), request: request(), collection_schedule_origin: None },
        ],
        5,
    );

    let statuses = queue.command_statuses_snapshot_arc();
    assert_eq!(*statuses, queue.command_statuses_snapshot());
    assert_eq!(
        *statuses,
        vec![
            ("a".to_string(), ScanCommandStatus::Pending),
            ("b".to_string(), ScanCommandStatus::Pending),
        ]
    );
    let events = queue.system_events_snapshot_arc();
    assert_eq!(*events, *queue.system_events());
}

#[test]
fn settled_commands_stay_settled() {
    let mut queue = ScanCommandQueue::new();
    let _ = queue.enqueue("a".into(), request(), 5);
    queue.mark_terminal(2, "a", ScanCommandStatus::Failed).expect("first terminal state");

    let again = queue.mark_terminal(3, "a", ScanCommandStatus::Completed).unwrap_err();
    assert_eq!(again.line, 3);
    assert_eq!(again.reason, "duplicate terminal state for scan command");
    let duplicate = queue
        .apply_enqueued_event(
            EnqueuedCommand { command_id: "a".into(), request: request(), collection_schedule_origin: None },
            6,
            4,
        )
        .unwrap_err();
    assert_eq!(duplicate.reason, "duplicate scan command id");
    assert_eq!(queue.command_status("a"), Some(ScanCommandStatus::Failed));
    assert_eq!(queue.pending_commands(), 0);
}

#[test]
fn replayed_events_follow_the_command_lifecycle() {
    let mut queue = ScanCommandQueue::new();
    let enqueue = |id: &str| ScanQueueEvent::Enqueued {
        command: EnqueuedCommand { command_id: id.into(), request: request(), collection_schedule_origin: None },
        occurred_at_unix_ms: 1,
    };
    queue.apply_event(enqueue("a"), 1).expect("fresh id");
    assert_eq!(queue.apply_event(enqueue("a"), 2).unwrap_err().line, 2);
    queue
        .apply_event(ScanQueueEvent::ReportCaptured { command_id: "a".into(), report: report() }, 3)
        .expect("pending command");
    assert_eq!(queue.command_status("a"), Some(ScanCommandStatus::Applying));
    queue
        .apply_event(
            ScanQueueEvent::Failed {
                command_id: "a".into(),
                occurred_at_unix_ms: 4,
                retryable: false,
                detail: "down".into(),
            },
            4,
        )
        .expect("running command");
    let again = queue
        .apply_event(
            ScanQueueEvent::Completed {
                command_id: "a".into(),
                findings_reported: 1,
                change_set: change_set(),
                occurred_at_unix_ms: 5,
                pending_integration_event: None,
            },
            5,
        )
        .unwrap_err();
    assert_eq!(again.reason, "duplicate terminal state for scan command");
    assert_eq!(queue.command_status("a"), Some(ScanCommandStatus::Failed));
    assert!(queue.captured_report("a").is_none());
}

#[test]
fn a_replayed_history_keeps_order_and_pending_events_after_a_failed_publication() {
    let mut live = ScanCommandQueue::new();
    let command = |id: &str| EnqueuedCommand {
        command_id: id.into(),
        request: request(),
        collection_schedule_origin: None,
    };
    let _ = live.enqueue_batch(vec![command("a"), command("b")], 1);
    let accepted = provider_answer_outcome("a", "fixture-provider", &request(), Ok(report()))
        .expect("valid report");
    live.capture_report("a", accepted).expect("queued");
    let completed = CompletedScanCommand {
        command_id: "a".into(),
        provider_key: "fixture-provider".into(),
        findings_reported: 1,
        change_set: change_set(),
    };
    let announced = live.completion_event(&completed).expect("queued");
    live.record_completed_outcome(&completed, 3).expect("queued");
    let mut progress =
        venom_domain::integration::PublishIntegrationEventsResult::start(live.pending_integration_events().len());
    let next = live.next_publication(&progress, 4).expect("pending").event_id.clone();
    live.record_publication_outcome(
        &mut progress,
        &next,
        Err(venom_domain::integration::IntegrationEventPublishError::new(true, "broker down")),
        4,
    );
    assert_eq!(progress.attempted, 1);
    assert_eq!(progress.published, 0);
    assert!(live.next_publication(&progress, 4).is_none());

    let history = vec![
        ScanQueueEvent::BatchEnqueued { commands: vec![command("a"), command("b")], occurred_at_unix_ms: 1 },
        ScanQueueEvent::ReportCaptured { command_id: "a".into(), report: report() },
        ScanQueueEvent::Completed {
            command_id: "a".into(),
            findings_reported: 1,
            change_set: change_set(),
            occurred_at_unix_ms: 3,
            pending_integration_event: Some(announced),
        },
        ScanQueueEvent::IntegrationEventPublicationFailed {
            event_id: next,
            occurred_at_unix_ms: 4,
            retryable: true,
            detail: "broker down".into(),
        },
    ];
    let mut rebuilt = ScanCommandQueue::new();
    for (index, event) in history.into_iter().enumerate() {
        rebuilt.apply_event(event, index + 1).expect("a recorded history replays");
    }
    assert_eq!(rebuilt.pending_integration_events(), live.pending_integration_events());
    assert_eq!(rebuilt.command_statuses_snapshot(), live.command_statuses_snapshot());
    assert_eq!(rebuilt.next_pending_command(), live.next_pending_command());
}
