use std::time::SystemTime;
use venom_domain::durable_state::{DurableEvent, DurableState, DurableStateError};
use venom_domain::findings::{
    ArtifactKind, ArtifactRef, BulkGovernanceQuery, EvidenceFreshness, FindingGovernanceState,
    FindingRef, PackageCoordinate, ProviderScanReport, ReportedFinding, RiskAcceptance, Severity,
    Suppression, AcceptRiskChange, ReopenFindingChange, SuppressFindingChange,
};
use venom_domain::integration::{IntegrationEvent, IntegrationRuntimeConfig};
use venom_domain::inventory::{
    CollectionRegistration, CollectionScanSchedule, ComponentRegistration,
    ConfigureProviderChange, RegisterComponentChange,
};
use venom_domain::operations::SystemEventKind;

fn artifact() -> ArtifactRef {
    ArtifactRef::new(ArtifactKind::ContainerImage, "registry.example/payments@sha256:111")
}

fn report(findings: Vec<ReportedFinding>) -> ProviderScanReport {
    ProviderScanReport::new(
        "fixture-provider",
        "component:payments-api",
        artifact(),
        SystemTime::UNIX_EPOCH,
        EvidenceFreshness::Deterministic,
        findings,
    )
    .with_knowledge_revision("fixture-db:2026-05-14")
}

fn one_finding() -> Vec<ReportedFinding> {
    vec![ReportedFinding::new("CVE-2026-0001", PackageCoordinate::new("openssl", "3.0.0"))]
}

/// Everything the state recorded so far, as a durable history would hold it.
fn saved(state: &mut DurableState, history: &mut Vec<DurableEvent>) {
    history.extend(state.take_unsaved());
}

fn managed_component(state: &mut DurableState) {
    let _ = state.register_component(ComponentRegistration::new(
        "component:payments-api",
        "Payments API",
    ));
    let _ = state.bind_artifact("component:payments-api", artifact());
}

#[test]
fn replay_rebuilds_inventory_and_active_findings() {
    let mut state = DurableState::new();
    managed_component(&mut state);
    state.record_scan_report(&report(one_finding())).expect("scan report should record");
    let mut history = Vec::new();
    saved(&mut state, &mut history);

    let rebuilt = DurableState::replay(history).expect("durable state should replay");

    assert!(rebuilt.ingestion().inventory().is_managed("component:payments-api"));
    assert!(rebuilt
        .ingestion()
        .inventory()
        .component_owns_artifact("component:payments-api", &artifact()));
    assert_eq!(
        rebuilt.read_model().active_finding_count("component:payments-api", &artifact()),
        1
    );
}

#[test]
fn replay_rebuilds_release_collections() {
    let mut state = DurableState::new();
    let _ = state.register_component(ComponentRegistration::new(
        "component:payments-api",
        "Payments API",
    ));
    let _ = state.register_collection(CollectionRegistration::new("release:2026.05", "May Release"));
    let _ = state.add_component_to_collection("release:2026.05", "component:payments-api");
    let mut history = Vec::new();
    saved(&mut state, &mut history);

    let rebuilt = DurableState::replay(history).expect("durable state should replay");

    assert!(rebuilt.ingestion().inventory().is_collection_managed("release:2026.05"));
    assert_eq!(
        rebuilt.ingestion().inventory().collection_members("release:2026.05"),
        Some(vec![String::from("component:payments-api")])
    );
}

#[test]
fn replay_keeps_collection_scan_schedules() {
    let mut state = DurableState::new();
    let _ = state.register_collection(CollectionRegistration::new("release:2026.05", "May Release"));
    let _ = state.configure_collection_scan_schedule(
        "release:2026.05",
        60,
        EvidenceFreshness::Deterministic,
        1_000,
    );
    let mut history = Vec::new();
    saved(&mut state, &mut history);

    let rebuilt = DurableState::replay(history).expect("durable state should replay");

    assert_eq!(
        rebuilt.ingestion().inventory().collection_scan_schedule("release:2026.05"),
        Some(CollectionScanSchedule {
            cadence_minutes: 60,
            freshness: EvidenceFreshness::Deterministic,
            next_due_at_unix_ms: 1_000,
            last_materialized_at_unix_ms: None,
            last_enqueued_commands: None,
        })
    );
}

#[test]
fn replay_keeps_collection_schedule_materialization_metadata() {
    let mut state = DurableState::new();
    managed_component(&mut state);
    let _ = state.register_collection(CollectionRegistration::new("release:2026.05", "May Release"));
    let _ = state.add_component_to_collection("release:2026.05", "component:payments-api");
    let _ = state.configure_collection_scan_schedule(
        "release:2026.05",
        60,
        EvidenceFreshness::Deterministic,
        1_000,
    );
    let _ = state.record_collection_scan_materialization("release:2026.05", 3_601_500, 1_500, 1);
    let mut history = Vec::new();
    saved(&mut state, &mut history);

    let rebuilt = DurableState::replay(history).expect("durable state should replay");

    assert_eq!(
        rebuilt.ingestion().inventory().collection_scan_schedule("release:2026.05"),
        Some(CollectionScanSchedule {
            cadence_minutes: 60,
            freshness: EvidenceFreshness::Deterministic,
            next_due_at_unix_ms: 3_601_500,
            last_materialized_at_unix_ms: Some(1_500),
            last_enqueued_commands: Some(1),
        })
    );
}

#[test]
fn replay_keeps_withdrawn_findings_inactive() {
    let mut state = DurableState::new();
    managed_component(&mut state);
    state.record_scan_report(&report(one_finding())).expect("first report should record");
    state.record_scan_report(&report(Vec::new())).expect("withdrawal should record");
    let mut history = Vec::new();
    saved(&mut state, &mut history);

    let rebuilt = DurableState::replay(history).expect("durable state should replay");

    assert_eq!(
        rebuilt.read_model().active_finding_count("component:payments-api", &artifact()),
        0
    );
}

#[test]
fn replay_keeps_provider_runtime_configuration() {
    let mut state = DurableState::new();
    let _ = state.register_component(ComponentRegistration::new(
        "component:payments-api",
        "Payments API",
    ));

    let result = state.configure_provider("component:payments-api", "fixture-provider");

    assert_eq!(result.change, ConfigureProviderChange::Configured);

    let mut history = Vec::new();
    saved(&mut state, &mut history);
    let rebuilt = DurableState::replay(history).expect("durable state should replay");

    assert_eq!(
        rebuilt.ingestion().inventory().configured_provider("component:payments-api"),
        Some("fixture-provider")
    );
}

#[test]
fn replay_keeps_integration_runtime_configuration() {
    let mut state = DurableState::new();

    let result = state.configure_integration_runtime(IntegrationRuntimeConfig::Http {
        endpoint_url: "http://127.0.0.1:38080/publish".into(),
        timeout_ms: 3_000,
    });

    assert_eq!(result.change.as_str(), "configured");

    let mut history = Vec::new();
    saved(&mut state, &mut history);
    let rebuilt = DurableState::replay(history).expect("durable state should replay");

    assert_eq!(
        rebuilt.integration_runtime_config(),
        Some(&IntegrationRuntimeConfig::Http {
            endpoint_url: "http://127.0.0.1:38080/publish".into(),
            timeout_ms: 3_000,
        })
    );
}

#[test]
fn replay_keeps_pending_integration_events_for_provider_reports() {
    let mut state = DurableState::new();
    managed_component(&mut state);
    state.record_scan_report(&report(one_finding())).expect("scan report should record");
    let mut history = Vec::new();
    saved(&mut state, &mut history);

    let rebuilt = DurableState::replay(history).expect("durable state should replay");

    assert_eq!(rebuilt.pending_integration_events().len(), 1);
    assert!(matches!(
        rebuilt.pending_integration_events()[0].event,
        IntegrationEvent::FindingChangesObserved { .. }
    ));
}

#[test]
fn command_scoped_scan_report_recording_is_idempotent() {
    let mut state = DurableState::new();
    managed_component(&mut state);

    let first = state
        .record_scan_report_for_command("scan-command-1", &report(one_finding()))
        .expect("first scan report should record");
    let second = state
        .record_scan_report_for_command("scan-command-1", &report(one_finding()))
        .expect("second scan report should reuse the recorded change set");

    assert_eq!(first, second);
    assert_eq!(
        state.read_model().active_finding_count("component:payments-api", &artifact()),
        1
    );

    let mut history = Vec::new();
    saved(&mut state, &mut history);
    let mut rebuilt = DurableState::replay(history).expect("durable state should replay");
    let replayed = rebuilt
        .record_scan_report_for_command("scan-command-1", &report(one_finding()))
        .expect("replayed state should keep command-scoped idempotence");

    assert_eq!(replayed, first);
    assert_eq!(
        rebuilt.read_model().active_finding_count("component:payments-api", &artifact()),
        1
    );
}

#[test]
fn bulk_collection_risk_acceptance_targets_the_full_matching_cohort() {
    let mut state = DurableState::new();
    managed_component(&mut state);
    let _ = state.register_collection(CollectionRegistration::new("release:2026.05", "May Release"));
    let _ = state.add_component_to_collection("release:2026.05", "component:payments-api");
    let findings = (0..205)
        .map(|index| {
            ReportedFinding::new(
                &format!("CVE-2026-{index:04}"),
                PackageCoordinate::new(&format!("pkg-{index:04}"), "1.0.0"),
            )
            .with_severity(Severity::High)
        })
        .collect::<Vec<_>>();
    state.record_scan_report(&report(findings)).expect("scan report should record");

    let result = state
        .accept_risk_for_collection(
            "release:2026.05",
            &BulkGovernanceQuery::new(FindingGovernanceState::Open),
            RiskAcceptance::new("Accepted whole release"),
        )
        .expect("bulk risk acceptance should record");

    assert_eq!(result.targeted, 205);
    assert_eq!(result.accepted, 205);
    assert_eq!(result.unchanged, 0);
}

fn payments_finding() -> FindingRef {
    FindingRef::new(
        "component:payments-api",
        artifact(),
        "CVE-2026-0001",
        PackageCoordinate::new("openssl", "3.0.0"),
    )
}

#[test]
fn accepting_risk_twice_changes_nothing_the_second_time() {
    let mut state = DurableState::new();
    managed_component(&mut state);
    state.record_scan_report(&report(one_finding())).expect("scan report should record");
    let _ = state.take_unsaved();

    let first = state
        .accept_risk(payments_finding(), RiskAcceptance::new("compensating control"))
        .expect("acceptance should record");
    let second = state
        .accept_risk(payments_finding(), RiskAcceptance::new("compensating control"))
        .expect("acceptance should be answered");

    assert_eq!(first.change, AcceptRiskChange::Accepted);
    assert_eq!(second.change, AcceptRiskChange::Unchanged);
    assert_eq!(state.take_unsaved().len(), 1);
    let latest = &state.system_events()[0];
    assert_eq!(latest.kind, SystemEventKind::FindingRiskAccepted);
    assert!(latest.event_id.starts_with("durable-state-risk-accepted-live-"));
    assert_eq!(latest.finding_count, Some(1));
    assert_eq!(latest.detail.as_deref(), Some("compensating control"));
}

#[test]
fn governance_of_inactive_findings_is_refused() {
    let mut state = DurableState::new();
    managed_component(&mut state);

    let accepted = state.accept_risk(payments_finding(), RiskAcceptance::new("later"));
    let suppressed = state.suppress_finding(payments_finding(), Suppression::new("noise"));

    assert_eq!(
        accepted,
        Err(DurableStateError::MissingFinding(
            "cannot accept risk for an inactive finding".into()
        ))
    );
    assert_eq!(
        suppressed,
        Err(DurableStateError::MissingFinding("cannot suppress an inactive finding".into()))
    );
    assert_eq!(accepted.unwrap_err().as_str(), "missing-finding");
}

#[test]
fn replay_reproduces_governance_decisions() {
    let mut state = DurableState::new();
    managed_component(&mut state);
    state.record_scan_report(&report(one_finding())).expect("scan report should record");
    let result = state
        .suppress_finding(payments_finding(), Suppression::new("not reachable"))
        .expect("suppression should record");
    assert_eq!(result.change, SuppressFindingChange::Suppressed);
    let mut history = Vec::new();
    saved(&mut state, &mut history);

    let rebuilt = DurableState::replay(history).expect("durable state should replay");

    let decision = rebuilt
        .governance()
        .decision(&payments_finding())
        .expect("the decision should be replayed");
    assert_eq!(decision.state(), FindingGovernanceState::Suppressed);
    assert_eq!(decision.reason(), Some("not reachable"));
    assert_eq!(rebuilt.system_events()[0].event_id, "durable-state-suppressed-4");
}

#[test]
fn bulk_actions_on_unknown_collections_are_refused() {
    let mut state = DurableState::new();
    let query = BulkGovernanceQuery::new(FindingGovernanceState::Open);

    let accepted =
        state.accept_risk_for_collection("release:none", &query, RiskAcceptance::new("x"));
    let suppressed =
        state.suppress_findings_for_collection("release:none", &query, Suppression::new("x"));

    assert_eq!(
        accepted,
        Err(DurableStateError::MissingCollection("unknown collection: release:none".into()))
    );
    assert_eq!(suppressed, Err(DurableStateError::MissingCollection("release:none".into())));
}

#[test]
fn bulk_suppression_twice_leaves_nothing_to_change() {
    let mut state = DurableState::new();
    managed_component(&mut state);
    let _ = state.register_collection(CollectionRegistration::new("release:2026.05", "May Release"));
    let _ = state.add_component_to_collection("release:2026.05", "component:payments-api");
    state.record_scan_report(&report(one_finding())).expect("scan report should record");
    let query = BulkGovernanceQuery::new(FindingGovernanceState::Open);

    let first = state
        .suppress_findings_for_collection("release:2026.05", &query, Suppression::new("noise"))
        .expect("bulk suppression should record");
    let second = state
        .suppress_findings_for_collection("release:2026.05", &query, Suppression::new("noise"))
        .expect("bulk suppression should be answered");

    assert_eq!((first.targeted, first.suppressed, first.unchanged), (1, 1, 0));
    assert_eq!((second.targeted, second.suppressed, second.unchanged), (0, 0, 0));
    assert_eq!(state.system_events()[0].kind, SystemEventKind::FindingsSuppressed);
}

#[test]
fn unmanaged_reports_are_refused_and_leave_nothing_pending() {
    let mut state = DurableState::new();

    let result = state.record_scan_report(&report(one_finding()));

    assert_eq!(result.unwrap_err().as_str(), "unmanaged-component");
    assert!(state.pending_integration_events().is_empty());
    assert!(state.take_unsaved().is_empty());
}

#[test]
fn publication_outcomes_update_pending_events_and_the_log() {
    let mut state = DurableState::new();
    managed_component(&mut state);
    state.record_scan_report(&report(one_finding())).expect("scan report should record");
    let event_id = state
        .next_pending_integration_event()
        .expect("one event should be pending")
        .event_id
        .clone();

    state
        .record_integration_event_publication_failed(&event_id, true, "timeout")
        .expect("failure should record");
    assert_eq!(state.pending_integration_events().len(), 1);
    assert_eq!(state.system_events()[0].retryable, Some(true));

    state.record_integration_event_published(&event_id).expect("publication should record");
    assert!(state.next_pending_integration_event().is_none());
    assert_eq!(state.system_events()[0].kind, SystemEventKind::IntegrationEventPublished);
    assert_eq!(
        state.system_events()[0].integration_event_id.as_deref(),
        Some(event_id.as_str())
    );
}

#[test]
fn materialization_leaves_a_scheduler_event() {
    let mut state = DurableState::new();
    let _ = state.register_collection(CollectionRegistration::new("release:2026.05", "May Release"));
    let _ = state.configure_collection_scan_schedule(
        "release:2026.05",
        60,
        EvidenceFreshness::Deterministic,
        1_000,
    );

    let _ = state.record_collection_scan_materialization("release:2026.05", 3_601_500, 1_500, 2);

    let event = &state.system_events()[0];
    assert_eq!(event.event_id, "durable-state-scheduler-live-release:2026.05-1500");
    assert_eq!(event.detail.as_deref(), Some("next due 3601500, enqueued 2"));
    assert_eq!(event.finding_count, Some(2));
}

#[test]
fn conflicting_registration_in_history_is_corrupt() {
    let mut first = DurableState::new();
    let _ = first.register_component(ComponentRegistration::new("component:a", "A"));
    let mut second = DurableState::new();
    let r = second.register_component(ComponentRegistration::new("component:a", "Other"));
    assert_eq!(r.change, RegisterComponentChange::Registered);
    let mut history = first.take_unsaved();
    history.extend(second.take_unsaved());

    let replayed = DurableState::replay(history);

    assert_eq!(
        replayed.err(),
        Some(DurableStateError::CorruptHistory {
            line: 2,
            reason: "conflicting component registration".into()
        })
    );
}

#[test]
fn reopening_returns_a_governed_finding_to_open_and_replays() {
    let mut state = DurableState::new();
    managed_component(&mut state);
    state.record_scan_report(&report(one_finding())).expect("scan report should record");

    let untouched = state.reopen_finding(&payments_finding()).expect("reopen should answer");
    assert_eq!(untouched.change, ReopenFindingChange::Unchanged);

    state
        .accept_risk(payments_finding(), RiskAcceptance::new("temporary"))
        .expect("acceptance should record");
    let reopened = state.reopen_finding(&payments_finding()).expect("reopen should record");

    assert_eq!(reopened.change, ReopenFindingChange::Reopened);
    assert!(state.governance().decision(&payments_finding()).is_none());
    assert_eq!(state.system_events()[0].kind, SystemEventKind::FindingReopened);
    assert_eq!(state.system_events()[0].detail, None);

    let mut history = Vec::new();
    saved(&mut state, &mut history);
    let rebuilt = DurableState::replay(history).expect("durable state should replay");
    assert!(rebuilt.governance().decision(&payments_finding()).is_none());
    assert_eq!(rebuilt.system_events()[0].event_id, "durable-state-reopened-5");
}

#[test]
fn reopening_an_inactive_finding_is_refused() {
    let mut state = DurableState::new();

    let result = state.reopen_finding(&payments_finding());

    assert_eq!(
        result,
        Err(DurableStateError::MissingFinding("cannot reopen an inactive finding".into()))
    );
}

#[test]
fn bulk_reopening_targets_only_governed_findings() {
    let mut state = DurableState::new();
    managed_component(&mut state);
    let _ = state.register_collection(CollectionRegistration::new("release:2026.05", "May Release"));
    let _ = state.add_component_to_collection("release:2026.05", "component:payments-api");
    let findings = vec![
        ReportedFinding::new("CVE-2026-0001", PackageCoordinate::new("openssl", "3.0.0")),
        ReportedFinding::new("CVE-2026-0002", PackageCoordinate::new("zlib", "1.3.0")),
    ];
    state.record_scan_report(&report(findings)).expect("scan report should record");
    state
        .accept_risk(payments_finding(), RiskAcceptance::new("temporary"))
        .expect("acceptance should record");

    let all = BulkGovernanceQuery::new(FindingGovernanceState::RiskAccepted);
    let result =
        state.reopen_findings_for_collection("release:2026.05", &all).expect("reopen should record");

    assert_eq!((result.targeted, result.reopened, result.unchanged), (1, 1, 0));
    assert!(state.governance().decision(&payments_finding()).is_none());
    assert_eq!(
        state.reopen_findings_for_collection("release:none", &all),
        Err(DurableStateError::MissingCollection("release:none".into()))
    );
}

#[test]
fn a_history_saved_in_parts_rebuilds_the_live_state() {
    let mut state = DurableState::new();
    managed_component(&mut state);
    state.record_scan_report(&report(one_finding())).expect("scan report should record");
    let mut history = Vec::new();
    saved(&mut state, &mut history);

    state
        .accept_risk(payments_finding(), RiskAcceptance::new("compensating control"))
        .expect("acceptance should record");
    state.reopen_finding(&payments_finding()).expect("reopening should record");
    state
        .suppress_finding(payments_finding(), Suppression::new("not reachable"))
        .expect("suppression should record");
    let published = state.pending_integration_events()[0].event_id.clone();
    state
        .record_integration_event_published(&published)
        .expect("publication should record");
    saved(&mut state, &mut history);
    assert_eq!(history.len(), 7);

    let rebuilt = DurableState::replay(history).expect("durable state should replay");

    assert!(rebuilt.ingestion().inventory().is_managed("component:payments-api"));
    assert_eq!(
        rebuilt.read_model().active_finding_count("component:payments-api", &artifact()),
        state.read_model().active_finding_count("component:payments-api", &artifact())
    );
    let live = state.governance().decision(&payments_finding()).expect("live decision");
    let replayed = rebuilt.governance().decision(&payments_finding()).expect("replayed decision");
    assert_eq!(replayed.state(), live.state());
    assert_eq!(replayed.reason(), live.reason());
    assert_eq!(replayed.state(), FindingGovernanceState::Suppressed);
    assert!(rebuilt.pending_integration_events().is_empty());
    assert!(state.pending_integration_events().is_empty());
}

#[test]
fn governance_at_a_given_time_uses_it_and_a_failed_clock_only_when_something_changes() {
    let mut state = DurableState::new();
    managed_component(&mut state);
    let _ = state.register_collection(CollectionRegistration::new("release:2026.05", "May Release"));
    let _ = state.add_component_to_collection("release:2026.05", "component:payments-api");
    state.record_scan_report(&report(one_finding())).expect("scan report should record");
    let query = BulkGovernanceQuery::new(FindingGovernanceState::Open);

    let refused = state
        .accept_risk_for_collection_at(
            "release:2026.05",
            &query,
            RiskAcceptance::new("accepted"),
            Err(DurableStateError::Time("clock unavailable".into())),
        )
        .unwrap_err();
    assert_eq!(refused.as_str(), "invalid-time");
    assert!(state.governance().decision(&payments_finding()).is_none());

    let accepted = state
        .accept_risk_for_collection_at("release:2026.05", &query, RiskAcceptance::new("accepted"), Ok(1234))
        .expect("known collection");
    assert_eq!((accepted.targeted, accepted.accepted, accepted.unchanged), (1, 1, 0));
    assert_eq!(
        state.system_events()[0].event_id,
        "durable-state-risk-accepted-many-live-release:2026.05-1234"
    );
    assert_eq!(state.system_events()[0].occurred_at_unix_ms, 1234);

    let unknown = state
        .accept_risk_for_collection_at("release:unknown", &query, RiskAcceptance::new("x"), Ok(1))
        .unwrap_err();
    assert_eq!(unknown.as_str(), "missing-collection");

    let reopened = state
        .reopen_finding_at(&payments_finding(), Ok(1300))
        .expect("governed finding");
    assert_eq!(reopened.change, ReopenFindingChange::Reopened);
    let idle = state
        .reopen_finding_at(&payments_finding(), Err(DurableStateError::Time("down".into())))
        .expect("nothing to change, so the clock is not needed");
    assert_eq!(idle.change, ReopenFindingChange::Unchanged);
}

#[test]
fn scan_reports_at_a_given_identity_name_their_event() {
    let mut state = DurableState::new();
    managed_component(&mut state);

    let refused = state.record_scan_report_at(&report(one_finding()), None).unwrap_err();
    assert_eq!(refused.as_str(), "invalid-time");
    assert!(state.pending_integration_events().is_empty());

    state
        .record_scan_report_at(&report(one_finding()), Some("integration-event-finding-changes-7".into()))
        .expect("managed artifact");
    assert_eq!(state.pending_integration_events()[0].event_id, "integration-event-finding-changes-7");
}
