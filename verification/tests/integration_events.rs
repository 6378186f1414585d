use venom_domain::durable_state::DurableState;
use venom_domain::findings::ProviderScanReport;
use venom_domain::integration::PublishIntegrationEventsResult;
use venom_domain::inventory::ComponentRegistration;
use std::time::{Duration, SystemTime};
use venom_domain::findings::{ArtifactKind, ArtifactRef, EvidenceFreshness, FindingChangeSet};
use venom_domain::integration::integration_events::{
    decimal_text, integration_event_id, micros_in_range, next_integration_event_id,
    system_time_to_micros,
};
use venom_domain::integration::{
    ConfigureIntegrationRuntimeChange, IntegrationEvent, IntegrationEventPublishError,
    IntegrationRuntimeConfig, PendingIntegrationEvent,
};

fn change_set() -> FindingChangeSet {
    FindingChangeSet { discovered: 1, repeated: 0, withdrawn: 0, active: 1 }
}

fn artifact() -> ArtifactRef {
    ArtifactRef::new(ArtifactKind::ContainerImage, "registry.example/payments@sha256:111")
}

#[test]
fn scan_command_completion_event_id_is_derived_from_the_command() {
    let event = PendingIntegrationEvent::scan_command_completed(
        "scan-command-42",
        "component:payments-api",
        artifact(),
        "fixture-provider",
        EvidenceFreshness::Deterministic,
        3,
        change_set(),
    );
    assert_eq!(event.event_id, "integration-event-scan-command-completed-scan-command-42");
    assert_eq!(event.event.kind_name(), "scan-command-completed");
    match event.event {
        IntegrationEvent::ScanCommandCompleted { command_id, findings_reported, .. } => {
            assert_eq!(command_id, "scan-command-42");
            assert_eq!(findings_reported, 3);
        }
        IntegrationEvent::FindingChangesObserved { .. } => panic!("wrong kind"),
    }
}

#[test]
fn finding_changes_event_keeps_observation_time_in_micros() {
    let observed_at = SystemTime::UNIX_EPOCH + Duration::from_millis(1_500);
    let event = PendingIntegrationEvent::finding_changes_observed(
        "component:payments-api",
        artifact(),
        "fixture-provider",
        EvidenceFreshness::Live,
        observed_at,
        change_set(),
    )
    .expect("times after the epoch are in range");
    assert!(event.event_id.starts_with("integration-event-finding-changes-"));
    assert_eq!(event.event.kind_name(), "finding-changes-observed");
    match event.event {
        IntegrationEvent::FindingChangesObserved { observed_at_micros, .. } => {
            assert_eq!(observed_at_micros, 1_500_000);
        }
        IntegrationEvent::ScanCommandCompleted { .. } => panic!("wrong kind"),
    }
}

#[test]
fn event_ids_render_time_in_decimal() {
    assert_eq!(decimal_text(0), "0");
    assert_eq!(decimal_text(7), "7");
    assert_eq!(decimal_text(1_234_567_890), "1234567890");
    assert_eq!(decimal_text(u128::MAX), u128::MAX.to_string());
    assert_eq!(integration_event_id("x", 105), "integration-event-x-105");
    let fresh = next_integration_event_id("finding-changes").expect("clock after epoch");
    assert!(fresh.starts_with("integration-event-finding-changes-"));
}

#[test]
fn micros_must_fit_in_u64() {
    assert_eq!(micros_in_range(Some(5)), Some(5));
    assert_eq!(micros_in_range(Some(u64::MAX as u128 + 1)), None);
    assert_eq!(micros_in_range(None), None);
    assert_eq!(system_time_to_micros(SystemTime::UNIX_EPOCH + Duration::from_micros(9)), Some(9));
}

#[test]
fn runtime_configuration_exposes_publisher_settings() {
    let http = IntegrationRuntimeConfig::Http {
        endpoint_url: "https://events.example/ingest".into(),
        timeout_ms: 2_500,
    };
    assert_eq!(http.publisher_key(), "http-publisher");
    assert_eq!(http.endpoint_url(), Some("https://events.example/ingest"));
    assert_eq!(http.timeout_ms(), Some(2_500));
    assert_eq!(http.clone(), http);
    let fixture = IntegrationRuntimeConfig::Fixture;
    assert_eq!(fixture.publisher_key(), "fixture-publisher");
    assert_eq!(fixture.endpoint_url(), None);
    assert_eq!(fixture.timeout_ms(), None);
    assert_eq!(ConfigureIntegrationRuntimeChange::Configured.as_str(), "configured");
    assert_eq!(ConfigureIntegrationRuntimeChange::Unchanged.as_str(), "unchanged");
    let error = IntegrationEventPublishError::new(true, "broker down");
    assert!(error.retryable);
    assert_eq!(error.message, "broker down");
}

#[test]
fn durable_publication_batches_stop_at_the_first_failure() {
    let artifact = ArtifactRef::new(ArtifactKind::ContainerImage, "registry.example/payments@sha256:111");
    let mut state = DurableState::new();
    let _ = state.register_component(ComponentRegistration::new("component:payments-api", "Payments API"));
    let _ = state.bind_artifact("component:payments-api", artifact.clone());
    for _ in 0..3 {
        let report = ProviderScanReport::new(
            "fixture-provider",
            "component:payments-api",
            artifact.clone(),
            std::time::SystemTime::UNIX_EPOCH,
            EvidenceFreshness::Deterministic,
            Vec::new(),
        );
        state.record_scan_report(&report).expect("managed artifact");
    }

    let mut progress = PublishIntegrationEventsResult::start(state.pending_integration_events().len());
    let first = state.next_publication(&progress, 5).expect("pending").event_id.clone();
    state.record_publication_outcome(&mut progress, &first, Ok(())).expect("clock");
    assert_eq!((progress.attempted, progress.published, progress.pending_remaining), (1, 1, 2));
    let second = state.next_publication(&progress, 5).expect("pending").event_id.clone();
    assert_ne!(first, second);
    state
        .record_publication_outcome(
            &mut progress,
            &second,
            Err(IntegrationEventPublishError::new(true, "broker down")),
        )
        .expect("clock");
    assert_eq!((progress.attempted, progress.published, progress.pending_remaining), (2, 1, 2));
    let failure = progress.last_failure.as_ref().expect("failure recorded");
    assert_eq!(failure.event_id, second);
    assert_eq!(failure.message, "broker down");
    assert!(state.next_publication(&progress, 5).is_none());
    assert!(state.next_publication(&PublishIntegrationEventsResult::start(2), 0).is_none());
}
