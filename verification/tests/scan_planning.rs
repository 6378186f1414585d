use std::time::SystemTime;
use venom_domain::findings::{
    ArtifactKind, ArtifactRef, EvidenceFreshness, FindingIngestion, FindingIngestionError,
    FindingProviderError, FindingProviderErrorKind, PackageCoordinate, ProviderScanReport,
    ReportedFinding, ScanRequest,
};
use venom_domain::inventory::{CollectionRegistration, ComponentInventory, ComponentRegistration};
use venom_domain::scanning::{
    complete_scan, CollectionScanPlanningError, CollectionScanScheduler, ScanExecutionError,
    ScanPlanner, ScanPlanningError,
};

fn artifact(identity: &str) -> ArtifactRef {
    ArtifactRef::new(ArtifactKind::ContainerImage, identity)
}

#[test]
fn unmanaged_component_cannot_plan_a_scan() {
    let inventory = ComponentInventory::default();
    let planner = ScanPlanner::new(&inventory);

    let result = planner.plan(
        "component:payments-api",
        artifact("registry.example/payments@sha256:111"),
        EvidenceFreshness::Deterministic,
    );

    assert_eq!(result, Err(ScanPlanningError::UnmanagedComponent));
}

#[test]
fn managed_component_needs_owned_artifact_to_plan_a_scan() {
    let mut inventory = ComponentInventory::default();
    let _ = inventory.register(ComponentRegistration::new(
        "component:payments-api",
        "Payments API",
    ));
    let planner = ScanPlanner::new(&inventory);

    let result = planner.plan(
        "component:payments-api",
        artifact("registry.example/payments@sha256:111"),
        EvidenceFreshness::Deterministic,
    );

    assert_eq!(result, Err(ScanPlanningError::UnmanagedArtifact));
}

#[test]
fn managed_component_can_plan_a_live_scan_for_owned_artifact() {
    let mut inventory = ComponentInventory::default();
    let _ = inventory.register(ComponentRegistration::new(
        "component:payments-api",
        "Payments API",
    ));
    let _ = inventory.bind_artifact(
        "component:payments-api",
        artifact("registry.example/payments@sha256:111"),
    );
    let planner = ScanPlanner::new(&inventory);

    let request = planner
        .plan(
            "component:payments-api",
            artifact("registry.example/payments@sha256:111"),
            EvidenceFreshness::Live,
        )
        .expect("owned artifact should produce a canonical scan request");

    assert_eq!(request.component_key.as_str(), "component:payments-api");
    assert_eq!(
        request.artifact.identity.as_str(),
        "registry.example/payments@sha256:111"
    );
    assert_eq!(request.freshness, EvidenceFreshness::Live);
}

#[test]
fn unmanaged_collection_cannot_plan_a_scan_batch() {
    let inventory = ComponentInventory::default();
    let planner = ScanPlanner::new(&inventory);

    let result = planner.plan_collection("release:2026.05", EvidenceFreshness::Deterministic);

    assert_eq!(
        result,
        Err(CollectionScanPlanningError::UnmanagedCollection)
    );
}

#[test]
fn managed_collection_expands_to_all_owned_artifacts() {
    let mut inventory = ComponentInventory::default();
    let _ = inventory.register(ComponentRegistration::new(
        "component:payments-api",
        "Payments API",
    ));
    let _ = inventory.register(ComponentRegistration::new(
        "component:billing-api",
        "Billing API",
    ));
    let _ = inventory.bind_artifact(
        "component:payments-api",
        artifact("registry.example/payments@sha256:111"),
    );
    let _ = inventory.bind_artifact(
        "component:billing-api",
        artifact("registry.example/billing@sha256:222"),
    );
    let _ = inventory.register_collection(CollectionRegistration::new(
        "release:2026.05",
        "May Release",
    ));
    let _ = inventory.add_component_to_collection("release:2026.05", "component:billing-api");
    let _ = inventory.add_component_to_collection("release:2026.05", "component:payments-api");
    let planner = ScanPlanner::new(&inventory);

    let batch = planner
        .plan_collection("release:2026.05", EvidenceFreshness::Deterministic)
        .expect("managed collection should expand to a canonical scan batch");

    assert_eq!(batch.collection_key.as_str(), "release:2026.05");
    assert_eq!(batch.requests.len(), 2);
    assert_eq!(
        batch.requests[0].component_key.as_str(),
        "component:billing-api"
    );
    assert_eq!(
        batch.requests[0].artifact.identity.as_str(),
        "registry.example/billing@sha256:222"
    );
    assert_eq!(
        batch.requests[1].component_key.as_str(),
        "component:payments-api"
    );
    assert_eq!(
        batch.requests[1].artifact.identity.as_str(),
        "registry.example/payments@sha256:111"
    );
}

#[test]
fn planning_error_names_are_stable() {
    assert_eq!(ScanPlanningError::UnmanagedComponent.as_str(), "unmanaged-component");
    assert_eq!(ScanPlanningError::UnmanagedArtifact.as_str(), "unmanaged-artifact");
    assert_eq!(
        CollectionScanPlanningError::UnmanagedCollection.as_str(),
        "unmanaged-collection"
    );
}

#[test]
fn due_collection_scan_plans_materialization_without_mutating_inventory() {
    let mut inventory = ComponentInventory::default();
    let _ = inventory.register(ComponentRegistration::new(
        "component:payments-api",
        "Payments API",
    ));
    let _ = inventory.bind_artifact(
        "component:payments-api",
        artifact("registry.example/payments@sha256:111"),
    );
    let _ = inventory.register_collection(CollectionRegistration::new(
        "release:2026.05",
        "May Release",
    ));
    let _ = inventory.add_component_to_collection("release:2026.05", "component:payments-api");
    let _ = inventory.configure_collection_scan_schedule(
        "release:2026.05",
        60,
        EvidenceFreshness::Deterministic,
        1_000,
    );

    let due = CollectionScanScheduler::new(&mut inventory).collect_due(1_500, 8);

    assert_eq!(due.len(), 1);
    assert_eq!(due[0].collection_key.as_str(), "release:2026.05");
    assert_eq!(due[0].requests.len(), 1);
    assert_eq!(
        due[0].requests[0].artifact.identity.as_str(),
        "registry.example/payments@sha256:111"
    );
    assert_eq!(due[0].next_due_at_unix_ms, 3_601_500);
    assert_eq!(
        inventory
            .collection_scan_schedule("release:2026.05")
            .expect("schedule should remain configured")
            .next_due_at_unix_ms,
        1_000
    );
    assert_eq!(
        inventory
            .collection_scan_schedule("release:2026.05")
            .expect("schedule should remain configured")
            .last_materialized_at_unix_ms,
        None
    );
    assert_eq!(
        inventory
            .collection_scan_schedule("release:2026.05")
            .expect("schedule should remain configured")
            .last_enqueued_commands,
        None
    );
}

#[test]
fn scheduler_skips_collections_not_yet_due_and_saturates_next_due() {
    let mut inventory = ComponentInventory::default();
    let _ = inventory.register_collection(CollectionRegistration::new("a", "A"));
    let _ = inventory.register_collection(CollectionRegistration::new("b", "B"));
    let _ = inventory.configure_collection_scan_schedule("a", 1, EvidenceFreshness::Live, 10);
    let _ = inventory.configure_collection_scan_schedule("b", 1, EvidenceFreshness::Live, 5_000);
    let mut scheduler = CollectionScanScheduler::new(&inventory);
    let due = scheduler.collect_due(u64::MAX - 1, 8);
    assert_eq!(due.len(), 2);
    assert_eq!(due[0].collection_key.as_str(), "a");
    assert_eq!(due[0].due_at_unix_ms, 10);
    assert_eq!(due[0].next_due_at_unix_ms, u64::MAX);
    assert!(due[0].requests.is_empty());
    let later = scheduler.collect_due(100, 8);
    assert_eq!(later.len(), 1);
    assert_eq!(later[0].next_due_at_unix_ms, 60_100);
    assert!(scheduler.collect_due(100, 0).is_empty());
}

fn managed_ingestion() -> (FindingIngestion, ScanRequest) {
    let mut ingestion = FindingIngestion::new();
    let owned = artifact("registry.example/payments@sha256:111");
    let _ = ingestion
        .inventory_mut()
        .register(ComponentRegistration::new("component:payments-api", "Payments API"));
    let _ = ingestion
        .inventory_mut()
        .bind_artifact("component:payments-api", owned.clone());
    let request = ScanPlanner::new(ingestion.inventory())
        .plan("component:payments-api", owned, EvidenceFreshness::Deterministic)
        .expect("managed ownership should plan a scan");
    (ingestion, request)
}

fn answer(request: &ScanRequest) -> ProviderScanReport {
    ProviderScanReport::new(
        "fake-provider",
        request.component_key.as_str(),
        request.artifact.clone(),
        SystemTime::UNIX_EPOCH,
        request.freshness,
        vec![ReportedFinding::new("CVE-2026-0001", PackageCoordinate::new("openssl", "3.0.0"))],
    )
    .with_knowledge_revision("fake-db:2026-05-14")
}

#[test]
fn completed_scan_applies_provider_findings() {
    let (mut ingestion, request) = managed_ingestion();
    let report = answer(&request);
    let result = complete_scan(&mut ingestion, "fake-provider", &request, Ok(report))
        .expect("provider execution should succeed");
    assert_eq!(result.provider_key.as_str(), "fake-provider");
    assert_eq!(result.findings_reported, 1);
    assert_eq!(result.change_set.discovered, 1);
    assert_eq!(result.change_set.active, 1);
}

#[test]
fn provider_failure_is_passed_on() {
    let (mut ingestion, request) = managed_ingestion();
    let error = FindingProviderError::new(FindingProviderErrorKind::Unavailable, true, "scanner unavailable");
    let result = complete_scan(&mut ingestion, "fake-provider", &request, Err(error.clone()));
    assert_eq!(result, Err(ScanExecutionError::Provider(error)));
    assert_eq!(
        ScanExecutionError::Provider(FindingProviderError::new(
            FindingProviderErrorKind::Unavailable,
            true,
            "x"
        ))
        .as_str(),
        "provider-error"
    );
}

#[test]
fn report_breaking_the_contract_is_a_corrupt_response() {
    let (mut ingestion, request) = managed_ingestion();
    let report = answer(&request);
    let result = complete_scan(&mut ingestion, "other-provider", &request, Ok(report));
    match result {
        Err(ScanExecutionError::Provider(error)) => {
            assert_eq!(error.kind, FindingProviderErrorKind::CorruptResponse);
            assert!(!error.retryable);
            assert_eq!(error.message, "report provider key does not match the adapter key");
        }
        other => panic!("unexpected outcome {other:?}"),
    }
}

#[test]
fn completed_scan_still_respects_ingestion_guards() {
    let mut ingestion = FindingIngestion::new();
    let request = ScanRequest::new(
        "component:payments-api",
        artifact("registry.example/payments@sha256:111"),
        EvidenceFreshness::Deterministic,
    );
    let report = answer(&request);
    let result = complete_scan(&mut ingestion, "fake-provider", &request, Ok(report));
    assert_eq!(
        result,
        Err(ScanExecutionError::Ingestion(FindingIngestionError::UnmanagedComponent))
    );
    assert_eq!(
        ScanExecutionError::Ingestion(FindingIngestionError::UnmanagedArtifact).as_str(),
        "unmanaged-artifact"
    );
}
