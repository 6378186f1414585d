use std::time::SystemTime;
use venom_domain::findings::{
    build_release_board, build_release_dashboard, query_collection_governance_overview,
    summarize_collection_health, ArtifactKind, ArtifactRef, BulkGovernanceCohortSummary,
    CollectionHealthSummary, ComponentContext, EvidenceFreshness, FindingGovernanceState,
    FindingReadModel, FindingRef, PackageCoordinate, ProviderScanReport, ReportedFinding,
    ScopedActiveFindingsQuery, Severity, Suppression,
};
use venom_domain::inventory::{
    CollectionRegistration, ComponentInventory, ComponentRegistration, ContextProfileValues,
};

fn payments_artifact() -> ArtifactRef {
    ArtifactRef::new(
        ArtifactKind::ContainerImage,
        "registry.example/payments@sha256:111",
    )
}

fn internet_production(component_key: &str) -> ComponentContext {
    ComponentContext {
        component_key: component_key.into(),
        values: Some(ContextProfileValues {
            internet_exposed: Some(true),
            production: Some(true),
            mission_critical: Some(true),
            vpn_restricted: None,
            non_privileged_user: None,
        }),
    }
}

fn inventory_with_collection() -> ComponentInventory {
    let mut inventory = ComponentInventory::default();
    let _ = inventory.register(ComponentRegistration::new(
        "component:payments-api",
        "Payments API",
    ));
    let _ = inventory.bind_artifact("component:payments-api", payments_artifact());
    let _ = inventory.register_collection(CollectionRegistration::new(
        "release:2026.05",
        "May Release",
    ));
    let _ = inventory.add_component_to_collection("release:2026.05", "component:payments-api");
    inventory
}

#[test]
fn collection_health_counts_contextual_and_governed_findings() {
    let inventory = inventory_with_collection();
    let contexts = vec![internet_production("component:payments-api")];
    let mut read_model = FindingReadModel::new();
    let report = ProviderScanReport::new(
        "fixture-provider",
        "component:payments-api",
        payments_artifact(),
        SystemTime::UNIX_EPOCH,
        EvidenceFreshness::Deterministic,
        vec![
            ReportedFinding::new("CVE-2026-0001", PackageCoordinate::new("openssl", "3.0.0"))
                .with_severity(Severity::Medium),
            ReportedFinding::new("CVE-2026-0002", PackageCoordinate::new("busybox", "1.36.0"))
                .with_severity(Severity::Low),
        ],
    );
    read_model.record_scan_report(&report);
    read_model.suppress(
        FindingRef::new(
            "component:payments-api",
            payments_artifact(),
            "CVE-2026-0002",
            PackageCoordinate::new("busybox", "1.36.0"),
        ),
        Suppression::new("Known local suppression"),
    );
    let scope = inventory
        .collection_scoped_artifacts("release:2026.05")
        .expect("the collection scope must exist");
    let summary = summarize_collection_health(&contexts, &read_model, &scope);

    assert_eq!(
        summary,
        CollectionHealthSummary {
            total: 2,
            open: 1,
            risk_accepted: 0,
            suppressed: 1,
            critical_risk: 1,
            high_risk: 1,
        }
    );
}

#[test]
fn collection_governance_overview_keeps_health_for_the_whole_scope() {
    let inventory = inventory_with_collection();
    let contexts = vec![internet_production("component:payments-api")];
    let report = ProviderScanReport::new(
        "fixture-provider",
        "component:payments-api",
        payments_artifact(),
        SystemTime::UNIX_EPOCH,
        EvidenceFreshness::Deterministic,
        vec![
            ReportedFinding::new("CVE-2026-0001", PackageCoordinate::new("openssl", "3.0.0"))
                .with_severity(Severity::Critical),
            ReportedFinding::new("CVE-2026-0002", PackageCoordinate::new("busybox", "1.36.1"))
                .with_severity(Severity::Low),
        ],
    );

    let mut read_model = FindingReadModel::new();
    read_model.record_scan_report(&report);
    read_model.suppress(
        FindingRef::new(
            "component:payments-api",
            payments_artifact(),
            "CVE-2026-0002",
            PackageCoordinate::new("busybox", "1.36.1"),
        ),
        Suppression::new("Known upstream false alarm"),
    );

    let overview = query_collection_governance_overview(
        &inventory,
        &contexts,
        &read_model,
        "release:2026.05",
        &ScopedActiveFindingsQuery::new().with_governance_state(FindingGovernanceState::Suppressed),
    )
    .expect("collection overview should exist");

    assert_eq!(overview.health.total, 2);
    assert_eq!(overview.health.open, 1);
    assert_eq!(overview.health.suppressed, 1);
    assert_eq!(overview.health.risk_accepted, 0);
    assert_eq!(overview.health.critical_risk, 1);
    assert_eq!(overview.health.high_risk, 1);
    assert_eq!(
        overview.bulk_governance,
        BulkGovernanceCohortSummary {
            targeted: 1,
            critical_risk: 0,
            high_risk: 1,
        }
    );
    assert_eq!(overview.page.total, 1);
    assert_eq!(
        overview.page.findings[0].governance_state.as_str(),
        "suppressed"
    );
}

#[test]
fn governance_overview_pages_in_severity_order() {
    let inventory = inventory_with_collection();
    let findings = (0..6)
        .map(|index| {
            ReportedFinding::new(
                &format!("CVE-2026-000{index}"),
                PackageCoordinate::new(&format!("pkg-{index}"), "1.0.0"),
            )
            .with_severity(match index {
                1 | 4 => Severity::Critical,
                2 => Severity::High,
                3 => Severity::Medium,
                5 => Severity::Low,
                _ => Severity::Unknown,
            })
        })
        .collect::<Vec<_>>();
    let report = ProviderScanReport::new(
        "fixture-provider",
        "component:payments-api",
        payments_artifact(),
        SystemTime::UNIX_EPOCH,
        EvidenceFreshness::Deterministic,
        findings,
    );
    let mut read_model = FindingReadModel::new();
    read_model.record_scan_report(&report);

    let overview = query_collection_governance_overview(
        &inventory,
        &[],
        &read_model,
        "release:2026.05",
        &ScopedActiveFindingsQuery::new().with_offset(2).with_limit(2),
    )
    .expect("collection overview should exist");

    assert_eq!(overview.page.total, 6);
    assert_eq!(overview.page.returned, 2);
    assert_eq!(overview.page.findings.len(), 2);
    assert_eq!(overview.page.findings[0].severity, Severity::High);
    assert_eq!(overview.page.findings[1].severity, Severity::Medium);
    assert_eq!(overview.bulk_governance.targeted, 6);
    assert_eq!(overview.health.critical_risk, 2);
    assert!(query_collection_governance_overview(
        &inventory,
        &[],
        &read_model,
        "release:unknown",
        &ScopedActiveFindingsQuery::new(),
    )
    .is_none());
}

#[test]
fn release_dashboard_aggregates_managed_collection_health() {
    let mut inventory = ComponentInventory::default();
    let _ = inventory.register(ComponentRegistration::new(
        "component:payments-api",
        "Payments API",
    ));
    let _ = inventory.bind_artifact("component:payments-api", payments_artifact());
    let _ = inventory.register(ComponentRegistration::new(
        "component:billing-api",
        "Billing API",
    ));
    let _ = inventory.bind_artifact(
        "component:billing-api",
        ArtifactRef::new(
            ArtifactKind::ContainerImage,
            "registry.example/billing@sha256:222",
        ),
    );
    let contexts = vec![internet_production("component:payments-api")];
    let _ = inventory.register_collection(CollectionRegistration::new(
        "release:2026.05",
        "May Release",
    ));
    let _ = inventory.add_component_to_collection("release:2026.05", "component:payments-api");
    let _ = inventory.configure_collection_scan_schedule(
        "release:2026.05",
        60,
        EvidenceFreshness::Deterministic,
        1_000,
    );
    let _ = inventory.register_collection(CollectionRegistration::new(
        "release:2026.06",
        "June Release",
    ));
    let _ = inventory.add_component_to_collection("release:2026.06", "component:billing-api");

    let report = ProviderScanReport::new(
        "fixture-provider",
        "component:payments-api",
        payments_artifact(),
        SystemTime::UNIX_EPOCH,
        EvidenceFreshness::Deterministic,
        vec![
            ReportedFinding::new("CVE-2026-0001", PackageCoordinate::new("openssl", "3.0.0"))
                .with_severity(Severity::Critical),
            ReportedFinding::new("CVE-2026-0002", PackageCoordinate::new("busybox", "1.36.1"))
                .with_severity(Severity::Low),
        ],
    );

    let mut read_model = FindingReadModel::new();
    read_model.record_scan_report(&report);
    read_model.suppress(
        FindingRef::new(
            "component:payments-api",
            payments_artifact(),
            "CVE-2026-0002",
            PackageCoordinate::new("busybox", "1.36.1"),
        ),
        Suppression::new("Known upstream false alarm"),
    );

    let board = build_release_board(&inventory, &contexts, &read_model);
    let dashboard = build_release_dashboard(&board, 1_500);

    assert_eq!(dashboard.summary.managed_collections, 2);
    assert_eq!(dashboard.summary.scheduled_collections, 1);
    assert_eq!(dashboard.summary.due_now_collections, 1);
    assert_eq!(dashboard.summary.total_active_findings, 2);
    assert_eq!(dashboard.summary.open_findings, 1);
    assert_eq!(dashboard.summary.suppressed_findings, 1);
    assert_eq!(dashboard.summary.risk_accepted_findings, 0);
    assert_eq!(dashboard.summary.critical_risk_findings, 1);
    assert_eq!(dashboard.summary.high_risk_findings, 1);
    assert_eq!(
        dashboard.collections[0].collection_key.as_str(),
        "release:2026.05"
    );
    assert!(dashboard.collections[0].due_now);
    assert_eq!(dashboard.collections[0].health.total, 2);
    assert_eq!(
        dashboard.collections[1].collection_key.as_str(),
        "release:2026.06"
    );
    assert_eq!(dashboard.collections[1].health.total, 0);
    assert_eq!(board.collections[0].health.total, 2);
}

#[test]
fn collection_governance_overview_keeps_only_requested_page_window() {
    let inventory = inventory_with_collection();
    let findings = (0..6)
        .map(|index| {
            ReportedFinding::new(
                &format!("CVE-2026-000{index}"),
                PackageCoordinate::new(&format!("pkg-{index}"), "1.0.0"),
            )
            .with_severity(match index {
                1 | 4 => Severity::Critical,
                2 => Severity::High,
                3 => Severity::Medium,
                5 => Severity::Low,
                _ => Severity::Unknown,
            })
        })
        .collect::<Vec<_>>();
    let report = ProviderScanReport::new(
        "fixture-provider",
        "component:payments-api",
        payments_artifact(),
        SystemTime::UNIX_EPOCH,
        EvidenceFreshness::Deterministic,
        findings,
    );
    let mut read_model = FindingReadModel::new();
    read_model.record_scan_report(&report);

    let overview = query_collection_governance_overview(
        &inventory,
        &[],
        &read_model,
        "release:2026.05",
        &ScopedActiveFindingsQuery::new().with_offset(2).with_limit(2),
    )
    .expect("collection overview should exist");

    assert_eq!(overview.page.total, 6);
    assert_eq!(overview.page.returned, 2);
    assert_eq!(overview.page.findings.len(), 2);
    // The findings hold one High finding only. Ordered by severity they are
    // Critical, Critical, High, Medium, Low, Unknown, so the window that
    // starts at the third holds High, then Medium.
    assert_eq!(overview.page.findings[0].severity, Severity::High);
    assert_eq!(overview.page.findings[1].severity, Severity::Medium);
}
