use std::time::SystemTime;
use venom_domain::findings::{
    ActiveFindingsQuery, ArtifactKind, ArtifactRef, BulkGovernanceQuery, EvidenceFreshness,
    FindingGovernanceState, FindingReadModel, FindingRef, PackageCoordinate, ProviderScanReport,
    ReportedFinding, RiskAcceptance, ScopedActiveFindingsQuery, Severity, Suppression,
    DEFAULT_ACTIVE_FINDINGS_PAGE_LIMIT, MAX_ACTIVE_FINDINGS_PAGE_LIMIT,
};
use venom_domain::inventory::CollectionScopedArtifact;

fn artifact() -> ArtifactRef {
    ArtifactRef::new(
        ArtifactKind::ContainerImage,
        "registry.example/payments@sha256:111",
    )
}

fn report(findings: Vec<ReportedFinding>) -> ProviderScanReport {
    ProviderScanReport::new(
        "fixture-provider",
        "component:payments-api",
        artifact(),
        SystemTime::UNIX_EPOCH,
        EvidenceFreshness::Deterministic,
        findings,
    )
}

fn projection_tracks_active_findings() {
    let mut read_model = FindingReadModel::new();
    read_model.record_scan_report(&report(vec![ReportedFinding::new(
        "CVE-2026-0001",
        PackageCoordinate::new("openssl", "3.0.0"),
    )]));

    assert_eq!(
        read_model.active_finding_count("component:payments-api", &artifact()),
        1
    );
    assert!(read_model.has_active_vulnerability(
        "component:payments-api",
        &artifact(),
        "CVE-2026-0001"
    ));
}

fn empty_snapshot_withdraws() {
    let mut read_model = FindingReadModel::new();
    let active = report(vec![ReportedFinding::new(
        "CVE-2026-0001",
        PackageCoordinate::new("openssl", "3.0.0"),
    )]);
    let empty = report(Vec::new());

    read_model.record_scan_report(&active);
    read_model.record_scan_report(&empty);

    assert_eq!(
        read_model.active_finding_count("component:payments-api", &artifact()),
        0
    );
    assert!(!read_model.has_active_vulnerability(
        "component:payments-api",
        &artifact(),
        "CVE-2026-0001"
    ));
}

#[test]
fn projection_tracks_active_findings_for_one_artifact() {
    projection_tracks_active_findings();
}

#[test]
fn finding_read_model_projection_tracks_active_findings_for_one_artifact() {
    projection_tracks_active_findings();
}

#[test]
fn empty_snapshot_withdraws_active_projection() {
    empty_snapshot_withdraws();
}

#[test]
fn finding_read_model_empty_snapshot_withdraws_active_projection() {
    empty_snapshot_withdraws();
}

#[test]
fn query_filters_by_min_severity_and_pages_stably() {
    let mut read_model = FindingReadModel::new();
    read_model.record_scan_report(&report(vec![
        ReportedFinding::new("CVE-2026-0002", PackageCoordinate::new("busybox", "1.36.0"))
            .with_severity(Severity::Low),
        ReportedFinding::new("CVE-2026-0001", PackageCoordinate::new("openssl", "3.0.0"))
            .with_severity(Severity::Critical),
        ReportedFinding::new("CVE-2026-0003", PackageCoordinate::new("glibc", "2.40"))
            .with_severity(Severity::High),
    ]));

    let query = ActiveFindingsQuery::new("component:payments-api", artifact())
        .with_min_severity(Severity::High)
        .with_offset(0)
        .with_limit(1);
    let page = read_model.query_active_findings(&query);

    assert_eq!(page.total, 2);
    assert_eq!(page.returned, 1);
    assert_eq!(page.limit, 1);
    assert_eq!(
        page.findings[0].finding.vulnerability_id.as_str(),
        "CVE-2026-0001"
    );
}

#[test]
fn query_normalizes_zero_and_large_page_limits() {
    let mut read_model = FindingReadModel::new();
    read_model.record_scan_report(&report(vec![ReportedFinding::new(
        "CVE-2026-0001",
        PackageCoordinate::new("openssl", "3.0.0"),
    )]));

    let default_page = read_model.query_active_findings(
        &ActiveFindingsQuery::new("component:payments-api", artifact()).with_limit(0),
    );
    assert_eq!(default_page.limit, DEFAULT_ACTIVE_FINDINGS_PAGE_LIMIT);

    let capped_page = read_model.query_active_findings(
        &ActiveFindingsQuery::new("component:payments-api", artifact())
            .with_limit(MAX_ACTIVE_FINDINGS_PAGE_LIMIT + 100),
    );
    assert_eq!(capped_page.limit, MAX_ACTIVE_FINDINGS_PAGE_LIMIT);
}

fn two_member_read_model() -> (FindingReadModel, Vec<CollectionScopedArtifact>) {
    let mut read_model = FindingReadModel::new();
    read_model.record_scan_report(&report(vec![
        ReportedFinding::new("CVE-2026-0002", PackageCoordinate::new("busybox", "1.36.0"))
            .with_severity(Severity::Low),
        ReportedFinding::new("CVE-2026-0001", PackageCoordinate::new("openssl", "3.0.0"))
            .with_severity(Severity::Critical),
    ]));

    let billing_artifact = ArtifactRef::new(
        ArtifactKind::ContainerImage,
        "registry.example/billing@sha256:222",
    );
    let billing_report = ProviderScanReport::new(
        "fixture-provider",
        "component:billing-api",
        billing_artifact.clone(),
        SystemTime::UNIX_EPOCH,
        EvidenceFreshness::Deterministic,
        vec![
            ReportedFinding::new("CVE-2026-0003", PackageCoordinate::new("nghttp2", "1.61"))
                .with_severity(Severity::High),
        ],
    );
    read_model.record_scan_report(&billing_report);

    let scope = vec![
        CollectionScopedArtifact {
            component_key: "component:payments-api".into(),
            artifact: artifact(),
        },
        CollectionScopedArtifact {
            component_key: "component:billing-api".into(),
            artifact: billing_artifact,
        },
    ];
    (read_model, scope)
}

#[test]
fn scoped_query_aggregates_findings_across_multiple_collection_members() {
    let (read_model, scope) = two_member_read_model();

    let page = read_model.query_scoped_active_findings(
        &scope,
        &ScopedActiveFindingsQuery::new()
            .with_min_severity(Severity::High)
            .with_limit(10),
    );

    assert_eq!(page.total, 2);
    assert_eq!(page.returned, 2);
    assert_eq!(
        page.findings[0].finding.component_key.as_str(),
        "component:payments-api"
    );
    assert_eq!(
        page.findings[0].finding.vulnerability_id.as_str(),
        "CVE-2026-0001"
    );
    assert_eq!(
        page.findings[1].finding.component_key.as_str(),
        "component:billing-api"
    );
    assert_eq!(
        page.findings[1].finding.vulnerability_id.as_str(),
        "CVE-2026-0003"
    );
}

#[test]
fn bulk_governance_finding_refs_are_not_capped_by_page_limit() {
    let mut read_model = FindingReadModel::new();
    let findings = (0..205)
        .map(|index| {
            ReportedFinding::new(
                &format!("CVE-2026-{index:04}"),
                PackageCoordinate::new(&format!("pkg-{index:04}"), "1.0.0"),
            )
            .with_severity(Severity::High)
        })
        .collect::<Vec<_>>();
    read_model.record_scan_report(&report(findings));

    let scope = vec![CollectionScopedArtifact {
        component_key: "component:payments-api".into(),
        artifact: artifact(),
    }];

    let mut cohort = 0;
    for _ in read_model.visit_bulk_governance_finding_refs(
        &scope,
        &BulkGovernanceQuery::new(FindingGovernanceState::Open)
            .with_min_severity(Severity::Unknown),
    ) {
        cohort += 1;
    }

    assert_eq!(cohort, 205);
}

#[test]
fn scoped_query_keeps_ordering_and_pagination_without_full_page_materialization() {
    let (read_model, scope) = two_member_read_model();

    let page = read_model.query_scoped_active_findings(
        &scope,
        &ScopedActiveFindingsQuery::new()
            .with_offset(1)
            .with_limit(1),
    );

    assert_eq!(page.total, 3);
    assert_eq!(page.returned, 1);
    assert_eq!(page.offset, 1);
    assert_eq!(page.limit, 1);
    assert_eq!(
        page.findings[0].finding.component_key.as_str(),
        "component:billing-api"
    );
    assert_eq!(
        page.findings[0].finding.vulnerability_id.as_str(),
        "CVE-2026-0003"
    );
}

fn governed_ref() -> FindingRef {
    FindingRef::new(
        "component:payments-api",
        artifact(),
        "CVE-2026-0001",
        PackageCoordinate::new("openssl", "3.0.0"),
    )
}

#[test]
fn accepted_risk_is_projected_on_active_findings() {
    let mut read_model = FindingReadModel::new();
    read_model.record_scan_report(&report(vec![
        ReportedFinding::new("CVE-2026-0001", PackageCoordinate::new("openssl", "3.0.0"))
            .with_severity(Severity::High),
    ]));

    read_model.accept_risk(
        governed_ref(),
        RiskAcceptance::new("Compensating control in place").until_unix_ms(1_760_000_000_000),
    );

    let page = read_model.query_active_findings(&ActiveFindingsQuery::new(
        "component:payments-api",
        artifact(),
    ));

    assert_eq!(page.findings[0].governance_state.as_str(), "risk-accepted");
    assert_eq!(
        page.findings[0].governance_reason.as_deref(),
        Some("Compensating control in place")
    );
    assert_eq!(
        page.findings[0].governance_until_unix_ms,
        Some(1_760_000_000_000)
    );
}

#[test]
fn suppression_is_projected_on_active_findings() {
    let mut read_model = FindingReadModel::new();
    read_model.record_scan_report(&report(vec![
        ReportedFinding::new("CVE-2026-0001", PackageCoordinate::new("openssl", "3.0.0"))
            .with_severity(Severity::High),
    ]));

    read_model.suppress(governed_ref(), Suppression::new("Known upstream false alarm"));

    let page = read_model.query_active_findings(&ActiveFindingsQuery::new(
        "component:payments-api",
        artifact(),
    ));

    assert_eq!(page.findings[0].governance_state.as_str(), "suppressed");
    assert_eq!(
        page.findings[0].governance_reason.as_deref(),
        Some("Known upstream false alarm")
    );
    assert_eq!(page.findings[0].governance_until_unix_ms, None);
}

#[test]
fn reopening_returns_a_finding_to_open() {
    let mut read_model = FindingReadModel::new();
    read_model.record_scan_report(&report(vec![
        ReportedFinding::new("CVE-2026-0001", PackageCoordinate::new("openssl", "3.0.0"))
            .with_severity(Severity::High),
    ]));
    read_model.suppress(governed_ref(), Suppression::new("false alarm"));
    read_model.reopen(&governed_ref());
    let page = read_model.query_active_findings(&ActiveFindingsQuery::new(
        "component:payments-api",
        artifact(),
    ));
    assert_eq!(page.findings[0].governance_state, FindingGovernanceState::Open);
    assert_eq!(page.findings[0].governance_reason, None);
    assert!(read_model.has_active_finding(&governed_ref()));
}

#[test]
fn query_filters_by_governance_state_and_package() {
    let (mut read_model, scope) = two_member_read_model();
    read_model.accept_risk(governed_ref(), RiskAcceptance::new("ok"));
    let accepted = read_model.query_scoped_active_findings(
        &scope,
        &ScopedActiveFindingsQuery::new().with_governance_state(FindingGovernanceState::RiskAccepted),
    );
    assert_eq!(accepted.total, 1);
    assert_eq!(accepted.findings[0].finding.vulnerability_id.as_str(), "CVE-2026-0001");
    let busybox = read_model.query_active_findings(
        &ActiveFindingsQuery::new("component:payments-api", artifact()).with_package_name("busybox"),
    );
    assert_eq!(busybox.total, 1);
    assert_eq!(busybox.findings[0].severity, Severity::Low);
    let past_end = read_model.query_active_findings(
        &ActiveFindingsQuery::new("component:payments-api", artifact()).with_offset(10),
    );
    assert_eq!(past_end.total, 2);
    assert_eq!(past_end.returned, 0);
    assert!(past_end.findings.is_empty());
}

#[test]
fn bulk_governance_targets_are_counted_and_filtered_by_the_caller() {
    let (read_model, scope) = two_member_read_model();
    let query = BulkGovernanceQuery::new(FindingGovernanceState::Open);

    let (targeted, kept) = read_model.visit_bulk_governance_finding_refs_matching(
        &scope,
        &query,
        |finding: &FindingRef| finding.component_key.as_str() == "component:payments-api",
    );

    assert_eq!(targeted, 3);
    assert_eq!(kept.len(), 2);
    assert!(kept
        .iter()
        .all(|finding| finding.component_key.as_str() == "component:payments-api"));
    let (all, everything) =
        read_model.visit_bulk_governance_finding_refs_matching(&scope, &query, |_: &FindingRef| true);
    assert_eq!(all, 3);
    assert_eq!(everything, read_model.visit_bulk_governance_finding_refs(&scope, &query));
}
