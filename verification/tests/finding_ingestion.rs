use std::time::SystemTime;
use venom_domain::findings::{
    validate_provider_scan_report, ArtifactKind, ArtifactRef, EvidenceFreshness,
    FindingIngestion, FindingIngestionError, FindingProviderContractViolation, PackageCoordinate,
    ProviderScanReport, ReportedFinding, ScanRequest, Severity,
};
use venom_domain::findings::finding_provider_contract::{as_provider_error, is_blank};
use venom_domain::findings::FindingProviderErrorKind;
use venom_domain::inventory::ComponentRegistration;

fn report() -> ProviderScanReport {
    ProviderScanReport::new(
        "fixture-provider",
        "component:payments-api",
        ArtifactRef::new(
            ArtifactKind::ContainerImage,
            "registry.example/payments@sha256:111",
        ),
        SystemTime::UNIX_EPOCH,
        EvidenceFreshness::Deterministic,
        vec![ReportedFinding::new(
            "CVE-2026-0001",
            PackageCoordinate::new("openssl", "3.0.0"),
        )],
    )
}

#[test]
fn unmanaged_components_are_rejected() {
    let mut ingestion = FindingIngestion::new();

    let result = ingestion.record_scan_report(&report());

    assert_eq!(result, Err(FindingIngestionError::UnmanagedComponent));
}

#[test]
fn managed_components_can_record_reports() {
    let mut ingestion = FindingIngestion::new();
    let _ = ingestion
        .inventory_mut()
        .register(ComponentRegistration::new(
            "component:payments-api",
            "Payments API",
        ));
    let _ = ingestion.inventory_mut().bind_artifact(
        "component:payments-api",
        ArtifactRef::new(
            ArtifactKind::ContainerImage,
            "registry.example/payments@sha256:111",
        ),
    );

    let result = ingestion
        .record_scan_report(&report())
        .expect("managed component should accept a provider report");

    assert_eq!(result.discovered, 1);
    assert_eq!(result.active, 1);
}

#[test]
fn managed_components_reject_unbound_artifacts() {
    let mut ingestion = FindingIngestion::new();
    let _ = ingestion
        .inventory_mut()
        .register(ComponentRegistration::new(
            "component:payments-api",
            "Payments API",
        ));

    let result = ingestion.record_scan_report(&report());

    assert_eq!(result, Err(FindingIngestionError::UnmanagedArtifact));
}

#[test]
fn ingestion_error_names_are_stable() {
    assert_eq!(FindingIngestionError::UnmanagedComponent.as_str(), "unmanaged-component");
    assert_eq!(FindingIngestionError::UnmanagedArtifact.as_str(), "unmanaged-artifact");
}

#[test]
fn repeated_ingestion_of_one_snapshot_is_idle() {
    let mut ingestion = FindingIngestion::new();
    let _ = ingestion
        .inventory_mut()
        .register(ComponentRegistration::new("component:payments-api", "Payments API"));
    let _ = ingestion.inventory_mut().bind_artifact(
        "component:payments-api",
        ArtifactRef::new(ArtifactKind::ContainerImage, "registry.example/payments@sha256:111"),
    );
    let _ = ingestion.record_scan_report(&report());
    let again = ingestion.record_scan_report(&report()).expect("managed");
    assert_eq!(again.discovered, 0);
    assert_eq!(again.repeated, 1);
    assert_eq!(again.withdrawn, 0);
    assert!(again.is_idle());
    assert!(ingestion.inventory().is_managed("component:payments-api"));
}

fn request(freshness: EvidenceFreshness) -> ScanRequest {
    ScanRequest::new(
        "component:payments-api",
        ArtifactRef::new(
            ArtifactKind::ContainerImage,
            "registry.example/payments@sha256:111",
        ),
        freshness,
    )
}

fn valid_report(freshness: EvidenceFreshness) -> ProviderScanReport {
    ProviderScanReport::new(
        "fixture-provider",
        "component:payments-api",
        ArtifactRef::new(
            ArtifactKind::ContainerImage,
            "registry.example/payments@sha256:111",
        ),
        SystemTime::UNIX_EPOCH,
        freshness,
        vec![
            ReportedFinding::new("CVE-2026-0001", PackageCoordinate::new("openssl", "3.0.0"))
                .with_provider_finding_key("provider:1")
                .with_severity(Severity::High)
                .with_alias("GHSA-1234"),
        ],
    )
    .with_knowledge_revision("fixture-db:2026-05-14")
}

#[test]
fn deterministic_reports_require_knowledge_revision() {
    let req = request(EvidenceFreshness::Deterministic);
    let report = ProviderScanReport::new(
        "fixture-provider",
        "component:payments-api",
        ArtifactRef::new(
            ArtifactKind::ContainerImage,
            "registry.example/payments@sha256:111",
        ),
        SystemTime::UNIX_EPOCH,
        EvidenceFreshness::Deterministic,
        Vec::new(),
    );

    let result = validate_provider_scan_report("fixture-provider", &req, &report);

    assert_eq!(
        result,
        Err(FindingProviderContractViolation::MissingKnowledgeRevision)
    );
}

#[test]
fn duplicate_findings_are_rejected() {
    let req = request(EvidenceFreshness::Deterministic);
    let finding =
        ReportedFinding::new("CVE-2026-0001", PackageCoordinate::new("openssl", "3.0.0"));
    let report = ProviderScanReport::new(
        "fixture-provider",
        "component:payments-api",
        ArtifactRef::new(
            ArtifactKind::ContainerImage,
            "registry.example/payments@sha256:111",
        ),
        SystemTime::UNIX_EPOCH,
        EvidenceFreshness::Deterministic,
        vec![finding.clone(), finding],
    )
    .with_knowledge_revision("fixture-db:2026-05-14");

    let result = validate_provider_scan_report("fixture-provider", &req, &report);

    assert_eq!(
        result,
        Err(FindingProviderContractViolation::DuplicateFinding)
    );
}

#[test]
fn valid_report_passes_the_contract() {
    let req = request(EvidenceFreshness::Live);
    let report = valid_report(EvidenceFreshness::Live);

    let result = validate_provider_scan_report("fixture-provider", &req, &report);

    assert_eq!(result, Ok(()));
}

#[test]
fn mismatched_echo_fields_are_reported_in_order() {
    let req = request(EvidenceFreshness::Live);
    let report = valid_report(EvidenceFreshness::Live);
    assert_eq!(
        validate_provider_scan_report("other-provider", &req, &report),
        Err(FindingProviderContractViolation::ProviderKeyMismatch)
    );
    let other_component = ScanRequest::new(
        "component:other",
        ArtifactRef::new(ArtifactKind::ContainerImage, "registry.example/payments@sha256:111"),
        EvidenceFreshness::Live,
    );
    assert_eq!(
        validate_provider_scan_report("fixture-provider", &other_component, &report),
        Err(FindingProviderContractViolation::ComponentKeyMismatch)
    );
    let other_artifact = ScanRequest::new(
        "component:payments-api",
        ArtifactRef::new(ArtifactKind::SbomDocument, "registry.example/payments@sha256:111"),
        EvidenceFreshness::Live,
    );
    assert_eq!(
        validate_provider_scan_report("fixture-provider", &other_artifact, &report),
        Err(FindingProviderContractViolation::ArtifactMismatch)
    );
    assert_eq!(
        validate_provider_scan_report(
            "fixture-provider",
            &request(EvidenceFreshness::Deterministic),
            &report
        ),
        Err(FindingProviderContractViolation::FreshnessMismatch)
    );
}

fn report_with(finding: ReportedFinding) -> ProviderScanReport {
    ProviderScanReport::new(
        "fixture-provider",
        "component:payments-api",
        ArtifactRef::new(ArtifactKind::ContainerImage, "registry.example/payments@sha256:111"),
        SystemTime::UNIX_EPOCH,
        EvidenceFreshness::Live,
        vec![finding],
    )
}

#[test]
fn blank_finding_fields_are_rejected() {
    let req = request(EvidenceFreshness::Live);
    let cases = vec![
        (
            ReportedFinding::new(" \t", PackageCoordinate::new("openssl", "3.0.0")),
            FindingProviderContractViolation::EmptyVulnerabilityId,
        ),
        (
            ReportedFinding::new("CVE-1", PackageCoordinate::new("", "3.0.0")),
            FindingProviderContractViolation::EmptyPackageName,
        ),
        (
            ReportedFinding::new("CVE-1", PackageCoordinate::new("openssl", "\u{3000}")),
            FindingProviderContractViolation::EmptyPackageVersion,
        ),
        (
            ReportedFinding::new("CVE-1", PackageCoordinate::new("openssl", "3.0.0"))
                .with_provider_finding_key("  "),
            FindingProviderContractViolation::EmptyProviderFindingKey,
        ),
        (
            ReportedFinding::new("CVE-1", PackageCoordinate::new("openssl", "3.0.0"))
                .with_alias("GHSA-1")
                .with_alias("\n"),
            FindingProviderContractViolation::EmptyAlias,
        ),
    ];
    for (finding, expected) in cases {
        assert_eq!(
            validate_provider_scan_report("fixture-provider", &req, &report_with(finding)),
            Err(expected)
        );
    }
}

#[test]
fn blank_text_follows_trim() {
    for text in ["", " ", "\t\n\r", "\u{a0}\u{2003}\u{3000}", "\u{85}"] {
        assert_eq!(is_blank(text), text.trim().is_empty());
        assert!(is_blank(text));
    }
    for text in ["a", " a ", "\u{200b}", "-"] {
        assert_eq!(is_blank(text), text.trim().is_empty());
        assert!(!is_blank(text));
    }
}

#[test]
fn contract_violation_becomes_a_corrupt_response() {
    let error = as_provider_error(FindingProviderContractViolation::DuplicateFinding);
    assert_eq!(error.kind, FindingProviderErrorKind::CorruptResponse);
    assert!(!error.retryable);
    assert_eq!(
        error.message,
        "report must not contain duplicate finding fingerprints for one artifact"
    );
}
