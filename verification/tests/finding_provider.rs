use std::time::SystemTime;
use venom_domain::findings::finding_provider::severity_rank;
use venom_domain::findings::{
    ArtifactKind, ArtifactRef, EvidenceFreshness, FindingProviderError, FindingProviderErrorKind,
    PackageCoordinate, ProviderScanReport, ReportedFinding, ScanRequest, Severity,
};

#[test]
fn scan_request_artifacts_can_use_immutable_image_identities() {
    let artifact = ArtifactRef::new(
        ArtifactKind::ContainerImage,
        "registry.example/app@sha256:123",
    );

    assert_eq!(artifact.kind, ArtifactKind::ContainerImage);
    assert_eq!(&*artifact.identity, "registry.example/app@sha256:123");
}

#[test]
fn provider_scan_report_keeps_freshness_and_knowledge_revision() {
    let finding = ReportedFinding::new(
        "CVE-2026-0001",
        PackageCoordinate::new("openssl", "3.0.0").with_purl("pkg:apk/openssl@3.0.0"),
    )
    .with_fix_version("3.0.1")
    .with_severity(Severity::High)
    .with_alias("GHSA-1234");

    let report = ProviderScanReport::new(
        "syft-grype",
        "component:payments-api",
        ArtifactRef::new(ArtifactKind::SbomDocument, "sbom:sha256:abc"),
        SystemTime::UNIX_EPOCH,
        EvidenceFreshness::Deterministic,
        vec![finding],
    )
    .with_knowledge_revision("grype-db:2026-05-14");

    assert_eq!(report.provider_key.as_str(), "syft-grype");
    assert_eq!(report.freshness, EvidenceFreshness::Deterministic);
    assert_eq!(
        report.knowledge_revision.as_deref(),
        Some("grype-db:2026-05-14")
    );
    assert_eq!(report.findings.len(), 1);
}

#[test]
fn reported_finding_builders_keep_every_field() {
    let finding = ReportedFinding::new("CVE-1", PackageCoordinate::new("zlib", "1.3"))
        .with_provider_finding_key("p:1")
        .with_fix_version("1.3.1")
        .with_severity(Severity::Medium)
        .with_alias("GHSA-a")
        .with_alias("GHSA-b");
    assert_eq!(finding.vulnerability_id, "CVE-1");
    assert_eq!(finding.provider_finding_key.as_deref(), Some("p:1"));
    assert_eq!(finding.fix_version.as_deref(), Some("1.3.1"));
    assert_eq!(finding.severity, Severity::Medium);
    assert_eq!(finding.aliases, vec!["GHSA-a".to_string(), "GHSA-b".to_string()]);
    assert_eq!(finding.package.purl, None);
    assert_eq!(finding.clone(), finding);
}

#[test]
fn artifacts_compare_by_kind_and_identity() {
    let a = ArtifactRef::new(ArtifactKind::ContainerImage, "x");
    assert!(a.same_as(&ArtifactRef::new(ArtifactKind::ContainerImage, "x")));
    assert!(!a.same_as(&ArtifactRef::new(ArtifactKind::SbomDocument, "x")));
    assert!(!a.same_as(&ArtifactRef::new(ArtifactKind::ContainerImage, "y")));
}

#[test]
fn severity_ranks_run_from_unknown_to_critical() {
    let scale = [
        Severity::Unknown,
        Severity::NoImpact,
        Severity::Low,
        Severity::Medium,
        Severity::High,
        Severity::Critical,
    ];
    for (index, severity) in scale.iter().enumerate() {
        assert_eq!(severity_rank(*severity) as usize, index);
    }
}

#[test]
fn request_and_error_constructors_keep_their_fields() {
    let request = ScanRequest::new(
        "component:a",
        ArtifactRef::new(ArtifactKind::SbomDocument, "sbom:1"),
        EvidenceFreshness::Live,
    );
    assert_eq!(request.component_key, "component:a");
    assert_eq!(request.clone(), request);
    let error = FindingProviderError::new(FindingProviderErrorKind::RateLimited, true, "slow down");
    assert_eq!(error.kind, FindingProviderErrorKind::RateLimited);
    assert!(error.retryable);
    assert_eq!(error.message, "slow down");
}
