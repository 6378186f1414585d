use std::time::SystemTime;
use venom_domain::findings::{
    ArtifactKind, ArtifactRef, EvidenceFreshness, FindingTracker, PackageCoordinate,
    ProviderScanReport, ReportedFinding, Severity,
};

fn report(findings: Vec<ReportedFinding>) -> ProviderScanReport {
    ProviderScanReport::new(
        "fixture-provider",
        "component:payments-api",
        ArtifactRef::new(
            ArtifactKind::ContainerImage,
            "registry.example/payments@sha256:111",
        ),
        SystemTime::UNIX_EPOCH,
        EvidenceFreshness::Deterministic,
        findings,
    )
}

fn openssl_finding() -> ReportedFinding {
    ReportedFinding::new("CVE-2026-0001", PackageCoordinate::new("openssl", "3.0.0"))
        .with_severity(Severity::High)
}

#[test]
fn first_snapshot_discovers_one_active_finding() {
    let mut tracker = FindingTracker::new();

    let change_set = tracker.record_scan_report(&report(vec![openssl_finding()]));

    assert_eq!(change_set.discovered, 1);
    assert_eq!(change_set.repeated, 0);
    assert_eq!(change_set.withdrawn, 0);
    assert_eq!(change_set.active, 1);
}

#[test]
fn repeated_snapshot_does_not_discover_the_same_finding_twice() {
    let mut tracker = FindingTracker::new();
    let report = report(vec![openssl_finding()]);

    let first = tracker.record_scan_report(&report);
    let second = tracker.record_scan_report(&report);

    assert_eq!(first.discovered, 1);
    assert_eq!(second.discovered, 0);
    assert_eq!(second.repeated, 1);
    assert_eq!(second.withdrawn, 0);
    assert_eq!(second.active, 1);
    assert!(second.is_idle());
}

#[test]
fn missing_finding_is_withdrawn_when_next_snapshot_is_empty() {
    let mut tracker = FindingTracker::new();

    let _ = tracker.record_scan_report(&report(vec![openssl_finding()]));
    let withdrawn = tracker.record_scan_report(&report(Vec::new()));

    assert_eq!(withdrawn.discovered, 0);
    assert_eq!(withdrawn.repeated, 0);
    assert_eq!(withdrawn.withdrawn, 1);
    assert_eq!(withdrawn.active, 0);
}

#[test]
fn duplicate_identities_in_one_snapshot_count_once() {
    let mut tracker = FindingTracker::new();
    let other = ReportedFinding::new("CVE-2026-0002", PackageCoordinate::new("zlib", "1.3"));
    let first = tracker.record_scan_report(&report(vec![
        openssl_finding(),
        openssl_finding().with_severity(Severity::Low),
        other.clone(),
    ]));
    assert_eq!(first.discovered, 2);
    assert_eq!(first.active, 2);
    let second = tracker.record_scan_report(&report(vec![
        other,
        ReportedFinding::new("CVE-2026-0003", PackageCoordinate::new("zlib", "1.3")),
    ]));
    assert_eq!(second.discovered, 1);
    assert_eq!(second.repeated, 1);
    assert_eq!(second.withdrawn, 1);
    assert_eq!(second.active, 2);
    assert!(!second.is_idle());
}

#[test]
fn snapshots_of_other_artifacts_are_independent() {
    let mut tracker = FindingTracker::default();
    let _ = tracker.record_scan_report(&report(vec![openssl_finding()]));
    let sbom = ProviderScanReport::new(
        "fixture-provider",
        "component:payments-api",
        ArtifactRef::new(ArtifactKind::SbomDocument, "sbom:sha256:abc"),
        SystemTime::UNIX_EPOCH,
        EvidenceFreshness::Live,
        vec![openssl_finding()],
    );
    let change = tracker.record_scan_report(&sbom);
    assert_eq!(change.discovered, 1);
    assert_eq!(change.repeated, 0);
}
