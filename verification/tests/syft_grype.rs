use venom_domain::scanning::syft_grype::time_of_unix_nanos;
use std::time::{Duration, SystemTime, UNIX_EPOCH};
use venom_domain::findings::{
    ArtifactKind, ArtifactRef, EvidenceFreshness, FindingProviderErrorKind, ScanRequest, Severity,
};
use venom_domain::scanning::syft_grype::{
    bounded_error_text, build_report_from_documents, canonical_image_identity, docker_grype_args,
    docker_syft_args, ensure_live_container_request, normalize_severity, to_reported_finding,
    GrypeAdvisory, GrypeArtifact, GrypeDbStatus, GrypeDescriptor, GrypeDescriptorDb, GrypeFix,
    GrypeMatch, GrypeRelatedVulnerability, GrypeReport, GrypeSource, GrypeSourceTarget,
    GrypeVulnerability, SyftDocument, SyftSource, SyftSourceMetadata,
    DEFAULT_LIVE_COMMAND_TIMEOUT_SECS, MAX_ERROR_TEXT_BYTES, OFFICIAL_GRYPE_IMAGE,
    OFFICIAL_SYFT_IMAGE, SYFT_GRYPE_PROVIDER_KEY,
};

const IDENTITY: &str = "alpine@sha256:abc";

fn syft() -> SyftDocument {
    SyftDocument {
        source: SyftSource {
            name: Some("alpine".into()),
            metadata: SyftSourceMetadata {
                repo_digests: vec!["docker.io/library/alpine@sha256:abc".into()],
                manifest_digest: Some("sha256:abc".into()),
            },
        },
    }
}

fn vulnerability(id: &str) -> GrypeVulnerability {
    GrypeVulnerability {
        id: id.into(),
        severity: Some("HIGH".into()),
        fix: GrypeFix { versions: vec!["3.0.9".into(), "3.1.0".into()] },
        related_vulnerabilities: vec![
            GrypeRelatedVulnerability { id: "GHSA-b".into() },
            GrypeRelatedVulnerability { id: id.into() },
        ],
        advisories: vec![
            GrypeAdvisory { id: "GHSA-a".into() },
            GrypeAdvisory { id: "GHSA-b".into() },
        ],
    }
}

fn grype(timestamp: Option<&str>) -> GrypeReport {
    GrypeReport {
        matches: vec![GrypeMatch {
            vulnerability: vulnerability("CVE-2026-0001"),
            artifact: GrypeArtifact {
                id: "pkg-1".into(),
                name: "openssl".into(),
                version: "3.0.8".into(),
                purl: Some("pkg:apk/alpine/openssl@3.0.8".into()),
            },
        }],
        source: GrypeSource {
            target: GrypeSourceTarget {
                user_input: Some("alpine@sha256:old".into()),
                repo_digests: Vec::new(),
                manifest_digest: Some("sha256:abc".into()),
            },
        },
        descriptor: GrypeDescriptor {
            timestamp: timestamp.map(Into::into),
            db: GrypeDescriptorDb {
                status: GrypeDbStatus {
                    schema_version: Some("v6.0.2".into()),
                    built: Some("2026-05-14T00:00:00Z".into()),
                },
            },
        },
    }
}

fn request(freshness: EvidenceFreshness) -> ScanRequest {
    ScanRequest::new(
        "component:payments-api",
        ArtifactRef::new(ArtifactKind::ContainerImage, IDENTITY),
        freshness,
    )
}

#[test]
fn official_images_are_pinned() {
    assert_eq!(OFFICIAL_SYFT_IMAGE, "ghcr.io/anchore/syft:v1.44.0");
    assert_eq!(OFFICIAL_GRYPE_IMAGE, "ghcr.io/anchore/grype:v0.112.0");
    assert_eq!(Duration::from_secs(DEFAULT_LIVE_COMMAND_TIMEOUT_SECS), Duration::from_secs(60));
}

#[test]
fn provider_error_text_is_bounded() {
    let bytes = vec![b'x'; MAX_ERROR_TEXT_BYTES + 128];
    let text = bounded_error_text(&bytes);

    assert!(text.starts_with('x'));
    assert!(text.ends_with("…[truncated]"));
    assert!(text.len() <= MAX_ERROR_TEXT_BYTES + "…[truncated]".len());
}

#[test]
fn short_error_text_is_trimmed_and_not_marked() {
    assert_eq!(bounded_error_text(b"  no such image \n"), "no such image");
    assert_eq!(bounded_error_text(b""), "");
}

#[test]
fn severities_are_named_whatever_their_case() {
    assert_eq!(normalize_severity(Some("Critical")), Severity::Critical);
    assert_eq!(normalize_severity(Some("hIgH")), Severity::High);
    assert_eq!(normalize_severity(Some("medium")), Severity::Medium);
    assert_eq!(normalize_severity(Some("LOW")), Severity::Low);
    assert_eq!(normalize_severity(Some("none")), Severity::NoImpact);
    assert_eq!(normalize_severity(Some("negligible")), Severity::Unknown);
    assert_eq!(normalize_severity(None), Severity::Unknown);
}

#[test]
fn documents_name_their_image_identities() {
    assert_eq!(
        syft().identity_candidates(),
        vec![
            String::from("docker.io/library/alpine@sha256:abc"),
            String::from("alpine@sha256:abc")
        ]
    );
    assert_eq!(grype(None).identity_candidates(), vec![String::from("alpine@sha256:abc")]);
    assert_eq!(
        canonical_image_identity(&syft()).expect("syft names an identity"),
        "docker.io/library/alpine@sha256:abc"
    );
    let anonymous = GrypeSourceTarget {
        user_input: None,
        repo_digests: Vec::new(),
        manifest_digest: None,
    };
    assert_eq!(anonymous.image_name(), "unknown-image");
}

#[test]
fn a_document_without_identity_has_no_canonical_one() {
    let mut document = syft();
    document.source.metadata.repo_digests.clear();
    document.source.name = None;

    let error = canonical_image_identity(&document).expect_err("no identity is named");

    assert_eq!(error.kind, FindingProviderErrorKind::CorruptResponse);
    assert_eq!(error.message, "syft source did not expose a canonical immutable image identity");
}

#[test]
fn matches_become_canonical_findings() {
    let report = grype(None);
    let finding = to_reported_finding(&report.matches[0]);

    assert_eq!(finding.vulnerability_id, "CVE-2026-0001");
    assert_eq!(finding.provider_finding_key.as_deref(), Some("grype:pkg-1:CVE-2026-0001"));
    assert_eq!(finding.severity, Severity::High);
    assert_eq!(finding.fix_version.as_deref(), Some("3.0.9"));
    assert_eq!(finding.aliases, vec![String::from("GHSA-a"), String::from("GHSA-b")]);
    assert_eq!(finding.package.purl.as_deref(), Some("pkg:apk/alpine/openssl@3.0.8"));
}

#[test]
fn reports_are_built_from_matching_documents() {
    let report = build_report_from_documents(
        &request(EvidenceFreshness::Live),
        &syft(),
        &grype(Some("2026-05-14T10:00:00Z")),
    )
    .expect("documents match the request");

    assert_eq!(report.provider_key, SYFT_GRYPE_PROVIDER_KEY);
    assert_eq!(report.component_key, "component:payments-api");
    assert_eq!(report.findings.len(), 1);
    assert_eq!(report.knowledge_revision.as_deref(), Some("grype-db:v6.0.2:2026-05-14T00:00:00Z"));
    assert_eq!(
        report.observed_at,
        UNIX_EPOCH + Duration::from_secs(1_778_752_800)
    );
}

#[test]
fn reports_without_a_timestamp_are_observed_at_the_epoch() {
    let report =
        build_report_from_documents(&request(EvidenceFreshness::Live), &syft(), &grype(None))
            .expect("documents match the request");

    assert_eq!(report.observed_at, SystemTime::UNIX_EPOCH);
}

#[test]
fn documents_of_another_image_are_refused() {
    let other = ScanRequest::new(
        "component:payments-api",
        ArtifactRef::new(ArtifactKind::ContainerImage, "alpine@sha256:def"),
        EvidenceFreshness::Live,
    );

    let error = build_report_from_documents(&other, &syft(), &grype(None))
        .expect_err("the documents describe another image");

    assert_eq!(error.kind, FindingProviderErrorKind::CorruptResponse);
    assert!(!error.retryable);
    assert_eq!(
        error.message,
        "syft source did not match requested artifact identity `alpine@sha256:def`"
    );
}

#[test]
fn malformed_timestamps_are_refused() {
    let error = build_report_from_documents(
        &request(EvidenceFreshness::Live),
        &syft(),
        &grype(Some("yesterday")),
    )
    .expect_err("the timestamp is not RFC 3339");

    assert_eq!(error.kind, FindingProviderErrorKind::CorruptResponse);
    assert!(error.message.starts_with("failed to parse RFC3339 timestamp `yesterday`: "));
}

#[test]
fn docker_runs_serve_live_container_requests_only() {
    let error = ensure_live_container_request(&request(EvidenceFreshness::Deterministic))
        .expect_err("deterministic requests are refused");
    assert_eq!(error.kind, FindingProviderErrorKind::InvalidRequest);
    assert_eq!(error.message, "docker-backed syft-grype provider only supports live freshness");

    let repository = ScanRequest::new(
        "component:payments-api",
        ArtifactRef::new(ArtifactKind::SbomDocument, "sbom@sha256:123"),
        EvidenceFreshness::Live,
    );
    let error = ensure_live_container_request(&repository).expect_err("only images are served");
    assert_eq!(
        error.message,
        "docker-backed syft-grype provider currently supports only container images"
    );

    assert!(ensure_live_container_request(&request(EvidenceFreshness::Live)).is_ok());
}

#[test]
fn docker_arguments_name_the_image_and_the_output_format() {
    assert_eq!(
        docker_syft_args(OFFICIAL_SYFT_IMAGE, &request(EvidenceFreshness::Live)),
        vec!["run", "--rm", OFFICIAL_SYFT_IMAGE, IDENTITY, "-o", "syft-json"]
    );
    assert_eq!(
        docker_grype_args(OFFICIAL_GRYPE_IMAGE),
        vec!["run", "--rm", "-i", OFFICIAL_GRYPE_IMAGE, "-o", "json"]
    );
}

#[test]
fn unix_nanoseconds_become_times_on_both_sides_of_the_epoch() {
    assert_eq!(
        time_of_unix_nanos(1_500_000_123),
        Some(UNIX_EPOCH + Duration::new(1, 500_000_123))
    );
    assert_eq!(time_of_unix_nanos(-2_000_000_000), UNIX_EPOCH.checked_sub(Duration::from_secs(2)));
    assert_eq!(time_of_unix_nanos(i128::MIN), None);
}
