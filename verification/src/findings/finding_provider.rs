//! Canonical provider boundary: what a finding provider is asked for and what
//! it reports back.

use crate::collections::Ordered;
use crate::order::{copy_opt, copy_texts, lemma_text_order, opt_text, owned, text_before, text_eq, text_rank, texts, Rank};
use vstd::prelude::*;

verus! {

#[verifier::external_type_specification]
#[verifier::external_body]
pub struct ExSystemTime(std::time::SystemTime);

/// Kind of immutable artifact a provider can observe.
#[derive(Debug, Clone, Copy, PartialEq, Eq, Hash, Structural)]
pub enum ArtifactKind {
    /// A container image identified by an immutable digest.
    ContainerImage,
    /// A software bill of materials identified by an immutable digest.
    SbomDocument,
}

/// Position of an artifact kind in the artifact order.
pub open spec fn kind_index(k: ArtifactKind) -> int {
    match k {
        ArtifactKind::ContainerImage => 0,
        ArtifactKind::SbomDocument => 1,
    }
}

/// Canonical identity of the exact thing that was scanned.
#[derive(Debug, PartialEq, Eq, Hash)]
pub struct ArtifactRef {
    /// The class of artifact that was scanned.
    pub kind: ArtifactKind,
    /// Immutable identifier such as `image@sha256:...` or `sbom:sha256:...`.
    pub identity: String,
}

impl View for ArtifactRef {
    type V = (ArtifactKind, Seq<char>);

    open spec fn view(&self) -> (ArtifactKind, Seq<char>) {
        (self.kind, self.identity@)
    }
}

impl Clone for ArtifactRef {
    fn clone(&self) -> (r: Self)
        ensures
            r == *self,
    {
        ArtifactRef { kind: self.kind, identity: self.identity.clone() }
    }
}

impl ArtifactRef {
    pub fn new(kind: ArtifactKind, identity: &str) -> (r: Self)
        ensures
            r.kind == kind,
            r.identity@ == identity@,
    {
        ArtifactRef { kind, identity: owned(identity) }
    }

    /// Whether two artifact references name the same artifact.
    pub fn same_as(&self, other: &ArtifactRef) -> (r: bool)
        ensures
            r == (self@ == other@),
    {
        self.kind == other.kind && text_eq(self.identity.as_str(), other.identity.as_str())
    }
}

/// Artifacts are ordered by kind, then by identity.
pub open spec fn artifact_before(a: (ArtifactKind, Seq<char>), b: (ArtifactKind, Seq<char>)) -> bool {
    kind_index(a.0) < kind_index(b.0) || (a.0 == b.0 && text_before(a.1, b.1))
}

/// The order of artifacts is a strict total order.
pub proof fn lemma_artifact_order(
    a: (ArtifactKind, Seq<char>),
    b: (ArtifactKind, Seq<char>),
    c: (ArtifactKind, Seq<char>),
)
    ensures
        !artifact_before(a, a),
        artifact_before(a, b) && artifact_before(b, c) ==> artifact_before(a, c),
        a == b || artifact_before(a, b) || artifact_before(b, a),
{
    lemma_text_order(a.1, b.1, c.1);
    if a.0 == b.0 && a.1 == b.1 {
        assert(a == b);
    }
    if kind_index(a.0) == kind_index(b.0) {
        assert(a.0 == b.0);
    }
}

impl Ordered for ArtifactRef {
    open spec fn before(a: (ArtifactKind, Seq<char>), b: (ArtifactKind, Seq<char>)) -> bool {
        artifact_before(a, b)
    }

    proof fn lemma_order(
        a: (ArtifactKind, Seq<char>),
        b: (ArtifactKind, Seq<char>),
        c: (ArtifactKind, Seq<char>),
    ) {
        lemma_artifact_order(a, b, c);
        assert(Self::before(a, a) == artifact_before(a, a));
        assert(Self::before(a, b) == artifact_before(a, b));
        assert(Self::before(b, c) == artifact_before(b, c));
        assert(Self::before(a, c) == artifact_before(a, c));
    }

    fn rank(&self, other: &Self) -> (r: Rank) {
        let a: u8 = match self.kind {
            ArtifactKind::ContainerImage => 0,
            ArtifactKind::SbomDocument => 1,
        };
        let b: u8 = match other.kind {
            ArtifactKind::ContainerImage => 0,
            ArtifactKind::SbomDocument => 1,
        };
        proof {
            lemma_text_order(self.identity@, other.identity@, other.identity@);
            assert(a as int == kind_index(self.kind));
            assert(b as int == kind_index(other.kind));
            assert(Self::before(self@, other@) == artifact_before(self@, other@));
            assert(Self::before(other@, self@) == artifact_before(other@, self@));
            assert(a == b ==> self.kind == other.kind);
        }
        if a < b {
            Rank::Before
        } else if a > b {
            Rank::After
        } else {
            text_rank(self.identity.as_str(), other.identity.as_str())
        }
    }
}

impl Ordered for String {
    open spec fn before(a: Seq<char>, b: Seq<char>) -> bool {
        text_before(a, b)
    }

    proof fn lemma_order(a: Seq<char>, b: Seq<char>, c: Seq<char>) {
        lemma_text_order(a, b, c);
    }

    fn rank(&self, other: &Self) -> (r: Rank) {
        text_rank(self.as_str(), other.as_str())
    }
}

/// Freshness mode requested from a provider scan.
#[derive(Debug, Clone, Copy, PartialEq, Eq, Structural)]
pub enum EvidenceFreshness {
    /// Reproducible evidence such as frozen fixtures or a pinned database revision.
    Deterministic,
    /// Fresh evidence from the current scanner and vulnerability knowledge.
    Live,
}

/// Request for one complete provider observation over one immutable artifact.
#[derive(Debug, PartialEq, Eq)]
pub struct ScanRequest {
    /// Canonical component identity.
    pub component_key: String,
    /// Exact immutable artifact to scan.
    pub artifact: ArtifactRef,
    /// Desired reproducibility vs freshness mode for the adapter.
    pub freshness: EvidenceFreshness,
}

impl View for ScanRequest {
    type V = (Seq<char>, (ArtifactKind, Seq<char>), EvidenceFreshness);

    open spec fn view(&self) -> (Seq<char>, (ArtifactKind, Seq<char>), EvidenceFreshness) {
        (self.component_key@, self.artifact@, self.freshness)
    }
}

impl Clone for ScanRequest {
    fn clone(&self) -> (r: Self)
        ensures
            r == *self,
    {
        ScanRequest {
            component_key: self.component_key.clone(),
            artifact: self.artifact.clone(),
            freshness: self.freshness,
        }
    }
}

impl ScanRequest {
    pub fn new(component_key: &str, artifact: ArtifactRef, freshness: EvidenceFreshness) -> (r: Self)
        ensures
            r.component_key@ == component_key@,
            r.artifact == artifact,
            r.freshness == freshness,
    {
        ScanRequest { component_key: owned(component_key), artifact, freshness }
    }
}

/// Canonical package identity inside a reported finding.
#[derive(Debug, PartialEq, Eq, Hash)]
pub struct PackageCoordinate {
    /// Package name reported by the provider after canonicalization.
    pub name: String,
    /// Package version reported by the provider after canonicalization.
    pub version: String,
    /// Optional Package URL when the provider can supply one.
    pub purl: Option<String>,
}

impl View for PackageCoordinate {
    type V = (Seq<char>, Seq<char>, Option<Seq<char>>);

    open spec fn view(&self) -> (Seq<char>, Seq<char>, Option<Seq<char>>) {
        (self.name@, self.version@, opt_text(self.purl))
    }
}

impl Clone for PackageCoordinate {
    fn clone(&self) -> (r: Self)
        ensures
            r == *self,
    {
        PackageCoordinate {
            name: self.name.clone(),
            version: self.version.clone(),
            purl: copy_opt(&self.purl),
        }
    }
}

impl PackageCoordinate {
    pub fn new(name: &str, version: &str) -> (r: Self)
        ensures
            r.name@ == name@,
            r.version@ == version@,
            r.purl is None,
    {
        PackageCoordinate { name: owned(name), version: owned(version), purl: None }
    }

    pub fn with_purl(self, purl: &str) -> (r: Self)
        ensures
            r.name == self.name,
            r.version == self.version,
            opt_text(r.purl) == Some(purl@),
    {
        PackageCoordinate { name: self.name, version: self.version, purl: Some(owned(purl)) }
    }
}

/// Canonical severity bucket accepted by the provider boundary.
#[derive(Debug, Clone, Copy, PartialEq, Eq, Structural)]
pub enum Severity {
    /// The provider did not give a usable severity.
    Unknown,
    /// The provider explicitly reported no severity or no impact.
    NoImpact,
    Low,
    Medium,
    High,
    Critical,
}

/// Position of a severity on the scale from unknown to critical.
pub open spec fn severity_index(s: Severity) -> int {
    match s {
        Severity::Unknown => 0,
        Severity::NoImpact => 1,
        Severity::Low => 2,
        Severity::Medium => 3,
        Severity::High => 4,
        Severity::Critical => 5,
    }
}

/// The rank of a severity on the scale from unknown (0) to critical (5).
pub fn severity_rank(s: Severity) -> (r: u8)
    ensures
        r as int == severity_index(s),
{
    match s {
        Severity::Unknown => 0,
        Severity::NoImpact => 1,
        Severity::Low => 2,
        Severity::Medium => 3,
        Severity::High => 4,
        Severity::Critical => 5,
    }
}

/// The model of a reported finding.
pub struct ReportedFindingView {
    pub vulnerability_id: Seq<char>,
    pub provider_finding_key: Option<Seq<char>>,
    pub package: (Seq<char>, Seq<char>, Option<Seq<char>>),
    pub fix_version: Option<Seq<char>>,
    pub severity: Severity,
    pub aliases: Seq<Seq<char>>,
}

/// One canonical vulnerability observation inside a provider scan report.
#[derive(Debug, PartialEq, Eq)]
pub struct ReportedFinding {
    /// Canonical vulnerability identifier such as a CVE or GHSA id.
    pub vulnerability_id: String,
    /// Provider-local finding identifier when the provider exposes one.
    pub provider_finding_key: Option<String>,
    /// Affected package coordinate.
    pub package: PackageCoordinate,
    /// Provider-reported fixed version when available.
    pub fix_version: Option<String>,
    /// Normalized severity.
    pub severity: Severity,
    /// Additional advisory identifiers that refer to the same vulnerability.
    pub aliases: Vec<String>,
}

impl View for ReportedFinding {
    type V = ReportedFindingView;

    open spec fn view(&self) -> ReportedFindingView {
        ReportedFindingView {
            vulnerability_id: self.vulnerability_id@,
            provider_finding_key: opt_text(self.provider_finding_key),
            package: self.package@,
            fix_version: opt_text(self.fix_version),
            severity: self.severity,
            aliases: texts(self.aliases@),
        }
    }
}

impl Clone for ReportedFinding {
    fn clone(&self) -> (r: Self)
        ensures
            r@ == self@,
    {
        ReportedFinding {
            vulnerability_id: self.vulnerability_id.clone(),
            provider_finding_key: copy_opt(&self.provider_finding_key),
            package: self.package.clone(),
            fix_version: copy_opt(&self.fix_version),
            severity: self.severity,
            aliases: copy_texts(&self.aliases),
        }
    }
}

impl ReportedFinding {
    pub fn new(vulnerability_id: &str, package: PackageCoordinate) -> (r: Self)
        ensures
            r.vulnerability_id@ == vulnerability_id@,
            r.package == package,
            r.provider_finding_key is None,
            r.fix_version is None,
            r.severity == Severity::Unknown,
            r.aliases@.len() == 0,
    {
        ReportedFinding {
            vulnerability_id: owned(vulnerability_id),
            provider_finding_key: None,
            package,
            fix_version: None,
            severity: Severity::Unknown,
            aliases: Vec::new(),
        }
    }

    pub fn with_provider_finding_key(self, key: &str) -> (r: Self)
        ensures
            opt_text(r.provider_finding_key) == Some(key@),
            r.vulnerability_id == self.vulnerability_id,
            r.package == self.package,
            r.fix_version == self.fix_version,
            r.severity == self.severity,
            r.aliases == self.aliases,
    {
        ReportedFinding { provider_finding_key: Some(owned(key)), ..self }
    }

    pub fn with_fix_version(self, version: &str) -> (r: Self)
        ensures
            opt_text(r.fix_version) == Some(version@),
            r.vulnerability_id == self.vulnerability_id,
            r.provider_finding_key == self.provider_finding_key,
            r.package == self.package,
            r.severity == self.severity,
            r.aliases == self.aliases,
    {
        ReportedFinding { fix_version: Some(owned(version)), ..self }
    }

    pub fn with_severity(self, severity: Severity) -> (r: Self)
        ensures
            r.severity == severity,
            r.vulnerability_id == self.vulnerability_id,
            r.provider_finding_key == self.provider_finding_key,
            r.package == self.package,
            r.fix_version == self.fix_version,
            r.aliases == self.aliases,
    {
        ReportedFinding { severity, ..self }
    }

    pub fn with_alias(self, alias: &str) -> (r: Self)
        ensures
            texts(r.aliases@) == texts(self.aliases@).push(alias@),
            r.vulnerability_id == self.vulnerability_id,
            r.provider_finding_key == self.provider_finding_key,
            r.package == self.package,
            r.fix_version == self.fix_version,
            r.severity == self.severity,
    {
        let mut aliases = self.aliases;
        let ghost before = aliases@;
        aliases.push(owned(alias));
        assert(texts(aliases@) =~= texts(before).push(alias@));
        ReportedFinding { aliases, ..self }
    }
}

/// One complete provider snapshot for one component and one immutable artifact.
#[derive(Debug, PartialEq, Eq)]
pub struct ProviderScanReport {
    /// Stable provider key such as `syft-grype` or `trivy`.
    pub provider_key: String,
    /// Canonical component identity.
    pub component_key: String,
    /// Exact immutable artifact the provider observed.
    pub artifact: ArtifactRef,
    /// Time at which the provider observed or produced this snapshot.
    pub observed_at: std::time::SystemTime,
    /// Reproducibility vs freshness mode used to obtain this snapshot.
    pub freshness: EvidenceFreshness,
    /// Optional revision of the provider knowledge base used for the scan.
    pub knowledge_revision: Option<String>,
    /// Full set of findings observed for this component and artifact.
    pub findings: Vec<ReportedFinding>,
}

/// Two reports with the same content.
pub open spec fn same_report(x: ProviderScanReport, y: ProviderScanReport) -> bool {
    &&& x.provider_key@ == y.provider_key@
    &&& x.component_key@ == y.component_key@
    &&& x.artifact == y.artifact
    &&& x.observed_at == y.observed_at
    &&& x.freshness == y.freshness
    &&& opt_text(x.knowledge_revision) == opt_text(y.knowledge_revision)
    &&& x.findings@.map_values(|f: ReportedFinding| f@) == y.findings@.map_values(
        |f: ReportedFinding| f@,
    )
}

impl ProviderScanReport {
    /// A copy of this report with the same content.
    pub fn copy(&self) -> (r: Self)
        ensures
            same_report(r, *self),
    {
        let mut findings: Vec<ReportedFinding> = Vec::new();
        let mut i: usize = 0;
        while i < self.findings.len()
            invariant
                i <= self.findings@.len(),
                findings@.len() == i,
                forall|j: int| 0 <= j < i ==> #[trigger] findings@[j]@ == self.findings@[j]@,
            decreases self.findings.len() - i,
        {
            findings.push(self.findings[i].clone());
            i = i + 1;
        }
        assert(findings@.map_values(|f: ReportedFinding| f@) =~= self.findings@.map_values(
            |f: ReportedFinding| f@,
        ));
        ProviderScanReport {
            provider_key: self.provider_key.clone(),
            component_key: self.component_key.clone(),
            artifact: self.artifact.clone(),
            observed_at: self.observed_at,
            freshness: self.freshness,
            knowledge_revision: copy_opt(&self.knowledge_revision),
            findings,
        }
    }

    pub fn new(
        provider_key: &str,
        component_key: &str,
        artifact: ArtifactRef,
        observed_at: std::time::SystemTime,
        freshness: EvidenceFreshness,
        findings: Vec<ReportedFinding>,
    ) -> (r: Self)
        ensures
            r.provider_key@ == provider_key@,
            r.component_key@ == component_key@,
            r.artifact == artifact,
            r.observed_at == observed_at,
            r.freshness == freshness,
            r.knowledge_revision is None,
            r.findings == findings,
    {
        ProviderScanReport {
            provider_key: owned(provider_key),
            component_key: owned(component_key),
            artifact,
            observed_at,
            freshness,
            knowledge_revision: None,
            findings,
        }
    }

    pub fn with_knowledge_revision(self, revision: &str) -> (r: Self)
        ensures
            opt_text(r.knowledge_revision) == Some(revision@),
            r.provider_key == self.provider_key,
            r.component_key == self.component_key,
            r.artifact == self.artifact,
            r.observed_at == self.observed_at,
            r.freshness == self.freshness,
            r.findings == self.findings,
    {
        ProviderScanReport { knowledge_revision: Some(owned(revision)), ..self }
    }
}

/// Normalized failure class returned by a finding provider.
#[derive(Debug, Clone, Copy, PartialEq, Eq, Structural)]
pub enum FindingProviderErrorKind {
    /// The request shape is invalid for this provider.
    InvalidRequest,
    /// The provider or required infrastructure is temporarily unavailable.
    Unavailable,
    /// Credentials are missing, invalid, or insufficient.
    Unauthorized,
    /// The provider responded, but the payload could not be trusted or parsed.
    CorruptResponse,
    /// The provider rejected the request because rate limits were exceeded.
    RateLimited,
}

/// Canonical error returned by the provider boundary.
#[derive(Debug, PartialEq, Eq)]
pub struct FindingProviderError {
    /// Broad error class.
    pub kind: FindingProviderErrorKind,
    /// Whether retrying the same request later may succeed.
    pub retryable: bool,
    /// Human-readable explanation suitable for logs and diagnostics.
    pub message: String,
}

impl Clone for FindingProviderError {
    fn clone(&self) -> (r: Self)
        ensures
            r == *self,
    {
        FindingProviderError {
            kind: self.kind,
            retryable: self.retryable,
            message: self.message.clone(),
        }
    }
}

impl FindingProviderError {
    pub fn new(kind: FindingProviderErrorKind, retryable: bool, message: &str) -> (r: Self)
        ensures
            r.kind == kind,
            r.retryable == retryable,
            r.message@ == message@,
    {
        FindingProviderError { kind, retryable, message: owned(message) }
    }
}

} // verus!
