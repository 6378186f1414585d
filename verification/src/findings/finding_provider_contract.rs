//! Semantic contract that every finding provider report must satisfy.
//!
//! These checks are provider-agnostic: they verify that an adapter returns a
//! canonical snapshot shape, regardless of how the adapter obtained the data.

use crate::collections::OrderedSet;
use crate::findings::finding_provider::{
    EvidenceFreshness, FindingProviderError, FindingProviderErrorKind, ProviderScanReport,
    ReportedFinding, ReportedFindingView, ScanRequest,
};
use crate::findings::finding_read_model::{FindingKey, FindingKeyView};
use crate::order::{opt_text, text_eq};
use vstd::prelude::*;

verus! {

/// Normalized contract violation at the provider boundary.
#[derive(Debug, Clone, Copy, PartialEq, Eq, Structural)]
pub enum FindingProviderContractViolation {
    ProviderKeyMismatch,
    ComponentKeyMismatch,
    ArtifactMismatch,
    FreshnessMismatch,
    MissingKnowledgeRevision,
    EmptyVulnerabilityId,
    EmptyPackageName,
    EmptyPackageVersion,
    EmptyProviderFindingKey,
    EmptyAlias,
    DuplicateFinding,
}

/// The diagnostic text of each violation.
pub open spec fn violation_message(v: FindingProviderContractViolation) -> Seq<char> {
    match v {
        FindingProviderContractViolation::ProviderKeyMismatch => "report provider key does not match the adapter key"@,
        FindingProviderContractViolation::ComponentKeyMismatch =>
            "report component key does not match the requested component"@,
        FindingProviderContractViolation::ArtifactMismatch => "report artifact does not match the requested artifact"@,
        FindingProviderContractViolation::FreshnessMismatch =>
            "report freshness does not match the requested freshness"@,
        FindingProviderContractViolation::MissingKnowledgeRevision =>
            "deterministic reports must carry a knowledge revision"@,
        FindingProviderContractViolation::EmptyVulnerabilityId => "finding vulnerability id must not be empty"@,
        FindingProviderContractViolation::EmptyPackageName => "finding package name must not be empty"@,
        FindingProviderContractViolation::EmptyPackageVersion => "finding package version must not be empty"@,
        FindingProviderContractViolation::EmptyProviderFindingKey =>
            "provider finding key must not be present as an empty string"@,
        FindingProviderContractViolation::EmptyAlias => "finding aliases must not contain empty strings"@,
        FindingProviderContractViolation::DuplicateFinding =>
            "report must not contain duplicate finding fingerprints for one artifact"@,
    }
}

impl FindingProviderContractViolation {
    pub fn message(self) -> (r: &'static str)
        ensures
            r@ == violation_message(self),
    {
        match self {
            Self::ProviderKeyMismatch => "report provider key does not match the adapter key",
            Self::ComponentKeyMismatch => "report component key does not match the requested component",
            Self::ArtifactMismatch => "report artifact does not match the requested artifact",
            Self::FreshnessMismatch => "report freshness does not match the requested freshness",
            Self::MissingKnowledgeRevision => "deterministic reports must carry a knowledge revision",
            Self::EmptyVulnerabilityId => "finding vulnerability id must not be empty",
            Self::EmptyPackageName => "finding package name must not be empty",
            Self::EmptyPackageVersion => "finding package version must not be empty",
            Self::EmptyProviderFindingKey => "provider finding key must not be present as an empty string",
            Self::EmptyAlias => "finding aliases must not contain empty strings",
            Self::DuplicateFinding => "report must not contain duplicate finding fingerprints for one artifact",
        }
    }
}

/// Unicode `White_Space`, the property behind `char::is_whitespace` and `str::trim`.
pub open spec fn is_white_space(c: char) -> bool {
    let u = c as u32;
    ||| 0x9 <= u <= 0xD
    ||| u == 0x20
    ||| u == 0x85
    ||| u == 0xA0
    ||| u == 0x1680
    ||| 0x2000 <= u <= 0x200A
    ||| u == 0x2028
    ||| u == 0x2029
    ||| u == 0x202F
    ||| u == 0x205F
    ||| u == 0x3000
}

/// A text that is empty once surrounding white space is trimmed.
pub open spec fn blank(s: Seq<char>) -> bool {
    forall|i: int| 0 <= i < s.len() ==> #[trigger] is_white_space(s[i])
}

pub(crate) fn white_space(c: char) -> (r: bool)
    ensures
        r == is_white_space(c),
{
    let u = c as u32;
    (0x9 <= u && u <= 0xD) || u == 0x20 || u == 0x85 || u == 0xA0 || u == 0x1680 || (0x2000 <= u
        && u <= 0x200A) || u == 0x2028 || u == 0x2029 || u == 0x202F || u == 0x205F || u == 0x3000
}

/// Whether a text is empty once trimmed.
pub fn is_blank(s: &str) -> (r: bool)
    ensures
        r == blank(s@),
{
    let n = s.unicode_len();
    let mut i: usize = 0;
    while i < n
        invariant
            n == s@.len(),
            i <= n,
            forall|j: int| 0 <= j < i ==> #[trigger] is_white_space(s@[j]),
        decreases n - i,
    {
        let c = s.get_char(i);
        if !white_space(c) {
            return false;
        }
        i = i + 1;
    }
    true
}

/// The violation that one finding shows on its own, checked in this order.
pub open spec fn finding_violation(f: ReportedFindingView) -> Option<FindingProviderContractViolation> {
    if blank(f.vulnerability_id) {
        Some(FindingProviderContractViolation::EmptyVulnerabilityId)
    } else if blank(f.package.0) {
        Some(FindingProviderContractViolation::EmptyPackageName)
    } else if blank(f.package.1) {
        Some(FindingProviderContractViolation::EmptyPackageVersion)
    } else if f.provider_finding_key matches Some(k) && blank(k) {
        Some(FindingProviderContractViolation::EmptyProviderFindingKey)
    } else if exists|j: int| 0 <= j < f.aliases.len() && #[trigger] blank(f.aliases[j]) {
        Some(FindingProviderContractViolation::EmptyAlias)
    } else {
        None
    }
}

/// The fingerprint under which two findings of one artifact are the same.
pub open spec fn fingerprint(f: ReportedFindingView) -> FindingKeyView {
    (f.vulnerability_id, f.package)
}

/// The first violation met while walking the findings in order: each
/// finding is checked on its own, then against the fingerprints before it.
pub open spec fn findings_violation(fs: Seq<ReportedFindingView>) -> Option<
    FindingProviderContractViolation,
>
    decreases fs.len(),
{
    if fs.len() == 0 {
        None
    } else {
        match findings_violation(fs.drop_last()) {
            Some(v) => Some(v),
            None => if finding_violation(fs.last()) is Some {
                finding_violation(fs.last())
            } else if exists|j: int|
                0 <= j < fs.len() - 1 && #[trigger] fingerprint(fs[j]) == fingerprint(fs.last()) {
                Some(FindingProviderContractViolation::DuplicateFinding)
            } else {
                None
            },
        }
    }
}

/// Once a prefix of the findings shows a violation, the whole list shows that one.
pub proof fn lemma_violation_prefix(fs: Seq<ReportedFindingView>, k: int)
    requires
        0 <= k <= fs.len(),
        findings_violation(fs.take(k)) is Some,
    ensures
        findings_violation(fs) == findings_violation(fs.take(k)),
    decreases fs.len() - k,
{
    if k < fs.len() {
        assert(fs.take(k + 1).drop_last() =~= fs.take(k));
        lemma_violation_prefix(fs, k + 1);
    } else {
        assert(fs.take(k) =~= fs);
    }
}

/// The first violation of the provider contract, if any.
pub open spec fn contract_violation(
    provider_key: Seq<char>,
    request: ScanRequest,
    report: ProviderScanReport,
) -> Option<FindingProviderContractViolation> {
    if report.provider_key@ != provider_key {
        Some(FindingProviderContractViolation::ProviderKeyMismatch)
    } else if report.component_key@ != request.component_key@ {
        Some(FindingProviderContractViolation::ComponentKeyMismatch)
    } else if report.artifact@ != request.artifact@ {
        Some(FindingProviderContractViolation::ArtifactMismatch)
    } else if report.freshness != request.freshness {
        Some(FindingProviderContractViolation::FreshnessMismatch)
    } else if request.freshness == EvidenceFreshness::Deterministic && report.knowledge_revision is None {
        Some(FindingProviderContractViolation::MissingKnowledgeRevision)
    } else {
        findings_violation(report.findings@.map_values(|f: ReportedFinding| f@))
    }
}

fn validate_finding(finding: &ReportedFinding) -> (r: Result<(), FindingProviderContractViolation>)
    ensures
        r == match finding_violation(finding@) {
            Some(v) => Err::<(), FindingProviderContractViolation>(v),
            None => Ok(()),
        },
{
    if is_blank(finding.vulnerability_id.as_str()) {
        return Err(FindingProviderContractViolation::EmptyVulnerabilityId);
    }
    if is_blank(finding.package.name.as_str()) {
        return Err(FindingProviderContractViolation::EmptyPackageName);
    }
    if is_blank(finding.package.version.as_str()) {
        return Err(FindingProviderContractViolation::EmptyPackageVersion);
    }
    match &finding.provider_finding_key {
        Some(k) => {
            if is_blank(k.as_str()) {
                return Err(FindingProviderContractViolation::EmptyProviderFindingKey);
            }
        },
        None => {},
    }
    let ghost aliases = finding@.aliases;
    let mut i: usize = 0;
    while i < finding.aliases.len()
        invariant
            aliases == finding@.aliases,
            !blank(finding@.vulnerability_id),
            !blank(finding@.package.0),
            !blank(finding@.package.1),
            !(finding@.provider_finding_key matches Some(k) && blank(k)),
            aliases.len() == finding.aliases@.len(),
            i <= aliases.len(),
            forall|j: int| 0 <= j < i ==> !#[trigger] blank(aliases[j]),
        decreases finding.aliases.len() - i,
    {
        if is_blank(finding.aliases[i].as_str()) {
            assert(aliases[i as int] == finding.aliases@[i as int]@);
            assert(blank(aliases[i as int]));
            return Err(FindingProviderContractViolation::EmptyAlias);
        }
        i = i + 1;
    }
    Ok(())
}

/// Check that a report echoes the request and holds canonical findings.
pub fn validate_provider_scan_report(
    provider_key: &str,
    request: &ScanRequest,
    report: &ProviderScanReport,
) -> (r: Result<(), FindingProviderContractViolation>)
    ensures
        r == match contract_violation(provider_key@, *request, *report) {
            Some(v) => Err::<(), FindingProviderContractViolation>(v),
            None => Ok(()),
        },
{
    if !text_eq(report.provider_key.as_str(), provider_key) {
        return Err(FindingProviderContractViolation::ProviderKeyMismatch);
    }
    if !text_eq(report.component_key.as_str(), request.component_key.as_str()) {
        return Err(FindingProviderContractViolation::ComponentKeyMismatch);
    }
    if !report.artifact.same_as(&request.artifact) {
        return Err(FindingProviderContractViolation::ArtifactMismatch);
    }
    if report.freshness != request.freshness {
        return Err(FindingProviderContractViolation::FreshnessMismatch);
    }
    if request.freshness == EvidenceFreshness::Deterministic && report.knowledge_revision.is_none() {
        return Err(FindingProviderContractViolation::MissingKnowledgeRevision);
    }
    let ghost fs = report.findings@.map_values(|f: ReportedFinding| f@);
    let mut seen: OrderedSet<FindingKey> = OrderedSet::new();
    let mut i: usize = 0;
    while i < report.findings.len()
        invariant
            fs == report.findings@.map_values(|f: ReportedFinding| f@),
            contract_violation(provider_key@, *request, *report) == findings_violation(fs),
            i <= fs.len(),
            seen.wf(),
            findings_violation(fs.take(i as int)) is None,
            forall|x: FindingKeyView|
                seen@.contains(x) <==> exists|j: int| 0 <= j < i && #[trigger] fingerprint(fs[j]) == x,
        decreases report.findings.len() - i,
    {
        let finding = &report.findings[i];
        let ghost pre = fs.take(i as int);
        assert(fs.take(i + 1).drop_last() =~= pre);
        assert(fs.take(i + 1).last() == finding@);
        match validate_finding(finding) {
            Err(v) => {
                proof {
                    lemma_violation_prefix(fs, i + 1);
                }
                return Err(v);
            },
            Ok(()) => {},
        }
        let key = FindingKey {
            vulnerability_id: finding.vulnerability_id.clone(),
            package: finding.package.clone(),
        };
        assert(key@ == fingerprint(finding@));
        if seen.contains(&key) {
            proof {
                let j = choose|j: int| 0 <= j < i && #[trigger] fingerprint(fs[j]) == key@;
                assert(fs.take(i + 1)[j] == fs[j]);
                lemma_violation_prefix(fs, i + 1);
            }
            return Err(FindingProviderContractViolation::DuplicateFinding);
        }
        proof {
            assert forall|j: int| 0 <= j < i implies #[trigger] fingerprint(fs.take(i + 1)[j])
                != fingerprint(fs.take(i + 1).last()) by {
                assert(fs.take(i + 1)[j] == fs[j]);
            }
        }
        let ghost seen_before = seen@;
        seen.insert(key);
        proof {
            assert forall|x: FindingKeyView| seen@.contains(x) <==> exists|j: int|
                0 <= j < i + 1 && #[trigger] fingerprint(fs[j]) == x by {
                assert(seen@.to_set().contains(x) == seen@.contains(x));
                assert(seen_before.to_set().contains(x) == seen_before.contains(x));
                if seen@.contains(x) {
                    if x == key@ {
                        assert(fingerprint(fs[i as int]) == x);
                    } else {
                        assert(seen_before.contains(x));
                        let j = choose|j: int| 0 <= j < i && #[trigger] fingerprint(fs[j]) == x;
                        assert(fingerprint(fs[j]) == x);
                    }
                }
                if exists|j: int| 0 <= j < i + 1 && #[trigger] fingerprint(fs[j]) == x {
                    let j = choose|j: int| 0 <= j < i + 1 && #[trigger] fingerprint(fs[j]) == x;
                    if j < i {
                        assert(seen_before.contains(x));
                    } else {
                        assert(x == key@);
                    }
                    assert(seen@.to_set().contains(x));
                }
            }
        }
        i = i + 1;
    }
    assert(fs.take(i as int) =~= fs);
    Ok(())
}

/// Convert a contract violation into a canonical provider error for runner code.
pub fn as_provider_error(violation: FindingProviderContractViolation) -> (r: FindingProviderError)
    ensures
        r.kind == FindingProviderErrorKind::CorruptResponse,
        !r.retryable,
        r.message@ == violation_message(violation),
{
    FindingProviderError::new(FindingProviderErrorKind::CorruptResponse, false, violation.message())
}

} // verus!
