//! Durable governance decisions (risk acceptance, suppression) over findings.

use crate::collections::{Ordered, OrderedMap};
use crate::findings::finding_provider::{
    artifact_before, ArtifactKind, ArtifactRef, PackageCoordinate,
};
use crate::order::{
    lemma_opt_text_order, lemma_text_order, opt_text_before, opt_text_rank, owned, text_before,
    text_eq, text_rank, Rank,
};
use vstd::prelude::*;

verus! {

/// The model of a finding identity.
pub struct FindingRefView {
    pub component_key: Seq<char>,
    pub artifact: (ArtifactKind, Seq<char>),
    pub vulnerability_id: Seq<char>,
    pub package: (Seq<char>, Seq<char>, Option<Seq<char>>),
}

/// Canonical identity of one finding inside one managed component and artifact.
#[derive(Debug, PartialEq, Eq, Hash)]
pub struct FindingRef {
    pub component_key: String,
    pub artifact: ArtifactRef,
    pub vulnerability_id: String,
    pub package: PackageCoordinate,
}

impl View for FindingRef {
    type V = FindingRefView;

    open spec fn view(&self) -> FindingRefView {
        FindingRefView {
            component_key: self.component_key@,
            artifact: self.artifact@,
            vulnerability_id: self.vulnerability_id@,
            package: self.package@,
        }
    }
}

impl Clone for FindingRef {
    fn clone(&self) -> (r: Self)
        ensures
            r == *self,
    {
        FindingRef {
            component_key: self.component_key.clone(),
            artifact: self.artifact.clone(),
            vulnerability_id: self.vulnerability_id.clone(),
            package: self.package.clone(),
        }
    }
}

impl FindingRef {
    pub fn new(
        component_key: &str,
        artifact: ArtifactRef,
        vulnerability_id: &str,
        package: PackageCoordinate,
    ) -> (r: Self)
        ensures
            r.component_key@ == component_key@,
            r.artifact == artifact,
            r.vulnerability_id@ == vulnerability_id@,
            r.package == package,
    {
        FindingRef {
            component_key: owned(component_key),
            artifact,
            vulnerability_id: owned(vulnerability_id),
            package,
        }
    }
}

/// Packages are ordered by name, then version, then PURL (absent first).
pub open spec fn package_before(
    a: (Seq<char>, Seq<char>, Option<Seq<char>>),
    b: (Seq<char>, Seq<char>, Option<Seq<char>>),
) -> bool {
    text_before(a.0, b.0) || (a.0 == b.0 && (text_before(a.1, b.1) || (a.1 == b.1
        && opt_text_before(a.2, b.2))))
}

/// The order of package coordinates is a strict total order.
pub proof fn lemma_package_order(
    a: (Seq<char>, Seq<char>, Option<Seq<char>>),
    b: (Seq<char>, Seq<char>, Option<Seq<char>>),
    c: (Seq<char>, Seq<char>, Option<Seq<char>>),
)
    ensures
        !package_before(a, a),
        package_before(a, b) && package_before(b, c) ==> package_before(a, c),
        a == b || package_before(a, b) || package_before(b, a),
{
    lemma_text_order(a.0, b.0, c.0);
    lemma_text_order(a.1, b.1, c.1);
    lemma_opt_text_order(a.2, b.2, c.2);
}

pub fn package_rank(a: &PackageCoordinate, b: &PackageCoordinate) -> (r: Rank)
    ensures
        (r == Rank::Before) == package_before(a@, b@),
        (r == Rank::Same) == (a@ == b@),
        (r == Rank::After) == package_before(b@, a@),
{
    proof {
        lemma_package_order(a@, b@, b@);
    }
    match text_rank(a.name.as_str(), b.name.as_str()) {
        Rank::Same => match text_rank(a.version.as_str(), b.version.as_str()) {
            Rank::Same => opt_text_rank(&a.purl, &b.purl),
            other => other,
        },
        other => other,
    }
}

/// Finding identities are ordered by component, artifact, vulnerability, package.
pub open spec fn finding_ref_before(a: FindingRefView, b: FindingRefView) -> bool {
    text_before(a.component_key, b.component_key) || (a.component_key == b.component_key && (
    artifact_before(a.artifact, b.artifact) || (a.artifact == b.artifact && (text_before(
        a.vulnerability_id,
        b.vulnerability_id,
    ) || (a.vulnerability_id == b.vulnerability_id && package_before(a.package, b.package))))))
}

impl Ordered for FindingRef {
    open spec fn before(a: FindingRefView, b: FindingRefView) -> bool {
        finding_ref_before(a, b)
    }

    proof fn lemma_order(a: FindingRefView, b: FindingRefView, c: FindingRefView) {
        lemma_text_order(a.component_key, b.component_key, c.component_key);
        ArtifactRef::lemma_order(a.artifact, b.artifact, c.artifact);
        lemma_text_order(a.vulnerability_id, b.vulnerability_id, c.vulnerability_id);
        lemma_package_order(a.package, b.package, c.package);
    }

    fn rank(&self, other: &Self) -> (r: Rank) {
        proof {
            FindingRef::lemma_order(self@, other@, other@);
        }
        match text_rank(self.component_key.as_str(), other.component_key.as_str()) {
            Rank::Same => match self.artifact.rank(&other.artifact) {
                Rank::Same => match text_rank(
                    self.vulnerability_id.as_str(),
                    other.vulnerability_id.as_str(),
                ) {
                    Rank::Same => package_rank(&self.package, &other.package),
                    x => x,
                },
                x => x,
            },
            x => x,
        }
    }
}

/// Explicit risk-acceptance decision.
#[derive(Debug, PartialEq, Eq)]
pub struct RiskAcceptance {
    pub reason: String,
    pub until_unix_ms: Option<u64>,
}

impl Clone for RiskAcceptance {
    fn clone(&self) -> (r: Self)
        ensures
            r == *self,
    {
        RiskAcceptance { reason: self.reason.clone(), until_unix_ms: self.until_unix_ms }
    }
}

impl RiskAcceptance {
    pub fn new(reason: &str) -> (r: Self)
        ensures
            r.reason@ == reason@,
            r.until_unix_ms is None,
    {
        RiskAcceptance { reason: owned(reason), until_unix_ms: None }
    }

    pub fn until_unix_ms(self, until_unix_ms: u64) -> (r: Self)
        ensures
            r.reason == self.reason,
            r.until_unix_ms == Some(until_unix_ms),
    {
        RiskAcceptance { reason: self.reason, until_unix_ms: Some(until_unix_ms) }
    }
}

/// Explicit suppression decision.
#[derive(Debug, PartialEq, Eq)]
pub struct Suppression {
    pub reason: String,
}

impl Clone for Suppression {
    fn clone(&self) -> (r: Self)
        ensures
            r == *self,
    {
        Suppression { reason: self.reason.clone() }
    }
}

impl Suppression {
    pub fn new(reason: &str) -> (r: Self)
        ensures
            r.reason@ == reason@,
    {
        Suppression { reason: owned(reason) }
    }
}

/// Governance state of a finding.
#[derive(Debug, Clone, Copy, PartialEq, Eq, Structural)]
pub enum FindingGovernanceState {
    Open,
    RiskAccepted,
    Suppressed,
}

impl FindingGovernanceState {
    pub fn as_str(self) -> (r: &'static str)
        ensures
            r@ == (match self {
                Self::Open => "open"@,
                Self::RiskAccepted => "risk-accepted"@,
                Self::Suppressed => "suppressed"@,
            }),
    {
        match self {
            Self::Open => "open",
            Self::RiskAccepted => "risk-accepted",
            Self::Suppressed => "suppressed",
        }
    }
}

/// Durable governance decision for one finding.
#[derive(Debug, PartialEq, Eq)]
pub enum FindingDecision {
    RiskAccepted(RiskAcceptance),
    Suppressed(Suppression),
}

impl View for FindingDecision {
    /// State, reason and expiry of the decision.
    type V = (FindingGovernanceState, Seq<char>, Option<u64>);

    open spec fn view(&self) -> (FindingGovernanceState, Seq<char>, Option<u64>) {
        match self {
            FindingDecision::RiskAccepted(a) => (
                FindingGovernanceState::RiskAccepted,
                a.reason@,
                a.until_unix_ms,
            ),
            FindingDecision::Suppressed(s) => (FindingGovernanceState::Suppressed, s.reason@, None),
        }
    }
}

impl Clone for FindingDecision {
    fn clone(&self) -> (r: Self)
        ensures
            r == *self,
    {
        match self {
            FindingDecision::RiskAccepted(a) => FindingDecision::RiskAccepted(a.clone()),
            FindingDecision::Suppressed(s) => FindingDecision::Suppressed(s.clone()),
        }
    }
}

impl FindingDecision {
    pub fn state(&self) -> (r: FindingGovernanceState)
        ensures
            r == self@.0,
    {
        match self {
            FindingDecision::RiskAccepted(_) => FindingGovernanceState::RiskAccepted,
            FindingDecision::Suppressed(_) => FindingGovernanceState::Suppressed,
        }
    }

    pub fn risk_acceptance(&self) -> (r: Option<&RiskAcceptance>)
        ensures
            r == (match self {
                FindingDecision::RiskAccepted(a) => Some(a),
                FindingDecision::Suppressed(_) => None,
            }),
    {
        match self {
            FindingDecision::RiskAccepted(a) => Some(a),
            FindingDecision::Suppressed(_) => None,
        }
    }

    pub fn suppression(&self) -> (r: Option<&Suppression>)
        ensures
            r == (match self {
                FindingDecision::RiskAccepted(_) => None,
                FindingDecision::Suppressed(s) => Some(s),
            }),
    {
        match self {
            FindingDecision::RiskAccepted(_) => None,
            FindingDecision::Suppressed(s) => Some(s),
        }
    }

    /// The decision's reason (every decision carries one).
    pub fn reason(&self) -> (r: Option<&str>)
        ensures
            r matches Some(t) && t@ == self@.1,
    {
        match self {
            FindingDecision::RiskAccepted(a) => Some(a.reason.as_str()),
            FindingDecision::Suppressed(s) => Some(s.reason.as_str()),
        }
    }

    pub fn until_unix_ms(&self) -> (r: Option<u64>)
        ensures
            r == self@.2,
    {
        match self {
            FindingDecision::RiskAccepted(a) => a.until_unix_ms,
            FindingDecision::Suppressed(_) => None,
        }
    }

    /// Whether two decisions are the same decision.
    pub fn same_as(&self, other: &FindingDecision) -> (r: bool)
        ensures
            r == (self@ == other@),
    {
        match (self, other) {
            (FindingDecision::RiskAccepted(a), FindingDecision::RiskAccepted(b)) => {
                let same_until = match (a.until_unix_ms, b.until_unix_ms) {
                    (Some(x), Some(y)) => x == y,
                    (None, None) => true,
                    _ => false,
                };
                same_until && text_eq(a.reason.as_str(), b.reason.as_str())
            },
            (FindingDecision::Suppressed(a), FindingDecision::Suppressed(b)) => text_eq(
                a.reason.as_str(),
                b.reason.as_str(),
            ),
            _ => false,
        }
    }
}

/// Observable outcome of one risk acceptance.
#[derive(Debug, Clone, Copy, PartialEq, Eq, Structural)]
pub enum AcceptRiskChange {
    Accepted,
    Unchanged,
}

impl AcceptRiskChange {
    pub fn as_str(self) -> (r: &'static str)
        ensures
            r@ == (match self {
                Self::Accepted => "accepted"@,
                Self::Unchanged => "unchanged"@,
            }),
    {
        match self {
            Self::Accepted => "accepted",
            Self::Unchanged => "unchanged",
        }
    }
}

#[derive(Debug, PartialEq, Eq)]
pub struct AcceptRiskResult {
    pub change: AcceptRiskChange,
    pub acceptance: RiskAcceptance,
}

#[derive(Debug, PartialEq, Eq)]
pub struct BulkAcceptRiskResult {
    pub targeted: usize,
    pub accepted: usize,
    pub unchanged: usize,
    pub acceptance: RiskAcceptance,
}

/// Observable outcome of one suppression.
#[derive(Debug, Clone, Copy, PartialEq, Eq, Structural)]
pub enum SuppressFindingChange {
    Suppressed,
    Unchanged,
}

impl SuppressFindingChange {
    pub fn as_str(self) -> (r: &'static str)
        ensures
            r@ == (match self {
                Self::Suppressed => "suppressed"@,
                Self::Unchanged => "unchanged"@,
            }),
    {
        match self {
            Self::Suppressed => "suppressed",
            Self::Unchanged => "unchanged",
        }
    }
}

/// Observable outcome of one bulk suppression over a cohort of findings.
#[derive(Debug, PartialEq, Eq)]
pub struct BulkSuppressFindingResult {
    pub targeted: usize,
    pub suppressed: usize,
    pub unchanged: usize,
    pub suppression: Suppression,
}

#[derive(Debug, PartialEq, Eq)]
pub struct SuppressFindingResult {
    pub change: SuppressFindingChange,
    pub suppression: Suppression,
}

/// Observable outcome of reopening one finding.
#[derive(Debug, Clone, Copy, PartialEq, Eq, Structural)]
pub enum ReopenFindingChange {
    Reopened,
    Unchanged,
}

impl ReopenFindingChange {
    pub fn as_str(self) -> (r: &'static str)
        ensures
            r@ == (match self {
                Self::Reopened => "reopened"@,
                Self::Unchanged => "unchanged"@,
            }),
    {
        match self {
            Self::Reopened => "reopened",
            Self::Unchanged => "unchanged",
        }
    }
}

#[derive(Debug, PartialEq, Eq)]
pub struct ReopenFindingResult {
    pub change: ReopenFindingChange,
}

/// Observable outcome of reopening a cohort of findings.
#[derive(Debug, PartialEq, Eq)]
pub struct BulkReopenFindingResult {
    pub targeted: usize,
    pub reopened: usize,
    pub unchanged: usize,
}

/// Write-side owner of durable governance decisions for findings.
pub struct FindingGovernance {
    decisions: OrderedMap<FindingRef, FindingDecision>,
}

impl View for FindingGovernance {
    type V = Map<FindingRefView, (FindingGovernanceState, Seq<char>, Option<u64>)>;

    closed spec fn view(&self) -> Map<FindingRefView, (FindingGovernanceState, Seq<char>, Option<u64>)> {
        self.decisions@.map_values(|d: FindingDecision| d@)
    }
}

impl Default for FindingGovernance {
    fn default() -> (r: Self)
        ensures
            r.wf(),
            r@ == Map::<FindingRefView, (FindingGovernanceState, Seq<char>, Option<u64>)>::empty(),
    {
        FindingGovernance::new()
    }
}

impl FindingGovernance {
    pub closed spec fn wf(&self) -> bool {
        self.decisions.wf()
    }

    pub fn new() -> (r: Self)
        ensures
            r.wf(),
            r@ == Map::<FindingRefView, (FindingGovernanceState, Seq<char>, Option<u64>)>::empty(),
    {
        let r = FindingGovernance { decisions: OrderedMap::new() };
        assert(r@ =~= Map::<FindingRefView, (FindingGovernanceState, Seq<char>, Option<u64>)>::empty());
        r
    }

    pub fn decision(&self, finding: &FindingRef) -> (r: Option<&FindingDecision>)
        requires
            self.wf(),
        ensures
            r is Some <==> self@.contains_key(finding@),
            r matches Some(d) ==> d@ == self@[finding@],
    {
        self.decisions.get(finding)
    }

    fn record(&mut self, finding: FindingRef, decision: FindingDecision)
        requires
            old(self).wf(),
        ensures
            final(self).wf(),
            final(self)@ == old(self)@.insert(finding@, decision@),
    {
        let ghost fv = finding@;
        let ghost dv = decision@;
        self.decisions.insert(finding, decision);
        assert(self@ =~= old(self)@.insert(fv, dv));
    }

    pub fn accept_risk(&mut self, finding: FindingRef, acceptance: RiskAcceptance) -> (r:
        AcceptRiskResult)
        requires
            old(self).wf(),
        ensures
            final(self).wf(),
            r.acceptance == acceptance,
            final(self)@ == old(self)@.insert(
                finding@,
                (FindingGovernanceState::RiskAccepted, acceptance.reason@, acceptance.until_unix_ms),
            ),
            r.change == (if old(self)@.contains_key(finding@) && old(self)@[finding@] == (
                FindingGovernanceState::RiskAccepted,
                acceptance.reason@,
                acceptance.until_unix_ms,
            ) {
                AcceptRiskChange::Unchanged
            } else {
                AcceptRiskChange::Accepted
            }),
    {
        let next = FindingDecision::RiskAccepted(acceptance.clone());
        let same = match self.decision(&finding) {
            Some(d) => d.same_as(&next),
            None => false,
        };
        if same {
            proof {
                assert(self@ =~= old(self)@.insert(finding@, next@));
            }
            AcceptRiskResult { change: AcceptRiskChange::Unchanged, acceptance }
        } else {
            self.record(finding, next);
            AcceptRiskResult { change: AcceptRiskChange::Accepted, acceptance }
        }
    }

    pub fn replay_risk_acceptance(&mut self, finding: FindingRef, acceptance: RiskAcceptance)
        requires
            old(self).wf(),
        ensures
            final(self).wf(),
            final(self)@ == old(self)@.insert(
                finding@,
                (FindingGovernanceState::RiskAccepted, acceptance.reason@, acceptance.until_unix_ms),
            ),
    {
        self.record(finding, FindingDecision::RiskAccepted(acceptance));
    }

    pub fn suppress(&mut self, finding: FindingRef, suppression: Suppression) -> (r:
        SuppressFindingResult)
        requires
            old(self).wf(),
        ensures
            final(self).wf(),
            r.suppression == suppression,
            final(self)@ == old(self)@.insert(
                finding@,
                (FindingGovernanceState::Suppressed, suppression.reason@, None),
            ),
            r.change == (if old(self)@.contains_key(finding@) && old(self)@[finding@] == (
                FindingGovernanceState::Suppressed,
                suppression.reason@,
                None::<u64>,
            ) {
                SuppressFindingChange::Unchanged
            } else {
                SuppressFindingChange::Suppressed
            }),
    {
        let next = FindingDecision::Suppressed(suppression.clone());
        let same = match self.decision(&finding) {
            Some(d) => d.same_as(&next),
            None => false,
        };
        if same {
            proof {
                assert(self@ =~= old(self)@.insert(finding@, next@));
            }
            SuppressFindingResult { change: SuppressFindingChange::Unchanged, suppression }
        } else {
            self.record(finding, next);
            SuppressFindingResult { change: SuppressFindingChange::Suppressed, suppression }
        }
    }

    pub fn replay_suppression(&mut self, finding: FindingRef, suppression: Suppression)
        requires
            old(self).wf(),
        ensures
            final(self).wf(),
            final(self)@ == old(self)@.insert(
                finding@,
                (FindingGovernanceState::Suppressed, suppression.reason@, None),
            ),
    {
        self.record(finding, FindingDecision::Suppressed(suppression));
    }

    /// Withdraw any decision on a finding, returning it to the open state.
    pub fn reopen(&mut self, finding: &FindingRef) -> (r: ReopenFindingResult)
        requires
            old(self).wf(),
        ensures
            final(self).wf(),
            final(self)@ == old(self)@.remove(finding@),
            r.change == (if old(self)@.contains_key(finding@) {
                ReopenFindingChange::Reopened
            } else {
                ReopenFindingChange::Unchanged
            }),
    {
        let removed = self.decisions.remove(finding);
        assert(self@ =~= old(self)@.remove(finding@));
        match removed {
            Some(_) => ReopenFindingResult { change: ReopenFindingChange::Reopened },
            None => ReopenFindingResult { change: ReopenFindingChange::Unchanged },
        }
    }

    pub fn replay_reopen(&mut self, finding: &FindingRef)
        requires
            old(self).wf(),
        ensures
            final(self).wf(),
            final(self)@ == old(self)@.remove(finding@),
    {
        let _ = self.reopen(finding);
    }
}

} // verus!
