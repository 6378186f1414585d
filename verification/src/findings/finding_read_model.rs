//! Rebuildable operator-facing view of currently active findings and the
//! governance decisions projected onto them.

use crate::collections::{
    lemma_sorted_seq_of, sorted_seq_of, views_of, views_sorted, Ordered, OrderedMap, OrderedSet,
};
use crate::findings::finding_governance::{
    lemma_package_order, package_before, package_rank, FindingDecision, FindingGovernanceState,
    FindingRef, FindingRefView, RiskAcceptance, Suppression,
};
use crate::findings::finding_provider::{
    artifact_before, lemma_artifact_order, severity_index, severity_rank, ArtifactKind,
    ArtifactRef, PackageCoordinate, ProviderScanReport, ReportedFinding, ReportedFindingView,
    Severity,
};
use crate::inventory::component_inventory::CollectionScopedArtifact;
use crate::order::{lemma_text_order, opt_text, owned, text_before, text_eq, text_rank, Rank};
use vstd::prelude::*;

verus! {

pub const DEFAULT_ACTIVE_FINDINGS_PAGE_LIMIT: usize = 50;

pub const MAX_ACTIVE_FINDINGS_PAGE_LIMIT: usize = 200;

/// The page limit actually applied: 0 means the default, and the maximum caps it.
pub open spec fn normalized_page_limit(limit: usize) -> usize {
    if limit == 0 {
        DEFAULT_ACTIVE_FINDINGS_PAGE_LIMIT
    } else if limit > MAX_ACTIVE_FINDINGS_PAGE_LIMIT {
        MAX_ACTIVE_FINDINGS_PAGE_LIMIT
    } else {
        limit
    }
}

pub fn normalize_page_limit(limit: usize) -> (r: usize)
    ensures
        r == normalized_page_limit(limit),
{
    if limit == 0 {
        DEFAULT_ACTIVE_FINDINGS_PAGE_LIMIT
    } else if limit > MAX_ACTIVE_FINDINGS_PAGE_LIMIT {
        MAX_ACTIVE_FINDINGS_PAGE_LIMIT
    } else {
        limit
    }
}

/// Number of entries a page shows out of `total`, from `offset`, at most `limit`.
pub open spec fn window_len(total: int, offset: int, limit: int) -> int {
    if offset >= total {
        0
    } else if total - offset < limit {
        total - offset
    } else {
        limit
    }
}

/// Identity of a finding inside one artifact: vulnerability and package.
pub type FindingKeyView = (Seq<char>, (Seq<char>, Seq<char>, Option<Seq<char>>));

/// The (component, artifact) pair a snapshot is about.
pub type ItemView = (Seq<char>, (ArtifactKind, Seq<char>));

/// Canonical identity of a finding inside one artifact.
#[derive(Debug, PartialEq, Eq)]
pub struct FindingKey {
    pub vulnerability_id: String,
    pub package: PackageCoordinate,
}

impl View for FindingKey {
    type V = FindingKeyView;

    open spec fn view(&self) -> FindingKeyView {
        (self.vulnerability_id@, self.package@)
    }
}

impl Clone for FindingKey {
    fn clone(&self) -> (r: Self)
        ensures
            r == *self,
    {
        FindingKey { vulnerability_id: self.vulnerability_id.clone(), package: self.package.clone() }
    }
}

pub open spec fn finding_key_before(a: FindingKeyView, b: FindingKeyView) -> bool {
    text_before(a.0, b.0) || (a.0 == b.0 && package_before(a.1, b.1))
}

/// The order of finding keys is a strict total order.
pub proof fn lemma_finding_key_order(a: FindingKeyView, b: FindingKeyView, c: FindingKeyView)
    ensures
        !finding_key_before(a, a),
        finding_key_before(a, b) && finding_key_before(b, c) ==> finding_key_before(a, c),
        a == b || finding_key_before(a, b) || finding_key_before(b, a),
{
    lemma_text_order(a.0, b.0, c.0);
    lemma_package_order(a.1, b.1, c.1);
}

impl Ordered for FindingKey {
    open spec fn before(a: FindingKeyView, b: FindingKeyView) -> bool {
        finding_key_before(a, b)
    }

    proof fn lemma_order(a: FindingKeyView, b: FindingKeyView, c: FindingKeyView) {
        lemma_finding_key_order(a, b, c);
    }

    fn rank(&self, other: &Self) -> (r: Rank) {
        proof {
            lemma_finding_key_order(self@, other@, other@);
            assert(Self::before(self@, other@) == finding_key_before(self@, other@));
            assert(Self::before(other@, self@) == finding_key_before(other@, self@));
        }
        match text_rank(self.vulnerability_id.as_str(), other.vulnerability_id.as_str()) {
            Rank::Same => package_rank(&self.package, &other.package),
            x => x,
        }
    }
}

/// Key of the active-findings projection: one managed (component, artifact) pair.
pub struct TrackedArtifactKey {
    pub component_key: String,
    pub artifact: ArtifactRef,
}

impl View for TrackedArtifactKey {
    type V = ItemView;

    open spec fn view(&self) -> ItemView {
        (self.component_key@, self.artifact@)
    }
}

pub open spec fn item_before(a: ItemView, b: ItemView) -> bool {
    text_before(a.0, b.0) || (a.0 == b.0 && artifact_before(a.1, b.1))
}

impl Ordered for TrackedArtifactKey {
    open spec fn before(a: ItemView, b: ItemView) -> bool {
        item_before(a, b)
    }

    proof fn lemma_order(a: ItemView, b: ItemView, c: ItemView) {
        lemma_text_order(a.0, b.0, c.0);
        lemma_artifact_order(a.1, b.1, c.1);
        assert(Self::before(a, a) == item_before(a, a));
        assert(Self::before(a, b) == item_before(a, b));
        assert(Self::before(b, c) == item_before(b, c));
        assert(Self::before(a, c) == item_before(a, c));
        if a.0 == b.0 && a.1 == b.1 {
            assert(a == b);
        }
    }

    fn rank(&self, other: &Self) -> (r: Rank) {
        proof {
            lemma_text_order(self.component_key@, other.component_key@, other.component_key@);
            lemma_artifact_order(self.artifact@, other.artifact@, other.artifact@);
        }
        match text_rank(self.component_key.as_str(), other.component_key.as_str()) {
            Rank::Same => self.artifact.rank(&other.artifact),
            x => x,
        }
    }
}

/// Page order of one artifact's findings: higher severity first, then identity.
pub struct PageKey {
    pub rank: u8,
    pub key: FindingKey,
}

impl View for PageKey {
    type V = (u8, FindingKeyView);

    open spec fn view(&self) -> (u8, FindingKeyView) {
        (self.rank, self.key@)
    }
}

impl Ordered for PageKey {
    open spec fn before(a: (u8, FindingKeyView), b: (u8, FindingKeyView)) -> bool {
        a.0 > b.0 || (a.0 == b.0 && finding_key_before(a.1, b.1))
    }

    proof fn lemma_order(a: (u8, FindingKeyView), b: (u8, FindingKeyView), c: (u8, FindingKeyView)) {
        lemma_finding_key_order(a.1, b.1, c.1);
    }

    fn rank(&self, other: &Self) -> (r: Rank) {
        proof {
            lemma_finding_key_order(self.key@, other.key@, other.key@);
        }
        if self.rank > other.rank {
            Rank::Before
        } else if self.rank < other.rank {
            Rank::After
        } else {
            self.key.rank(&other.key)
        }
    }
}

/// Page order across a collection scope: higher severity first, then
/// component, artifact and finding identity.
pub struct ScopedPageKey {
    pub rank: u8,
    pub item: TrackedArtifactKey,
    pub key: FindingKey,
}

impl View for ScopedPageKey {
    type V = (u8, ItemView, FindingKeyView);

    open spec fn view(&self) -> (u8, ItemView, FindingKeyView) {
        (self.rank, self.item@, self.key@)
    }
}

pub open spec fn scoped_before(a: (u8, ItemView, FindingKeyView), b: (u8, ItemView, FindingKeyView)) -> bool {
    a.0 > b.0 || (a.0 == b.0 && (item_before(a.1, b.1) || (a.1 == b.1 && finding_key_before(
        a.2,
        b.2,
    ))))
}

impl Ordered for ScopedPageKey {
    open spec fn before(a: (u8, ItemView, FindingKeyView), b: (u8, ItemView, FindingKeyView)) -> bool {
        scoped_before(a, b)
    }

    proof fn lemma_order(
        a: (u8, ItemView, FindingKeyView),
        b: (u8, ItemView, FindingKeyView),
        c: (u8, ItemView, FindingKeyView),
    ) {
        TrackedArtifactKey::lemma_order(a.1, b.1, c.1);
        lemma_finding_key_order(a.2, b.2, c.2);
    }

    fn rank(&self, other: &Self) -> (r: Rank) {
        proof {
            TrackedArtifactKey::lemma_order(self.item@, other.item@, other.item@);
            lemma_finding_key_order(self.key@, other.key@, other.key@);
        }
        if self.rank > other.rank {
            Rank::Before
        } else if self.rank < other.rank {
            Rank::After
        } else {
            match self.item.rank(&other.item) {
                Rank::Same => self.key.rank(&other.key),
                x => x,
            }
        }
    }
}

/// One active finding as seen by operators, with its governance decision.
#[derive(Debug, PartialEq, Eq)]
pub struct ActiveFindingProjection {
    pub finding: FindingRef,
    pub severity: Severity,
    pub governance_state: FindingGovernanceState,
    pub governance_reason: Option<String>,
    pub governance_until_unix_ms: Option<u64>,
}

pub type ScopedActiveFinding = ActiveFindingProjection;

impl Clone for ActiveFindingProjection {
    fn clone(&self) -> (r: Self)
        ensures
            r == *self,
    {
        ActiveFindingProjection {
            finding: self.finding.clone(),
            severity: self.severity,
            governance_state: self.governance_state,
            governance_reason: crate::order::copy_opt(&self.governance_reason),
            governance_until_unix_ms: self.governance_until_unix_ms,
        }
    }
}

#[derive(Debug, PartialEq, Eq)]
pub struct ActiveFindingsQuery {
    pub component_key: String,
    pub artifact: ArtifactRef,
    pub min_severity: Option<Severity>,
    pub governance_state: Option<FindingGovernanceState>,
    pub package_name: Option<String>,
    pub offset: usize,
    pub limit: usize,
}

impl ActiveFindingsQuery {
    pub fn new(component_key: &str, artifact: ArtifactRef) -> (r: Self)
        ensures
            r.component_key@ == component_key@,
            r.artifact == artifact,
            r.min_severity is None,
            r.governance_state is None,
            r.package_name is None,
            r.offset == 0,
            r.limit == DEFAULT_ACTIVE_FINDINGS_PAGE_LIMIT,
    {
        ActiveFindingsQuery {
            component_key: owned(component_key),
            artifact,
            min_severity: None,
            governance_state: None,
            package_name: None,
            offset: 0,
            limit: DEFAULT_ACTIVE_FINDINGS_PAGE_LIMIT,
        }
    }

    pub fn with_min_severity(self, min_severity: Severity) -> (r: Self)
        ensures
            r == (Self { min_severity: Some(min_severity), ..self }),
    {
        Self { min_severity: Some(min_severity), ..self }
    }

    pub fn with_governance_state(self, governance_state: FindingGovernanceState) -> (r: Self)
        ensures
            r == (Self { governance_state: Some(governance_state), ..self }),
    {
        Self { governance_state: Some(governance_state), ..self }
    }

    pub fn with_package_name(self, package_name: &str) -> (r: Self)
        ensures
            opt_text(r.package_name) == Some(package_name@),
            r.component_key == self.component_key,
            r.artifact == self.artifact,
            r.min_severity == self.min_severity,
            r.governance_state == self.governance_state,
            r.offset == self.offset,
            r.limit == self.limit,
    {
        Self { package_name: Some(owned(package_name)), ..self }
    }

    pub fn with_offset(self, offset: usize) -> (r: Self)
        ensures
            r == (Self { offset, ..self }),
    {
        Self { offset, ..self }
    }

    pub fn with_limit(self, limit: usize) -> (r: Self)
        ensures
            r == (Self { limit, ..self }),
    {
        Self { limit, ..self }
    }
}

#[derive(Debug, PartialEq, Eq)]
pub struct ActiveFindingsPage {
    pub total: usize,
    pub returned: usize,
    pub offset: usize,
    pub limit: usize,
    pub findings: Vec<ActiveFindingProjection>,
}

#[derive(Debug, PartialEq, Eq)]
pub struct ScopedActiveFindingsQuery {
    pub min_severity: Option<Severity>,
    pub governance_state: Option<FindingGovernanceState>,
    pub package_name: Option<String>,
    pub offset: usize,
    pub limit: usize,
}

impl Default for ScopedActiveFindingsQuery {
    fn default() -> (r: Self)
        ensures
            r.min_severity is None,
            r.governance_state is None,
            r.package_name is None,
            r.offset == 0,
            r.limit == DEFAULT_ACTIVE_FINDINGS_PAGE_LIMIT,
    {
        Self::new()
    }
}

impl ScopedActiveFindingsQuery {
    pub fn new() -> (r: Self)
        ensures
            r.min_severity is None,
            r.governance_state is None,
            r.package_name is None,
            r.offset == 0,
            r.limit == DEFAULT_ACTIVE_FINDINGS_PAGE_LIMIT,
    {
        ScopedActiveFindingsQuery {
            min_severity: None,
            governance_state: None,
            package_name: None,
            offset: 0,
            limit: DEFAULT_ACTIVE_FINDINGS_PAGE_LIMIT,
        }
    }

    pub fn with_min_severity(self, min_severity: Severity) -> (r: Self)
        ensures
            r == (Self { min_severity: Some(min_severity), ..self }),
    {
        Self { min_severity: Some(min_severity), ..self }
    }

    pub fn with_governance_state(self, governance_state: FindingGovernanceState) -> (r: Self)
        ensures
            r == (Self { governance_state: Some(governance_state), ..self }),
    {
        Self { governance_state: Some(governance_state), ..self }
    }

    pub fn with_package_name(self, package_name: &str) -> (r: Self)
        ensures
            opt_text(r.package_name) == Some(package_name@),
            r.min_severity == self.min_severity,
            r.governance_state == self.governance_state,
            r.offset == self.offset,
            r.limit == self.limit,
    {
        Self { package_name: Some(owned(package_name)), ..self }
    }

    pub fn with_offset(self, offset: usize) -> (r: Self)
        ensures
            r == (Self { offset, ..self }),
    {
        Self { offset, ..self }
    }

    pub fn with_limit(self, limit: usize) -> (r: Self)
        ensures
            r == (Self { limit, ..self }),
    {
        Self { limit, ..self }
    }
}

#[derive(Debug, PartialEq, Eq)]
pub struct BulkGovernanceQuery {
    pub governance_state: FindingGovernanceState,
    pub min_severity: Option<Severity>,
    pub package_name: Option<String>,
}

impl BulkGovernanceQuery {
    pub fn new(governance_state: FindingGovernanceState) -> (r: Self)
        ensures
            r.governance_state == governance_state,
            r.min_severity is None,
            r.package_name is None,
    {
        BulkGovernanceQuery { governance_state, min_severity: None, package_name: None }
    }

    pub fn with_min_severity(self, min_severity: Severity) -> (r: Self)
        ensures
            r == (Self { min_severity: Some(min_severity), ..self }),
    {
        Self { min_severity: Some(min_severity), ..self }
    }

    pub fn with_package_name(self, package_name: &str) -> (r: Self)
        ensures
            opt_text(r.package_name) == Some(package_name@),
            r.governance_state == self.governance_state,
            r.min_severity == self.min_severity,
    {
        Self { package_name: Some(owned(package_name)), ..self }
    }
}

#[derive(Debug, PartialEq, Eq)]
pub struct ScopedActiveFindingsPage {
    pub total: usize,
    pub returned: usize,
    pub offset: usize,
    pub limit: usize,
    pub findings: Vec<ScopedActiveFinding>,
}

/// The model of the read model: active findings per (component, artifact),
/// and governance decisions per finding identity.
pub struct ReadModelView {
    pub active: Map<ItemView, Map<FindingKeyView, Severity>>,
    pub decisions: Map<FindingRefView, (FindingGovernanceState, Seq<char>, Option<u64>)>,
}

/// The identity of a finding of an item.
pub open spec fn finding_ref_of(item: ItemView, k: FindingKeyView) -> FindingRefView {
    FindingRefView {
        component_key: item.0,
        artifact: item.1,
        vulnerability_id: k.0,
        package: k.1,
    }
}

/// Active findings of an item (none when it was never reported).
pub open spec fn findings_at(v: ReadModelView, item: ItemView) -> Map<FindingKeyView, Severity> {
    if v.active.contains_key(item) {
        v.active[item]
    } else {
        Map::empty()
    }
}

/// Governance state of a finding: open unless a decision says otherwise.
pub open spec fn state_of(v: ReadModelView, f: FindingRefView) -> FindingGovernanceState {
    if v.decisions.contains_key(f) {
        v.decisions[f].0
    } else {
        FindingGovernanceState::Open
    }
}

/// Whether the governance fields of a projection reflect the decision on `f`.
pub open spec fn governance_reflects(x: ActiveFindingProjection, v: ReadModelView, f: FindingRefView) -> bool {
    if v.decisions.contains_key(f) {
        &&& x.governance_state == v.decisions[f].0
        &&& opt_text(x.governance_reason) == Some(v.decisions[f].1)
        &&& x.governance_until_unix_ms == v.decisions[f].2
    } else {
        &&& x.governance_state == FindingGovernanceState::Open
        &&& x.governance_reason is None
        &&& x.governance_until_unix_ms is None
    }
}

/// Whether `x` is the projection of finding `k` of `item`.
pub open spec fn projects(x: ActiveFindingProjection, v: ReadModelView, item: ItemView, k: FindingKeyView) -> bool {
    &&& x.finding@ == finding_ref_of(item, k)
    &&& findings_at(v, item).contains_key(k)
    &&& x.severity == findings_at(v, item)[k]
    &&& governance_reflects(x, v, finding_ref_of(item, k))
}

/// The filters of a query.
pub open spec fn passes(
    severity: Severity,
    state: FindingGovernanceState,
    package_name: Seq<char>,
    min: Option<Severity>,
    want: Option<FindingGovernanceState>,
    name: Option<Seq<char>>,
) -> bool {
    &&& (min matches Some(m) ==> severity_index(severity) >= severity_index(m))
    &&& (want matches Some(w) ==> state == w)
    &&& (name matches Some(n) ==> package_name == n)
}

/// Whether finding `k` of `item` passes the filters.
pub open spec fn finding_passes(
    v: ReadModelView,
    item: ItemView,
    k: FindingKeyView,
    min: Option<Severity>,
    want: Option<FindingGovernanceState>,
    name: Option<Seq<char>>,
) -> bool {
    passes(findings_at(v, item)[k], state_of(v, finding_ref_of(item, k)), k.1.0, min, want, name)
}

/// The page entries of one item: (severity rank, finding) for each active
/// finding of the item that passes the filters.
pub open spec fn page_entries(
    v: ReadModelView,
    item: ItemView,
    min: Option<Severity>,
    want: Option<FindingGovernanceState>,
    name: Option<Seq<char>>,
) -> Set<(u8, FindingKeyView)> {
    Set::new(
        |e: (u8, FindingKeyView)|
            findings_at(v, item).contains_key(e.1) && e.0 as int == severity_index(
                findings_at(v, item)[e.1],
            ) && finding_passes(v, item, e.1, min, want, name),
    )
}

/// The page entries across a scope.
pub open spec fn scoped_entries(
    v: ReadModelView,
    scope: Seq<ItemView>,
    min: Option<Severity>,
    want: Option<FindingGovernanceState>,
    name: Option<Seq<char>>,
) -> Set<(u8, ItemView, FindingKeyView)> {
    Set::new(
        |e: (u8, ItemView, FindingKeyView)|
            scope.contains(e.1) && page_entries(v, e.1, min, want, name).contains((e.0, e.2)),
    )
}

/// The findings of an item, in finding order.
pub open spec fn item_keys(v: ReadModelView, item: ItemView) -> Seq<FindingKeyView> {
    sorted_seq_of::<FindingKey>(findings_at(v, item).dom())
}

/// Every (item, finding) of a scope: item by item, each in finding order.
pub open spec fn scoped_pairs(v: ReadModelView, scope: Seq<ItemView>) -> Seq<(ItemView, FindingKeyView)>
    decreases scope.len(),
{
    if scope.len() == 0 {
        seq![]
    } else {
        let item = scope.last();
        scoped_pairs(v, scope.drop_last()) + item_keys(v, item).map_values(
            |k: FindingKeyView| (item, k),
        )
    }
}

/// The elements of `s` whose answer in `answers` is yes, in order.
pub open spec fn kept<T>(s: Seq<T>, answers: Seq<bool>) -> Seq<T>
    decreases s.len(),
{
    if s.len() == 0 {
        seq![]
    } else {
        kept(s.drop_last(), answers.take(s.len() - 1)) + if answers[s.len() - 1] {
            seq![s.last()]
        } else {
            seq![]
        }
    }
}

/// The findings of a scope in a given governance state that pass a bulk filter,
/// in visit order.
pub open spec fn bulk_pairs(
    v: ReadModelView,
    pairs: Seq<(ItemView, FindingKeyView)>,
    want: FindingGovernanceState,
    min: Option<Severity>,
    name: Option<Seq<char>>,
) -> Seq<FindingRefView>
    decreases pairs.len(),
{
    if pairs.len() == 0 {
        seq![]
    } else {
        let p = pairs.last();
        bulk_pairs(v, pairs.drop_last(), want, min, name) + if finding_passes(
            v,
            p.0,
            p.1,
            min,
            Some(want),
            name,
        ) {
            seq![finding_ref_of(p.0, p.1)]
        } else {
            seq![]
        }
    }
}

/// The finding reconstructed from its identity and severity alone.
pub open spec fn reconstructed(k: FindingKeyView, severity: Severity) -> ReportedFindingView {
    ReportedFindingView {
        vulnerability_id: k.0,
        provider_finding_key: None,
        package: k.1,
        fix_version: None,
        severity,
        aliases: seq![],
    }
}

/// The key of a reported finding inside its artifact.
pub open spec fn finding_key_of(f: ReportedFindingView) -> FindingKeyView {
    (f.vulnerability_id, f.package)
}

/// The views of reported findings.
pub open spec fn finding_views(v: Seq<ReportedFinding>) -> Seq<ReportedFindingView> {
    v.map_values(|f: ReportedFinding| f@)
}

/// Canonical snapshot: one entry per distinct finding identity, carrying the
/// severity of its first occurrence.
pub open spec fn canonical(fs: Seq<ReportedFindingView>) -> Map<FindingKeyView, Severity>
    decreases fs.len(),
{
    if fs.len() == 0 {
        Map::empty()
    } else {
        let m = canonical(fs.drop_last());
        let k = finding_key_of(fs.last());
        if m.contains_key(k) {
            m
        } else {
            m.insert(k, fs.last().severity)
        }
    }
}

/// Canonicalize one snapshot of findings: one entry per distinct identity.
pub fn canonicalize(findings: &Vec<ReportedFinding>) -> (r: OrderedMap<FindingKey, Severity>)
    ensures
        r.wf(),
        r@ == canonical(finding_views(findings@)),
{
    let ghost fs = finding_views(findings@);
    let mut m: OrderedMap<FindingKey, Severity> = OrderedMap::new();
    let mut i: usize = 0;
    while i < findings.len()
        invariant
            fs == finding_views(findings@),
            i <= findings@.len(),
            m.wf(),
            m@ == canonical(fs.take(i as int)),
        decreases findings.len() - i,
    {
        let f = &findings[i];
        let key = FindingKey { vulnerability_id: f.vulnerability_id.clone(), package: f.package.clone() };
        assert(fs.take(i + 1).drop_last() =~= fs.take(i as int));
        assert(fs.take(i + 1).last() == f@);
        if !m.contains_key(&key) {
            m.insert(key, f.severity);
        }
        i = i + 1;
    }
    assert(fs.take(i as int) =~= fs);
    m
}

/// Rebuildable operator-facing view of currently active findings.
pub struct FindingReadModel {
    active: OrderedMap<TrackedArtifactKey, OrderedMap<FindingKey, Severity>>,
    decisions: OrderedMap<FindingRef, FindingDecision>,
}

impl View for FindingReadModel {
    type V = ReadModelView;

    closed spec fn view(&self) -> ReadModelView {
        ReadModelView {
            active: self.active@.map_values(|m: OrderedMap<FindingKey, Severity>| m@),
            decisions: self.decisions@.map_values(|d: FindingDecision| d@),
        }
    }
}

impl Default for FindingReadModel {
    fn default() -> (r: Self)
        ensures
            r.wf(),
            r@.active == Map::<ItemView, Map<FindingKeyView, Severity>>::empty(),
            r@.decisions == Map::<
                FindingRefView,
                (FindingGovernanceState, Seq<char>, Option<u64>),
            >::empty(),
    {
        FindingReadModel::new()
    }
}

impl FindingReadModel {
    pub closed spec fn wf(&self) -> bool {
        &&& self.active.wf()
        &&& self.decisions.wf()
        &&& forall|k: ItemView| #[trigger] self.active@.contains_key(k) ==> self.active@[k].wf()
    }

    proof fn lemma_view(&self)
        ensures
            self@.active.dom() == self.active@.dom(),
            self@.decisions.dom() == self.decisions@.dom(),
            forall|k: ItemView|
                #[trigger] self.active@.contains_key(k) ==> self@.active[k] == self.active@[k]@,
            forall|k: FindingRefView|
                #[trigger] self.decisions@.contains_key(k) ==> self@.decisions[k]
                    == self.decisions@[k]@,
    {
        assert(self@.active.dom() =~= self.active@.dom());
        assert(self@.decisions.dom() =~= self.decisions@.dom());
    }

    pub fn new() -> (r: Self)
        ensures
            r.wf(),
            r@.active == Map::<ItemView, Map<FindingKeyView, Severity>>::empty(),
            r@.decisions == Map::<
                FindingRefView,
                (FindingGovernanceState, Seq<char>, Option<u64>),
            >::empty(),
    {
        let r = FindingReadModel { active: OrderedMap::new(), decisions: OrderedMap::new() };
        proof {
            r.lemma_view();
        }
        assert(r@.active =~= Map::<ItemView, Map<FindingKeyView, Severity>>::empty());
        assert(r@.decisions =~= Map::<
            FindingRefView,
            (FindingGovernanceState, Seq<char>, Option<u64>),
        >::empty());
        r
    }

    fn set_snapshot(&mut self, key: TrackedArtifactKey, snapshot: OrderedMap<FindingKey, Severity>)
        requires
            old(self).wf(),
            snapshot.wf(),
        ensures
            final(self).wf(),
            final(self)@.decisions == old(self)@.decisions,
            final(self)@.active == old(self)@.active.insert(key@, snapshot@),
    {
        let ghost kv = key@;
        let ghost sv = snapshot@;
        proof {
            self.lemma_view();
        }
        self.active.insert(key, snapshot);
        proof {
            self.lemma_view();
            assert(self@.active =~= old(self)@.active.insert(kv, sv));
            assert(self@.decisions =~= old(self)@.decisions);
        }
    }

    /// Apply one full provider snapshot to the active findings projection.
    pub fn record_scan_report(&mut self, report: &ProviderScanReport)
        requires
            old(self).wf(),
        ensures
            final(self).wf(),
            final(self)@.decisions == old(self)@.decisions,
            final(self)@.active == old(self)@.active.insert(
                (report.component_key@, report.artifact@),
                canonical(finding_views(report.findings@)),
            ),
    {
        let key = TrackedArtifactKey {
            component_key: report.component_key.clone(),
            artifact: report.artifact.clone(),
        };
        let snapshot = canonicalize(&report.findings);
        self.set_snapshot(key, snapshot);
    }

    /// Restore one provider snapshot during replay.
    pub fn replay_canonical_scan_report(
        &mut self,
        component_key: &str,
        artifact: ArtifactRef,
        canonical_findings: &Vec<ReportedFinding>,
    )
        requires
            old(self).wf(),
        ensures
            final(self).wf(),
            final(self)@.decisions == old(self)@.decisions,
            final(self)@.active == old(self)@.active.insert(
                (component_key@, artifact@),
                canonical(finding_views(canonical_findings@)),
            ),
    {
        let key = TrackedArtifactKey { component_key: owned(component_key), artifact };
        let snapshot = canonicalize(canonical_findings);
        self.set_snapshot(key, snapshot);
    }

    fn set_decision(&mut self, finding: FindingRef, decision: FindingDecision)
        requires
            old(self).wf(),
        ensures
            final(self).wf(),
            final(self)@.active == old(self)@.active,
            final(self)@.decisions == old(self)@.decisions.insert(finding@, decision@),
    {
        let ghost fv = finding@;
        let ghost dv = decision@;
        proof {
            self.lemma_view();
        }
        self.decisions.insert(finding, decision);
        proof {
            self.lemma_view();
            assert(self@.decisions =~= old(self)@.decisions.insert(fv, dv));
            assert(self@.active =~= old(self)@.active);
        }
    }

    pub fn accept_risk(&mut self, finding: FindingRef, acceptance: RiskAcceptance)
        requires
            old(self).wf(),
        ensures
            final(self).wf(),
            final(self)@.active == old(self)@.active,
            final(self)@.decisions == old(self)@.decisions.insert(
                finding@,
                (FindingGovernanceState::RiskAccepted, acceptance.reason@, acceptance.until_unix_ms),
            ),
    {
        self.set_decision(finding, FindingDecision::RiskAccepted(acceptance));
    }

    pub fn replay_risk_acceptance(&mut self, finding: FindingRef, acceptance: RiskAcceptance)
        requires
            old(self).wf(),
        ensures
            final(self).wf(),
            final(self)@.active == old(self)@.active,
            final(self)@.decisions == old(self)@.decisions.insert(
                finding@,
                (FindingGovernanceState::RiskAccepted, acceptance.reason@, acceptance.until_unix_ms),
            ),
    {
        self.accept_risk(finding, acceptance);
    }

    pub fn suppress(&mut self, finding: FindingRef, suppression: Suppression)
        requires
            old(self).wf(),
        ensures
            final(self).wf(),
            final(self)@.active == old(self)@.active,
            final(self)@.decisions == old(self)@.decisions.insert(
                finding@,
                (FindingGovernanceState::Suppressed, suppression.reason@, None),
            ),
    {
        self.set_decision(finding, FindingDecision::Suppressed(suppression));
    }

    pub fn replay_suppression(&mut self, finding: FindingRef, suppression: Suppression)
        requires
            old(self).wf(),
        ensures
            final(self).wf(),
            final(self)@.active == old(self)@.active,
            final(self)@.decisions == old(self)@.decisions.insert(
                finding@,
                (FindingGovernanceState::Suppressed, suppression.reason@, None),
            ),
    {
        self.suppress(finding, suppression);
    }

    /// Withdraw any governance decision on a finding.
    pub fn reopen(&mut self, finding: &FindingRef)
        requires
            old(self).wf(),
        ensures
            final(self).wf(),
            final(self)@.active == old(self)@.active,
            final(self)@.decisions == old(self)@.decisions.remove(finding@),
    {
        proof {
            self.lemma_view();
        }
        let _ = self.decisions.remove(finding);
        proof {
            self.lemma_view();
            assert(self@.decisions =~= old(self)@.decisions.remove(finding@));
            assert(self@.active =~= old(self)@.active);
        }
    }

    pub fn replay_reopen(&mut self, finding: &FindingRef)
        requires
            old(self).wf(),
        ensures
            final(self).wf(),
            final(self)@.active == old(self)@.active,
            final(self)@.decisions == old(self)@.decisions.remove(finding@),
    {
        self.reopen(finding);
    }

    fn snapshot(&self, component_key: &str, artifact: &ArtifactRef) -> (r: Option<
        &OrderedMap<FindingKey, Severity>,
    >)
        requires
            self.wf(),
        ensures
            r is Some <==> self@.active.contains_key((component_key@, artifact@)),
            r matches Some(m) ==> m.wf() && m@ == self@.active[(component_key@, artifact@)],
    {
        proof {
            self.lemma_view();
        }
        let key = TrackedArtifactKey { component_key: owned(component_key), artifact: artifact.clone() };
        self.active.get(&key)
    }

    pub fn active_finding_count(&self, component_key: &str, artifact: &ArtifactRef) -> (r: usize)
        requires
            self.wf(),
        ensures
            r == findings_at(self@, (component_key@, artifact@)).len(),
    {
        match self.snapshot(component_key, artifact) {
            Some(m) => m.len(),
            None => 0,
        }
    }

    pub fn has_active_vulnerability(
        &self,
        component_key: &str,
        artifact: &ArtifactRef,
        vulnerability_id: &str,
    ) -> (r: bool)
        requires
            self.wf(),
        ensures
            r == exists|k: FindingKeyView|
                #[trigger] findings_at(self@, (component_key@, artifact@)).contains_key(k) && k.0
                    == vulnerability_id@,
    {
        match self.snapshot(component_key, artifact) {
            Some(m) => {
                proof {
                    m.lemma_keys();
                }
                let n = m.len();
                let mut i: usize = 0;
                while i < n
                    invariant
                        m.wf(),
                        m@ == findings_at(self@, (component_key@, artifact@)),
                        n == m.key_seq().len(),
                        i <= n,
                        forall|j: int| 0 <= j < i ==> (#[trigger] m.key_seq()[j]).0 != vulnerability_id@,
                    decreases n - i,
                {
                    let k = m.key_at(i);
                    if text_eq(k.vulnerability_id.as_str(), vulnerability_id) {
                        proof {
                            m.lemma_keys();
                            let kk = m.key_seq()[i as int];
                            assert(m@.contains_key(kk));
                            assert(findings_at(self@, (component_key@, artifact@)).contains_key(kk));
                        }
                        return true;
                    }
                    i = i + 1;
                }
                proof {
                    m.lemma_keys();
                    assert forall|k: FindingKeyView| #[trigger] m@.contains_key(k) implies k.0
                        != vulnerability_id@ by {
                        assert(m.key_seq().to_set().contains(k));
                    }
                }
                false
            },
            None => false,
        }
    }

    pub fn has_active_finding(&self, finding: &FindingRef) -> (r: bool)
        requires
            self.wf(),
        ensures
            r == findings_at(self@, (finding.component_key@, finding.artifact@)).contains_key(
                (finding.vulnerability_id@, finding.package@),
            ),
    {
        match self.snapshot(finding.component_key.as_str(), &finding.artifact) {
            Some(m) => {
                let key = FindingKey {
                    vulnerability_id: finding.vulnerability_id.clone(),
                    package: finding.package.clone(),
                };
                m.contains_key(&key)
            },
            None => false,
        }
    }

    /// The decision recorded for a finding, if any.
    fn decision_for(&self, component_key: &String, artifact: &ArtifactRef, key: &FindingKey) -> (r:
        Option<&FindingDecision>)
        requires
            self.wf(),
        ensures
            r is Some <==> self@.decisions.contains_key(
                finding_ref_of((component_key@, artifact@), key@),
            ),
            r matches Some(d) ==> d@ == self@.decisions[finding_ref_of(
                (component_key@, artifact@),
                key@,
            )],
    {
        proof {
            self.lemma_view();
        }
        let f = FindingRef {
            component_key: component_key.clone(),
            artifact: artifact.clone(),
            vulnerability_id: key.vulnerability_id.clone(),
            package: key.package.clone(),
        };
        self.decisions.get(&f)
    }

    /// Project one active finding with its governance decision.
    fn project(&self, component_key: &String, artifact: &ArtifactRef, key: &FindingKey, severity: Severity) -> (r:
        ActiveFindingProjection)
        requires
            self.wf(),
        ensures
            r.finding@ == finding_ref_of((component_key@, artifact@), key@),
            r.severity == severity,
            governance_reflects(r, self@, finding_ref_of((component_key@, artifact@), key@)),
    {
        let finding = FindingRef {
            component_key: component_key.clone(),
            artifact: artifact.clone(),
            vulnerability_id: key.vulnerability_id.clone(),
            package: key.package.clone(),
        };
        match self.decision_for(component_key, artifact, key) {
            Some(d) => {
                let reason = match d.reason() {
                    Some(t) => Some(owned(t)),
                    None => None,
                };
                ActiveFindingProjection {
                    finding,
                    severity,
                    governance_state: d.state(),
                    governance_reason: reason,
                    governance_until_unix_ms: d.until_unix_ms(),
                }
            },
            None => ActiveFindingProjection {
                finding,
                severity,
                governance_state: FindingGovernanceState::Open,
                governance_reason: None,
                governance_until_unix_ms: None,
            },
        }
    }

    /// The governance state of one finding.
    fn state_for(&self, component_key: &String, artifact: &ArtifactRef, key: &FindingKey) -> (r:
        FindingGovernanceState)
        requires
            self.wf(),
        ensures
            r == state_of(self@, finding_ref_of((component_key@, artifact@), key@)),
    {
        match self.decision_for(component_key, artifact, key) {
            Some(d) => d.state(),
            None => FindingGovernanceState::Open,
        }
    }
}

impl FindingReadModel {
    /// One page of the active findings of one artifact that pass the query's
    /// filters, ordered by severity (highest first) then finding identity.
    pub fn query_active_findings(&self, query: &ActiveFindingsQuery) -> (r: ActiveFindingsPage)
        requires
            self.wf(),
        ensures
            ({
                let item = (query.component_key@, query.artifact@);
                let s = sorted_seq_of::<PageKey>(
                    page_entries(
                        self@,
                        item,
                        query.min_severity,
                        query.governance_state,
                        opt_text(query.package_name),
                    ),
                );
                &&& r.total == s.len()
                &&& r.offset == query.offset
                &&& r.limit == normalized_page_limit(query.limit)
                &&& r.returned == r.findings@.len()
                &&& r.findings@.len() == window_len(s.len() as int, query.offset as int, r.limit as int)
                &&& forall|i: int|
                    0 <= i < r.findings@.len() ==> projects(
                        #[trigger] r.findings@[i],
                        self@,
                        item,
                        s[query.offset + i].1,
                    )
            }),
    {
        let ghost item = (query.component_key@, query.artifact@);
        let ghost entries = page_entries(
            self@,
            item,
            query.min_severity,
            query.governance_state,
            opt_text(query.package_name),
        );
        let limit = normalize_page_limit(query.limit);
        let m = match self.snapshot(query.component_key.as_str(), &query.artifact) {
            Some(m) => m,
            None => {
                proof {
                    assert(entries =~= Set::<(u8, FindingKeyView)>::empty());
                    let e = Seq::<(u8, FindingKeyView)>::empty();
                    assert(e.to_set() =~= Set::<(u8, FindingKeyView)>::empty());
                    lemma_sorted_seq_of::<PageKey>(e);
                }
                return ActiveFindingsPage {
                    total: 0,
                    returned: 0,
                    offset: query.offset,
                    limit,
                    findings: Vec::new(),
                };
            },
        };
        proof {
            m.lemma_keys();
        }
        let mut acc: OrderedSet<PageKey> = OrderedSet::new();
        let n = m.len();
        let mut i: usize = 0;
        while i < n
            invariant
                self.wf(),
                m.wf(),
                m@ == findings_at(self@, item),
                item == (query.component_key@, query.artifact@),
                entries == page_entries(
                    self@,
                    item,
                    query.min_severity,
                    query.governance_state,
                    opt_text(query.package_name),
                ),
                n == m.key_seq().len(),
                i <= n,
                acc.wf(),
                acc@.to_set() == Set::new(
                    |e: (u8, FindingKeyView)|
                        entries.contains(e) && exists|j: int| 0 <= j < i && m.key_seq()[j] == e.1,
                ),
            decreases n - i,
        {
            let k = m.key_at(i);
            let sev = *m.value_at(i);
            let state = self.state_for(&query.component_key, &query.artifact, k);
            if filters_pass(
                sev,
                state,
                &k.package.name,
                query.min_severity,
                query.governance_state,
                &query.package_name,
            ) {
                acc.insert(PageKey { rank: severity_rank(sev), key: k.clone() });
            }
            proof {
                m.lemma_keys();
                let ks = m.key_seq();
                assert forall|e: (u8, FindingKeyView)| #[trigger] acc@.to_set().contains(e) <==> (
                entries.contains(e) && exists|j: int| 0 <= j < i + 1 && ks[j] == e.1) by {
                    if exists|j: int| 0 <= j < i + 1 && ks[j] == e.1 {
                        let j = choose|j: int| 0 <= j < i + 1 && ks[j] == e.1;
                        if j != i {
                            assert(exists|j: int| 0 <= j < i && ks[j] == e.1);
                        }
                    }
                    if exists|j: int| 0 <= j < i && ks[j] == e.1 {
                        let j = choose|j: int| 0 <= j < i && ks[j] == e.1;
                        assert(0 <= j < i + 1 && ks[j] == e.1);
                        crate::collections::lemma_sorted_distinct::<FindingKey>(ks, j, i as int);
                    }
                }
                assert(acc@.to_set() =~= Set::new(
                    |e: (u8, FindingKeyView)|
                        entries.contains(e) && exists|j: int| 0 <= j < i + 1 && m.key_seq()[j] == e.1,
                ));
            }
            i = i + 1;
        }
        proof {
            assert forall|e: (u8, FindingKeyView)| #[trigger] entries.contains(e) implies exists|j: int|
                0 <= j < n && m.key_seq()[j] == e.1 by {
                assert(m.key_seq().to_set().contains(e.1));
            }
            assert(acc@.to_set() =~= entries);
            lemma_sorted_seq_of::<PageKey>(acc@);
        }
        let total = acc.len();
        let mut findings: Vec<ActiveFindingProjection> = Vec::new();
        if query.offset < total {
            let mut t: usize = 0;
            while t < limit && t < total - query.offset
                invariant
                    self.wf(),
                    m.wf(),
                    m@ == findings_at(self@, item),
                    item == (query.component_key@, query.artifact@),
                    acc.wf(),
                    acc@.to_set() == entries,
                    entries == page_entries(
                        self@,
                        item,
                        query.min_severity,
                        query.governance_state,
                        opt_text(query.package_name),
                    ),
                    total == acc@.len(),
                    query.offset < total,
                    t <= limit,
                    t <= total - query.offset,
                    findings@.len() == t,
                    forall|u: int|
                        0 <= u < t ==> projects(
                            #[trigger] findings@[u],
                            self@,
                            item,
                            acc@[query.offset + u].1,
                        ),
                decreases limit - t,
            {
                let entry = acc.get(query.offset + t);
                proof {
                    assert(acc@.to_set().contains(acc@[query.offset + t]));
                }
                let sev = *m.get(&entry.key).unwrap();
                findings.push(self.project(&query.component_key, &query.artifact, &entry.key, sev));
                t = t + 1;
            }
        }
        let returned = findings.len();
        ActiveFindingsPage { total, returned, offset: query.offset, limit, findings }
    }

    /// The canonical active findings of one artifact, in finding order.
    pub fn active_findings(&self, component_key: &str, artifact: &ArtifactRef) -> (r: Vec<
        ReportedFinding,
    >)
        requires
            self.wf(),
        ensures
            ({
                let item = (component_key@, artifact@);
                let ks = item_keys(self@, item);
                &&& r@.len() == ks.len()
                &&& forall|i: int|
                    0 <= i < ks.len() ==> (#[trigger] r@[i])@ == reconstructed(ks[i], findings_at(self@, item)[ks[i]])
            }),
    {
        let ghost item = (component_key@, artifact@);
        let mut out: Vec<ReportedFinding> = Vec::new();
        match self.snapshot(component_key, artifact) {
            Some(m) => {
                proof {
                    m.lemma_keys();
                }
                let n = m.len();
                let mut i: usize = 0;
                while i < n
                    invariant
                        m.wf(),
                        m@ == findings_at(self@, item),
                        m.key_seq() == item_keys(self@, item),
                        n == m.key_seq().len(),
                        i <= n,
                        out@.len() == i,
                        forall|j: int|
                            0 <= j < i ==> (#[trigger] out@[j])@ == reconstructed(m.key_seq()[j], m@[m.key_seq()[j]]),
                    decreases n - i,
                {
                    let k = m.key_at(i);
                    let sev = *m.value_at(i);
                    let f = ReportedFinding::new(k.vulnerability_id.as_str(), k.package.clone()).with_severity(sev);
                    assert(crate::order::texts(f.aliases@) =~= seq![]);
                    out.push(f);
                    i = i + 1;
                }
            },
            None => {
                proof {
                    let e = Seq::<FindingKeyView>::empty();
                    assert(e.to_set() =~= findings_at(self@, item).dom());
                    lemma_sorted_seq_of::<FindingKey>(e);
                }
            },
        }
        out
    }
}

impl FindingReadModel {
    /// Collect into `acc` the entries of scope item `p`.
    fn collect_scoped_item(
        &self,
        scope: &[CollectionScopedArtifact],
        p: usize,
        query: &ScopedActiveFindingsQuery,
        acc: &mut OrderedSet<ScopedPageKey>,
    )
        requires
            self.wf(),
            p < scope@.len(),
            old(acc).wf(),
            old(acc)@.to_set() == Set::new(
                |e: (u8, ItemView, FindingKeyView)|
                    scoped_entries(
                        self@,
                        views_of(scope@),
                        query.min_severity,
                        query.governance_state,
                        opt_text(query.package_name),
                    ).contains(e) && exists|q: int| 0 <= q < p && views_of(scope@)[q] == e.1,
            ),
        ensures
            final(acc).wf(),
            final(acc)@.to_set() == Set::new(
                |e: (u8, ItemView, FindingKeyView)|
                    scoped_entries(
                        self@,
                        views_of(scope@),
                        query.min_severity,
                        query.governance_state,
                        opt_text(query.package_name),
                    ).contains(e) && exists|q: int| 0 <= q < p + 1 && views_of(scope@)[q] == e.1,
            ),
    {
        let ghost sv = views_of(scope@);
        let ghost entries = scoped_entries(
            self@,
            sv,
            query.min_severity,
            query.governance_state,
            opt_text(query.package_name),
        );
        let item = &scope[p];
        let ghost iv = item@;
        assert(sv[p as int] == iv);
        assert(sv.contains(iv));
        match self.snapshot(item.component_key.as_str(), &item.artifact) {
            None => {
                proof {
                    assert forall|e: (u8, ItemView, FindingKeyView)| #[trigger] acc@.to_set().contains(e) <==> (
                    entries.contains(e) && exists|q: int| 0 <= q < p + 1 && sv[q] == e.1) by {
                        if entries.contains(e) && exists|q: int| 0 <= q < p + 1 && sv[q] == e.1 {
                            let q = choose|q: int| 0 <= q < p + 1 && sv[q] == e.1;
                            if q == p {
                                assert(findings_at(self@, iv) == Map::<FindingKeyView, Severity>::empty());
                                assert(false);
                            }
                        }
                    }
                    assert(acc@.to_set() =~= Set::new(
                        |e: (u8, ItemView, FindingKeyView)|
                            entries.contains(e) && exists|q: int| 0 <= q < p + 1 && sv[q] == e.1,
                    ));
                }
            },
            Some(m) => {
                proof {
                    m.lemma_keys();
                }
                let n = m.len();
                let mut j: usize = 0;
                while j < n
                    invariant
                        self.wf(),
                        m.wf(),
                        m@ == findings_at(self@, iv),
                        iv == item@,
                        sv == views_of(scope@),
                        sv[p as int] == iv,
                        p < sv.len(),
                        entries == scoped_entries(
                            self@,
                            sv,
                            query.min_severity,
                            query.governance_state,
                            opt_text(query.package_name),
                        ),
                        n == m.key_seq().len(),
                        j <= n,
                        acc.wf(),
                        acc@.to_set() == Set::new(
                            |e: (u8, ItemView, FindingKeyView)|
                                entries.contains(e) && ((exists|q: int| 0 <= q < p && sv[q] == e.1)
                                    || (e.1 == iv && exists|t: int|
                                    0 <= t < j && m.key_seq()[t] == e.2)),
                        ),
                    decreases n - j,
                {
                    let k = m.key_at(j);
                    let sev = *m.value_at(j);
                    let state = self.state_for(&item.component_key, &item.artifact, k);
                    if filters_pass(
                        sev,
                        state,
                        &k.package.name,
                        query.min_severity,
                        query.governance_state,
                        &query.package_name,
                    ) {
                        acc.insert(
                            ScopedPageKey {
                                rank: severity_rank(sev),
                                item: TrackedArtifactKey {
                                    component_key: item.component_key.clone(),
                                    artifact: item.artifact.clone(),
                                },
                                key: k.clone(),
                            },
                        );
                    }
                    proof {
                        m.lemma_keys();
                        let ks = m.key_seq();
                        assert(sv.contains(iv));
                        assert forall|e: (u8, ItemView, FindingKeyView)| #[trigger] acc@.to_set().contains(e) <==> (
                        entries.contains(e) && ((exists|q: int| 0 <= q < p && sv[q] == e.1) || (e.1
                            == iv && exists|t: int| 0 <= t < j + 1 && ks[t] == e.2))) by {
                            if exists|t: int| 0 <= t < j + 1 && ks[t] == e.2 {
                                let t = choose|t: int| 0 <= t < j + 1 && ks[t] == e.2;
                                if t != j {
                                    assert(exists|t: int| 0 <= t < j && ks[t] == e.2);
                                }
                            }
                            if exists|t: int| 0 <= t < j && ks[t] == e.2 {
                                let t = choose|t: int| 0 <= t < j && ks[t] == e.2;
                                assert(0 <= t < j + 1 && ks[t] == e.2);
                                crate::collections::lemma_sorted_distinct::<FindingKey>(ks, t, j as int);
                            }
                        }
                        assert(acc@.to_set() =~= Set::new(
                            |e: (u8, ItemView, FindingKeyView)|
                                entries.contains(e) && ((exists|q: int| 0 <= q < p && sv[q] == e.1)
                                    || (e.1 == iv && exists|t: int|
                                    0 <= t < j + 1 && m.key_seq()[t] == e.2)),
                        ));
                    }
                    j = j + 1;
                }
                proof {
                    m.lemma_keys();
                    assert forall|e: (u8, ItemView, FindingKeyView)| #[trigger] acc@.to_set().contains(e) <==> (
                    entries.contains(e) && exists|q: int| 0 <= q < p + 1 && sv[q] == e.1) by {
                        if entries.contains(e) && e.1 == iv {
                            assert(m.key_seq().to_set().contains(e.2));
                        }
                        if exists|q: int| 0 <= q < p + 1 && sv[q] == e.1 {
                            let q = choose|q: int| 0 <= q < p + 1 && sv[q] == e.1;
                            if q != p {
                                assert(exists|q: int| 0 <= q < p && sv[q] == e.1);
                            }
                        }
                        if exists|q: int| 0 <= q < p && sv[q] == e.1 {
                            let q = choose|q: int| 0 <= q < p && sv[q] == e.1;
                            assert(0 <= q < p + 1 && sv[q] == e.1);
                        }
                    }
                    assert(acc@.to_set() =~= Set::new(
                        |e: (u8, ItemView, FindingKeyView)|
                            entries.contains(e) && exists|q: int| 0 <= q < p + 1 && sv[q] == e.1,
                    ));
                }
            },
        }
    }

    /// One page of the active findings across a collection scope that pass
    /// the query's filters, ordered by severity (highest first), component,
    /// artifact and finding identity.
    pub fn query_scoped_active_findings(
        &self,
        scope: &[CollectionScopedArtifact],
        query: &ScopedActiveFindingsQuery,
    ) -> (r: ScopedActiveFindingsPage)
        requires
            self.wf(),
        ensures
            ({
                let s = sorted_seq_of::<ScopedPageKey>(
                    scoped_entries(
                        self@,
                        views_of(scope@),
                        query.min_severity,
                        query.governance_state,
                        opt_text(query.package_name),
                    ),
                );
                &&& r.total == s.len()
                &&& r.offset == query.offset
                &&& r.limit == normalized_page_limit(query.limit)
                &&& r.returned == r.findings@.len()
                &&& r.findings@.len() == window_len(s.len() as int, query.offset as int, r.limit as int)
                &&& forall|i: int|
                    0 <= i < r.findings@.len() ==> projects(
                        #[trigger] r.findings@[i],
                        self@,
                        s[query.offset + i].1,
                        s[query.offset + i].2,
                    )
            }),
    {
        let ghost sv = views_of(scope@);
        let ghost entries = scoped_entries(
            self@,
            sv,
            query.min_severity,
            query.governance_state,
            opt_text(query.package_name),
        );
        let limit = normalize_page_limit(query.limit);
        let mut acc: OrderedSet<ScopedPageKey> = OrderedSet::new();
        proof {
            assert(acc@.to_set() =~= Set::new(
                |e: (u8, ItemView, FindingKeyView)|
                    entries.contains(e) && exists|q: int| 0 <= q < 0 && sv[q] == e.1,
            ));
        }
        let mut p: usize = 0;
        while p < scope.len()
            invariant
                self.wf(),
                sv == views_of(scope@),
                entries == scoped_entries(
                    self@,
                    sv,
                    query.min_severity,
                    query.governance_state,
                    opt_text(query.package_name),
                ),
                p <= scope@.len(),
                acc.wf(),
                acc@.to_set() == Set::new(
                    |e: (u8, ItemView, FindingKeyView)|
                        entries.contains(e) && exists|q: int| 0 <= q < p && sv[q] == e.1,
                ),
            decreases scope.len() - p,
        {
            self.collect_scoped_item(scope, p, query, &mut acc);
            p = p + 1;
        }
        proof {
            assert forall|e: (u8, ItemView, FindingKeyView)| #[trigger] entries.contains(e) implies exists|q: int|
                0 <= q < sv.len() && sv[q] == e.1 by {
                assert(sv.contains(e.1));
            }
            assert(acc@.to_set() =~= entries);
            lemma_sorted_seq_of::<ScopedPageKey>(acc@);
        }
        let total = acc.len();
        let mut findings: Vec<ScopedActiveFinding> = Vec::new();
        if query.offset < total {
            let mut t: usize = 0;
            while t < limit && t < total - query.offset
                invariant
                    self.wf(),
                    acc.wf(),
                    acc@.to_set() == entries,
                    entries == scoped_entries(
                        self@,
                        sv,
                        query.min_severity,
                        query.governance_state,
                        opt_text(query.package_name),
                    ),
                    total == acc@.len(),
                    query.offset < total,
                    t <= limit,
                    t <= total - query.offset,
                    findings@.len() == t,
                    forall|u: int|
                        0 <= u < t ==> projects(
                            #[trigger] findings@[u],
                            self@,
                            acc@[query.offset + u].1,
                            acc@[query.offset + u].2,
                        ),
                decreases limit - t,
            {
                let entry = acc.get(query.offset + t);
                proof {
                    assert(acc@.to_set().contains(acc@[query.offset + t]));
                }
                let m = self.snapshot(entry.item.component_key.as_str(), &entry.item.artifact).unwrap();
                let sev = *m.get(&entry.key).unwrap();
                findings.push(
                    self.project(&entry.item.component_key, &entry.item.artifact, &entry.key, sev),
                );
                t = t + 1;
            }
        }
        let returned = findings.len();
        ScopedActiveFindingsPage { total, returned, offset: query.offset, limit, findings }
    }
}

impl FindingReadModel {
    /// The snapshot of an item in finding order, with the model's key sequence.
    proof fn lemma_item_keys_absent(&self, iv: ItemView)
        requires
            !self@.active.contains_key(iv),
        ensures
            item_keys(self@, iv) == Seq::<FindingKeyView>::empty(),
    {
        let e = Seq::<FindingKeyView>::empty();
        assert(e.to_set() =~= findings_at(self@, iv).dom());
        lemma_sorted_seq_of::<FindingKey>(e);
    }

    /// Every active finding of the scope, item by item, each item's findings
    /// in finding order.
    pub fn visit_scoped_active_findings(&self, scope: &[CollectionScopedArtifact]) -> (r: Vec<
        ScopedActiveFinding,
    >)
        requires
            self.wf(),
        ensures
            ({
                let ps = scoped_pairs(self@, views_of(scope@));
                &&& r@.len() == ps.len()
                &&& forall|i: int|
                    0 <= i < ps.len() ==> projects(#[trigger] r@[i], self@, ps[i].0, ps[i].1)
            }),
    {
        let ghost sv = views_of(scope@);
        let ghost mut pairs: Seq<(ItemView, FindingKeyView)> = seq![];
        let mut out: Vec<ScopedActiveFinding> = Vec::new();
        let mut p: usize = 0;
        assert(sv.take(0) =~= Seq::<ItemView>::empty());
        while p < scope.len()
            invariant
                self.wf(),
                sv == views_of(scope@),
                p <= scope@.len(),
                pairs == scoped_pairs(self@, sv.take(p as int)),
                out@.len() == pairs.len(),
                forall|i: int|
                    0 <= i < pairs.len() ==> projects(#[trigger] out@[i], self@, pairs[i].0, pairs[i].1),
            decreases scope.len() - p,
        {
            let item = &scope[p];
            let ghost iv = item@;
            assert(sv[p as int] == iv);
            assert(sv.take(p + 1).drop_last() =~= sv.take(p as int));
            assert(sv.take(p + 1).last() == iv);
            let ghost base = pairs;
            match self.snapshot(item.component_key.as_str(), &item.artifact) {
                None => {
                    proof {
                        self.lemma_item_keys_absent(iv);
                        assert(scoped_pairs(self@, sv.take(p + 1)) =~= base);
                    }
                },
                Some(m) => {
                    proof {
                        m.lemma_keys();
                    }
                    let n = m.len();
                    let mut j: usize = 0;
                    while j < n
                        invariant
                            self.wf(),
                            m.wf(),
                            m@ == findings_at(self@, iv),
                            iv == item@,
                            n == m.key_seq().len(),
                            j <= n,
                            pairs == base + m.key_seq().take(j as int).map_values(
                                |k: FindingKeyView| (iv, k),
                            ),
                            out@.len() == pairs.len(),
                            forall|i: int|
                                0 <= i < pairs.len() ==> projects(
                                    #[trigger] out@[i],
                                    self@,
                                    pairs[i].0,
                                    pairs[i].1,
                                ),
                        decreases n - j,
                    {
                        let k = m.key_at(j);
                        let sev = *m.value_at(j);
                        out.push(self.project(&item.component_key, &item.artifact, k, sev));
                        proof {
                            assert(m.key_seq().take(j + 1) =~= m.key_seq().take(j as int).push(
                                m.key_seq()[j as int],
                            ));
                            pairs = pairs.push((iv, m.key_seq()[j as int]));
                            assert(pairs =~= base + m.key_seq().take(j + 1).map_values(
                                |k: FindingKeyView| (iv, k),
                            ));
                        }
                        j = j + 1;
                    }
                    proof {
                        m.lemma_keys();
                        assert(m.key_seq().take(n as int) =~= m.key_seq());
                        assert(scoped_pairs(self@, sv.take(p + 1)) =~= pairs);
                    }
                },
            }
            p = p + 1;
        }
        assert(sv.take(p as int) =~= sv);
        out
    }

    /// Identities of the findings of the scope that are in the query's
    /// governance state and pass its filters, in visit order; not paged.
    pub fn visit_bulk_governance_finding_refs(
        &self,
        scope: &[CollectionScopedArtifact],
        query: &BulkGovernanceQuery,
    ) -> (r: Vec<FindingRef>)
        requires
            self.wf(),
        ensures
            views_of(r@) == bulk_pairs(
                self@,
                scoped_pairs(self@, views_of(scope@)),
                query.governance_state,
                query.min_severity,
                opt_text(query.package_name),
            ),
    {
        let ghost sv = views_of(scope@);
        let ghost want = query.governance_state;
        let ghost min = query.min_severity;
        let ghost name = opt_text(query.package_name);
        let ghost mut pairs: Seq<(ItemView, FindingKeyView)> = seq![];
        let mut out: Vec<FindingRef> = Vec::new();
        let mut p: usize = 0;
        assert(sv.take(0) =~= Seq::<ItemView>::empty());
        assert(views_of(out@) =~= Seq::<FindingRefView>::empty());
        while p < scope.len()
            invariant
                self.wf(),
                sv == views_of(scope@),
                want == query.governance_state,
                min == query.min_severity,
                name == opt_text(query.package_name),
                p <= scope@.len(),
                pairs == scoped_pairs(self@, sv.take(p as int)),
                views_of(out@) == bulk_pairs(self@, pairs, want, min, name),
            decreases scope.len() - p,
        {
            let item = &scope[p];
            let ghost iv = item@;
            assert(sv[p as int] == iv);
            assert(sv.take(p + 1).drop_last() =~= sv.take(p as int));
            assert(sv.take(p + 1).last() == iv);
            let ghost base = pairs;
            match self.snapshot(item.component_key.as_str(), &item.artifact) {
                None => {
                    proof {
                        self.lemma_item_keys_absent(iv);
                        assert(scoped_pairs(self@, sv.take(p + 1)) =~= base);
                    }
                },
                Some(m) => {
                    proof {
                        m.lemma_keys();
                    }
                    let n = m.len();
                    let mut j: usize = 0;
                    while j < n
                        invariant
                            self.wf(),
                            m.wf(),
                            m@ == findings_at(self@, iv),
                            iv == item@,
                            want == query.governance_state,
                            min == query.min_severity,
                            name == opt_text(query.package_name),
                            n == m.key_seq().len(),
                            j <= n,
                            pairs == base + m.key_seq().take(j as int).map_values(
                                |k: FindingKeyView| (iv, k),
                            ),
                            views_of(out@) == bulk_pairs(self@, pairs, want, min, name),
                        decreases n - j,
                    {
                        let k = m.key_at(j);
                        let sev = *m.value_at(j);
                        let state = self.state_for(&item.component_key, &item.artifact, k);
                        let ghost before = pairs;
                        proof {
                            assert(m.key_seq().take(j + 1) =~= m.key_seq().take(j as int).push(
                                m.key_seq()[j as int],
                            ));
                            pairs = pairs.push((iv, m.key_seq()[j as int]));
                            assert(pairs =~= base + m.key_seq().take(j + 1).map_values(
                                |k: FindingKeyView| (iv, k),
                            ));
                            assert(pairs.drop_last() =~= before);
                            assert(m@.contains_key(k@));
                        }
                        if filters_pass(
                            sev,
                            state,
                            &k.package.name,
                            query.min_severity,
                            Some(query.governance_state),
                            &query.package_name,
                        ) {
                            let f = FindingRef {
                                component_key: item.component_key.clone(),
                                artifact: item.artifact.clone(),
                                vulnerability_id: k.vulnerability_id.clone(),
                                package: k.package.clone(),
                            };
                            let ghost prev = out@;
                            out.push(f);
                            assert(views_of(out@) =~= views_of(prev).push(f@));
                        }
                        j = j + 1;
                    }
                    proof {
                        m.lemma_keys();
                        assert(m.key_seq().take(n as int) =~= m.key_seq());
                        assert(scoped_pairs(self@, sv.take(p + 1)) =~= pairs);
                    }
                },
            }
            p = p + 1;
        }
        assert(sv.take(p as int) =~= sv);
        out
    }

    /// Count the findings that a bulk governance query targets, in visit
    /// order, and keep those that `keep` accepts; `keep` is asked once for
    /// each target, in that order.
    pub fn visit_bulk_governance_finding_refs_matching<F: Fn(&FindingRef) -> bool>(
        &self,
        scope: &[CollectionScopedArtifact],
        query: &BulkGovernanceQuery,
        keep: F,
    ) -> (r: (usize, Vec<FindingRef>))
        requires
            self.wf(),
            forall|f: &FindingRef| #[trigger] keep.requires((f,)),
        ensures
            exists|targets: Seq<FindingRef>, answers: Seq<bool>|
                {
                    &&& views_of(targets) == bulk_pairs(
                        self@,
                        scoped_pairs(self@, views_of(scope@)),
                        query.governance_state,
                        query.min_severity,
                        opt_text(query.package_name),
                    )
                    &&& r.0 == targets.len()
                    &&& answers.len() == targets.len()
                    &&& forall|i: int|
                        0 <= i < targets.len() ==> keep.ensures((&targets[i],), #[trigger] answers[i])
                    &&& r.1@ == kept(targets, answers)
                },
    {
        let targets = self.visit_bulk_governance_finding_refs(scope, query);
        let ghost mut answers: Seq<bool> = seq![];
        let mut out: Vec<FindingRef> = Vec::new();
        let mut i: usize = 0;
        while i < targets.len()
            invariant
                i <= targets@.len(),
                answers.len() == i,
                forall|f: &FindingRef| #[trigger] keep.requires((f,)),
                forall|j: int| 0 <= j < i ==> keep.ensures((&targets@[j],), #[trigger] answers[j]),
                out@ == kept(targets@.take(i as int), answers),
            decreases targets.len() - i,
        {
            let f = &targets[i];
            let yes = keep(f);
            let ghost before = answers;
            proof {
                answers = answers.push(yes);
                assert(targets@.take(i + 1).drop_last() =~= targets@.take(i as int));
                assert(answers.take(i as int) =~= before);
            }
            if yes {
                out.push(f.clone());
            }
            i = i + 1;
        }
        proof {
            assert(targets@.take(i as int) =~= targets@);
        }
        (targets.len(), out)
    }
}

/// Whether a finding passes the filters of a query.
fn filters_pass(
    severity: Severity,
    state: FindingGovernanceState,
    package_name: &String,
    min: Option<Severity>,
    want: Option<FindingGovernanceState>,
    name: &Option<String>,
) -> (r: bool)
    ensures
        r == passes(severity, state, package_name@, min, want, opt_text(*name)),
{
    let sev_ok = match min {
        Some(m) => severity_rank(severity) >= severity_rank(m),
        None => true,
    };
    let state_ok = match want {
        Some(w) => state == w,
        None => true,
    };
    let name_ok = match name {
        Some(n) => text_eq(package_name.as_str(), n.as_str()),
        None => true,
    };
    sev_ok && state_ok && name_ok
}

} // verus!
