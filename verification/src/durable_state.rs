//! The durable state boundary: every business change is recorded as one
//! durable event, and the domain state can be rebuilt from those events.
//!
//! This module holds the state and its rules. Writing the recorded events to
//! an append-only history, and reading them back, is done by the caller:
//! [`DurableState::take_unsaved`] hands out the events recorded since the last
//! call, and [`DurableState::replay`] rebuilds a state from a history.

use crate::collections::{views_of, OrderedMap};
use crate::findings::finding_governance::FindingRefView;
use crate::findings::finding_read_model::ReadModelView;
use crate::findings::finding_read_model::{FindingKeyView, ItemView};
use crate::findings::{
    ArtifactRef, EvidenceFreshness, FindingChangeSet, FindingGovernance, FindingGovernanceState,
    FindingIngestion, FindingIngestionError, FindingReadModel, FindingRef, ProviderScanReport,
    RiskAcceptance, Suppression,
};
use crate::findings::{
    AcceptRiskChange, AcceptRiskResult, BulkAcceptRiskResult, BulkReopenFindingResult,
    BulkSuppressFindingResult, FindingDecision, ReopenFindingChange, ReopenFindingResult, SuppressFindingChange,
    SuppressFindingResult,
};
use crate::integration::{
    ConfigureIntegrationRuntimeChange, ConfigureIntegrationRuntimeResult, IntegrationEvent,
    IntegrationEventPublishError, IntegrationRuntimeConfig, PendingIntegrationEvent,
    PublishIntegrationEventsResult,
};
use crate::integration::integration_events::{batch_advanced, batch_open};
use crate::inventory::component_inventory::{
    bind_outcome, collection_outcome, materialization_outcome, member_added_outcome,
    member_removed_outcome, provider_outcome, register_outcome, schedule_outcome, scope_of,
    inventory_sorted, lemma_addition_unchanged_keeps, lemma_bind_determined,
    lemma_binding_unchanged_keeps, lemma_member_added_determined, lemma_member_removed_determined,
    lemma_removal_unchanged_keeps, InventoryView,
};
use crate::inventory::{
    AddCollectionComponentChange, AddCollectionComponentResult, BindArtifactChange,
    BindArtifactResult, CollectionRegistration, ComponentRegistration,
    ConfigureCollectionScanScheduleChange, ConfigureCollectionScanScheduleResult,
    ConfigureProviderChange, ConfigureProviderResult, RegisterCollectionChange,
    RegisterCollectionResult, RegisterComponentChange, RegisterComponentResult,
    RemoveCollectionComponentChange, RemoveCollectionComponentResult,
};
use crate::findings::finding_ingestion::ingestion_error;
use crate::findings::finding_provider::same_report;
use crate::findings::finding_read_model::{
    bulk_pairs, canonical, finding_views, findings_at, scoped_pairs, BulkGovernanceQuery,
};
use crate::findings::finding_tracker::{change_set_of, snapshot_at, snapshot_identities};
use crate::integration::integration_events::{
    decimal, decimal_text, event_id_text, fitting_micros, id_from_clock, next_integration_event_id,
    system_time_to_micros, unix_micros, unix_nanos_now,
};
use crate::operations::system_event_trace::{clamped_limit, events_page, shared_events};
use crate::operations::{
    query_system_events, SystemEvent, SystemEventKind, SystemEventsPage, SystemEventsQuery,
};
use crate::order::{opt_text, owned, text_eq};
use vstd::prelude::*;

verus! {

/// How many system events the state keeps, newest first.
pub const SYSTEM_EVENT_LOG_CAPACITY: usize = 512;

/// The view of one governance decision: state, reason and expiry.
pub type DecisionView = (FindingGovernanceState, Seq<char>, Option<u64>);

/// One business-relevant state change, as it is kept in the durable history.
#[derive(Debug)]
pub enum DurableEvent {
    ComponentRegistered { registration: ComponentRegistration },
    CollectionRegistered { registration: CollectionRegistration },
    ArtifactBound { component_key: String, artifact: ArtifactRef },
    ComponentProviderConfigured { component_key: String, provider_key: String },
    CollectionComponentAdded { collection_key: String, component_key: String },
    CollectionComponentRemoved { collection_key: String, component_key: String },
    CollectionScanScheduleConfigured {
        collection_key: String,
        cadence_minutes: u32,
        freshness: EvidenceFreshness,
        next_due_at_unix_ms: u64,
    },
    CollectionScanScheduleMaterialized {
        collection_key: String,
        next_due_at_unix_ms: u64,
        materialized_at_unix_ms: u64,
        enqueued_commands: u32,
    },
    IntegrationRuntimeConfigured { config: IntegrationRuntimeConfig },
    ProviderScanRecorded {
        command_id: Option<String>,
        report: ProviderScanReport,
        change_set: Option<FindingChangeSet>,
        pending_integration_event: Option<PendingIntegrationEvent>,
    },
    FindingRiskAccepted { finding: FindingRef, acceptance: RiskAcceptance, occurred_at_unix_ms: u64 },
    FindingsRiskAccepted {
        collection_key: String,
        findings: Vec<FindingRef>,
        acceptance: RiskAcceptance,
        occurred_at_unix_ms: u64,
    },
    FindingSuppressed { finding: FindingRef, suppression: Suppression, occurred_at_unix_ms: u64 },
    FindingsSuppressed {
        collection_key: String,
        findings: Vec<FindingRef>,
        suppression: Suppression,
        occurred_at_unix_ms: u64,
    },
    FindingReopened { finding: FindingRef, occurred_at_unix_ms: u64 },
    FindingsReopened { collection_key: String, findings: Vec<FindingRef>, occurred_at_unix_ms: u64 },
    IntegrationEventPublished { event_id: String, occurred_at_unix_ms: u64 },
    IntegrationEventPublicationFailed {
        event_id: String,
        occurred_at_unix_ms: u64,
        retryable: bool,
        detail: String,
    },
}

/// Canonical failure returned by the durable state boundary.
#[derive(Debug, PartialEq, Eq)]
pub enum DurableStateError {
    CorruptHistory { line: usize, reason: String },
    Ingestion(FindingIngestionError),
    MissingCollection(String),
    MissingFinding(String),
    Time(String),
}

impl DurableStateError {
    pub fn as_str(&self) -> (r: &'static str)
        ensures
            r@ == (match self {
                Self::CorruptHistory { .. } => "corrupt-history"@,
                Self::Ingestion(FindingIngestionError::UnmanagedComponent) => "unmanaged-component"@,
                Self::Ingestion(FindingIngestionError::UnmanagedArtifact) => "unmanaged-artifact"@,
                Self::MissingCollection(_) => "missing-collection"@,
                Self::MissingFinding(_) => "missing-finding"@,
                Self::Time(_) => "invalid-time"@,
            }),
    {
        match self {
            Self::CorruptHistory { .. } => "corrupt-history",
            Self::Ingestion(FindingIngestionError::UnmanagedComponent) => "unmanaged-component",
            Self::Ingestion(FindingIngestionError::UnmanagedArtifact) => "unmanaged-artifact",
            Self::MissingCollection(_) => "missing-collection",
            Self::MissingFinding(_) => "missing-finding",
            Self::Time(_) => "invalid-time",
        }
    }
}

/// The system-event log after one more event: newest first, at most
/// [`SYSTEM_EVENT_LOG_CAPACITY`] events.
pub open spec fn log_push(log: Seq<SystemEvent>, e: SystemEvent) -> Seq<SystemEvent> {
    let s = seq![e] + log;
    if s.len() > SYSTEM_EVENT_LOG_CAPACITY {
        s.take(SYSTEM_EVENT_LOG_CAPACITY as int)
    } else {
        s
    }
}

/// The in-memory domain state that a durable history rebuilds.
pub struct DurableState {
    ingestion: FindingIngestion,
    governance: FindingGovernance,
    read_model: FindingReadModel,
    integration_runtime_config: Option<IntegrationRuntimeConfig>,
    applied_scan_commands: OrderedMap<String, FindingChangeSet>,
    pending_integration_events: Vec<PendingIntegrationEvent>,
    system_events: Vec<SystemEvent>,
    unsaved: Vec<DurableEvent>,
}

/// Everything but the inventory is as it was.
pub open spec fn keeps_all_but_inventory(a: DurableState, b: DurableState) -> bool {
    &&& b.tracker_view() == a.tracker_view()
    &&& b.read_view() == a.read_view()
    &&& b.governance_view() == a.governance_view()
    &&& b.config() == a.config()
    &&& b.applied() == a.applied()
    &&& b.pending_events() == a.pending_events()
    &&& b.trace() == a.trace()
}


/// When `changed`, the state recorded exactly one more durable event (the
/// last of `b.unsaved()`); otherwise it recorded none.
pub open spec fn recorded_one(a: DurableState, b: DurableState, changed: bool) -> bool {
    if changed {
        &&& b.unsaved().len() == a.unsaved().len() + 1
        &&& b.unsaved().drop_last() == a.unsaved()
    } else {
        b.unsaved() == a.unsaved()
    }
}

/// The system event that a scheduler pass over a collection leaves in the log.
pub open spec fn is_scheduler_event(
    e: SystemEvent,
    id: Seq<char>,
    collection_key: Seq<char>,
    next_due_at_unix_ms: u64,
    materialized_at_unix_ms: u64,
    enqueued_commands: u32,
) -> bool {
    &&& e.event_id@ == id
    &&& e.occurred_at_unix_ms == materialized_at_unix_ms
    &&& e.kind == SystemEventKind::CollectionScanMaterialized
    &&& opt_text(e.collection_key) == Some(collection_key)
    &&& e.component_key is None
    &&& e.command_id is None
    &&& e.integration_event_id is None
    &&& e.finding_count == Some(enqueued_commands)
    &&& e.retryable is None
    &&& opt_text(e.detail) == Some(
        "next due "@ + decimal(next_due_at_unix_ms as nat) + ", enqueued "@ + decimal(
            enqueued_commands as nat,
        ),
    )
}

/// Two integration runtime configurations that say the same.
pub open spec fn same_config(a: IntegrationRuntimeConfig, b: IntegrationRuntimeConfig) -> bool {
    match (a, b) {
        (IntegrationRuntimeConfig::Fixture, IntegrationRuntimeConfig::Fixture) => true,
        (
            IntegrationRuntimeConfig::Http { endpoint_url: u, timeout_ms: t },
            IntegrationRuntimeConfig::Http { endpoint_url: v, timeout_ms: w },
        ) => u@ == v@ && t == w,
        _ => false,
    }
}

/// The pending integration event carries the change set of one recorded
/// provider snapshot.
pub open spec fn announces_change(
    p: PendingIntegrationEvent,
    report: ProviderScanReport,
    cs: FindingChangeSet,
) -> bool {
    &&& p.event matches IntegrationEvent::FindingChangesObserved {
        component_key: c,
        artifact: a,
        provider_key: k,
        freshness: f,
        observed_at_micros: t,
        change_set: s,
    } && c@ == report.component_key@ && a == report.artifact && k@ == report.provider_key@
        && f == report.freshness && fitting_micros(unix_micros(report.observed_at)) == Some(t)
        && s == cs
}

/// What recording one accepted provider snapshot does to the state: the
/// tracker and the read side take the snapshot, the change set is announced
/// as a pending integration event under a fresh identity, and the report is
/// recorded.
pub open spec fn scan_recorded(
    a: DurableState,
    b: DurableState,
    command_id: Option<Seq<char>>,
    report: ProviderScanReport,
    cs: FindingChangeSet,
) -> bool {
    &&& scan_recorded_as(a, b, command_id, report, cs, b.pending_events().last().event_id@)
    &&& exists|nanos: nat|
        b.pending_events().last().event_id@ == #[trigger] event_id_text("finding-changes"@, nanos)
}

/// What recording one accepted provider snapshot does to the state, with the
/// pending integration event named `event_id`.
pub open spec fn scan_recorded_as(
    a: DurableState,
    b: DurableState,
    command_id: Option<Seq<char>>,
    report: ProviderScanReport,
    cs: FindingChangeSet,
    event_id: Seq<char>,
) -> bool {
    let item = (report.component_key@, report.artifact@);
    let prev = snapshot_at(a.tracker_view(), item);
    let cur = snapshot_identities(report);
    &&& b.inventory_view() == a.inventory_view()
    &&& b.tracker_view() == a.tracker_view().insert(item, cur)
    &&& (cs.discovered as int, cs.repeated as int, cs.withdrawn as int, cs.active as int)
        == change_set_of(prev, cur)
    &&& b.read_view().decisions == a.read_view().decisions
    &&& b.read_view().active == a.read_view().active.insert(
        item,
        canonical(finding_views(report.findings@)),
    )
    &&& b.governance_view() == a.governance_view()
    &&& b.config() == a.config()
    &&& b.applied() == match command_id {
        Some(c) => a.applied().insert(c, cs),
        None => a.applied(),
    }
    &&& b.trace() == a.trace()
    &&& b.pending_events().len() == a.pending_events().len() + 1
    &&& b.pending_events().drop_last() == a.pending_events()
    &&& announces_change(b.pending_events().last(), report, cs)
    &&& b.pending_events().last().event_id@ == event_id
    &&& b.unsaved().len() == a.unsaved().len() + 1
    &&& b.unsaved().drop_last() == a.unsaved()
    &&& b.unsaved().last() matches DurableEvent::ProviderScanRecorded {
        command_id: c,
        report: rep,
        change_set: Some(s),
        pending_integration_event: Some(p),
    } && opt_text(c) == command_id && same_report(rep, report) && s == cs
        && p == b.pending_events().last()
}

/// What recording an accepted provider snapshot answers, with `event_id`
/// the identity the clock gave its integration event (none when the clock
/// read a time before the Unix epoch): a time error when there is no
/// identity or the observation time does not fit in microseconds, with
/// nothing changed; else the recording, under that identity.
pub open spec fn scan_answer(
    a: DurableState,
    b: DurableState,
    command_id: Option<Seq<char>>,
    report: ProviderScanReport,
    event_id: Option<String>,
    r: Result<FindingChangeSet, DurableStateError>,
) -> bool {
    match event_id {
        None => b == a && (r matches Err(DurableStateError::Time(m)) && m@ == CLOCK_BEFORE_EPOCH@),
        Some(id) => if fitting_micros(unix_micros(report.observed_at)) is None {
            b == a && (r matches Err(DurableStateError::Time(m)) && m@ == TIMESTAMP_OUT_OF_RANGE@)
        } else {
            r matches Ok(cs) && scan_recorded_as(a, b, command_id, report, cs, id@)
        },
    }
}

/// The decision that a risk acceptance records.
pub open spec fn acceptance_decision(a: RiskAcceptance) -> DecisionView {
    (FindingGovernanceState::RiskAccepted, a.reason@, a.until_unix_ms)
}

/// The decision that a suppression records.
pub open spec fn suppression_decision(s: Suppression) -> DecisionView {
    (FindingGovernanceState::Suppressed, s.reason@, None)
}

/// Whether a finding is currently active on the read side.
pub open spec fn is_active(v: ReadModelView, f: FindingRefView) -> bool {
    findings_at(v, (f.component_key, f.artifact)).contains_key((f.vulnerability_id, f.package))
}

/// Whether a finding already carries exactly this decision.
pub open spec fn already_decided(
    g: Map<FindingRefView, DecisionView>,
    f: FindingRefView,
    d: DecisionView,
) -> bool {
    g.contains_key(f) && g[f] == d
}

/// The findings of `fs` that do not already carry decision `d`, in order.
pub open spec fn undecided(
    g: Map<FindingRefView, DecisionView>,
    fs: Seq<FindingRefView>,
    d: DecisionView,
) -> Seq<FindingRefView>
    decreases fs.len(),
{
    if fs.len() == 0 {
        seq![]
    } else {
        undecided(g, fs.drop_last(), d) + if already_decided(g, fs.last(), d) {
            seq![]
        } else {
            seq![fs.last()]
        }
    }
}

/// The decisions after giving each finding of `fs`, in turn, decision `d`.
pub open spec fn decide_seq(
    g: Map<FindingRefView, DecisionView>,
    fs: Seq<FindingRefView>,
    d: DecisionView,
) -> Map<FindingRefView, DecisionView>
    decreases fs.len(),
{
    if fs.len() == 0 {
        g
    } else {
        decide_seq(g, fs.drop_last(), d).insert(fs.last(), d)
    }
}

/// The findings of a collection that a bulk governance query targets, in
/// visit order.
pub open spec fn bulk_targets(
    s: DurableState,
    collection_key: Seq<char>,
    query: BulkGovernanceQuery,
) -> Seq<FindingRefView> {
    let inv = s.inventory_view();
    let v = s.read_view();
    bulk_pairs(
        v,
        scoped_pairs(v, scope_of(inv, inv.collections[collection_key].members)),
        query.governance_state,
        query.min_severity,
        opt_text(query.package_name),
    )
}

/// A count as a `u32`, when it fits.
pub open spec fn count_of(n: nat) -> Option<u32> {
    if n <= u32::MAX {
        Some(n as u32)
    } else {
        None
    }
}

/// What deciding the findings `fs` does to the state: each gets decision
/// `d` (on the read side too), one durable event is recorded and one system
/// event is logged.
pub open spec fn decided(
    a: DurableState,
    b: DurableState,
    fs: Seq<FindingRefView>,
    d: DecisionView,
) -> bool {
    &&& b.inventory_view() == a.inventory_view()
    &&& b.tracker_view() == a.tracker_view()
    &&& b.governance_view() == decide_seq(a.governance_view(), fs, d)
    &&& b.read_view().decisions == b.governance_view()
    &&& b.read_view().active == a.read_view().active
    &&& b.config() == a.config()
    &&& b.applied() == a.applied()
    &&& b.pending_events() == a.pending_events()
    &&& b.unsaved().len() == a.unsaved().len() + 1
    &&& b.unsaved().drop_last() == a.unsaved()
    &&& b.trace() == log_push(a.trace(), b.trace()[0])
}

/// The findings of `fs` that carry a decision, in order.
pub open spec fn with_decision(
    g: Map<FindingRefView, DecisionView>,
    fs: Seq<FindingRefView>,
) -> Seq<FindingRefView>
    decreases fs.len(),
{
    if fs.len() == 0 {
        seq![]
    } else {
        with_decision(g, fs.drop_last()) + if g.contains_key(fs.last()) {
            seq![fs.last()]
        } else {
            seq![]
        }
    }
}

/// The decisions after withdrawing, in turn, the decision of each finding
/// of `fs`.
pub open spec fn reopen_seq(
    g: Map<FindingRefView, DecisionView>,
    fs: Seq<FindingRefView>,
) -> Map<FindingRefView, DecisionView>
    decreases fs.len(),
{
    if fs.len() == 0 {
        g
    } else {
        reopen_seq(g, fs.drop_last()).remove(fs.last())
    }
}

/// What reopening the findings `fs` does to the state: each loses its
/// decision (on the read side too), one durable event is recorded and one
/// system event is logged.
pub open spec fn reopened(a: DurableState, b: DurableState, fs: Seq<FindingRefView>) -> bool {
    &&& b.inventory_view() == a.inventory_view()
    &&& b.tracker_view() == a.tracker_view()
    &&& b.governance_view() == reopen_seq(a.governance_view(), fs)
    &&& b.read_view().decisions == b.governance_view()
    &&& b.read_view().active == a.read_view().active
    &&& b.config() == a.config()
    &&& b.applied() == a.applied()
    &&& b.pending_events() == a.pending_events()
    &&& b.unsaved().len() == a.unsaved().len() + 1
    &&& b.unsaved().drop_last() == a.unsaved()
    &&& b.trace() == log_push(a.trace(), b.trace()[0])
}

/// The state after replaying a reopening of the findings `fs`: each loses
/// its decision, and one system event is logged; nothing is recorded.
pub open spec fn reopen_replayed(a: DurableState, b: DurableState, fs: Seq<FindingRefView>) -> bool {
    &&& b.inventory_view() == a.inventory_view()
    &&& b.tracker_view() == a.tracker_view()
    &&& b.governance_view() == reopen_seq(a.governance_view(), fs)
    &&& b.read_view().decisions == b.governance_view()
    &&& b.read_view().active == a.read_view().active
    &&& b.config() == a.config()
    &&& b.applied() == a.applied()
    &&& b.pending_events() == a.pending_events()
    &&& b.unsaved() == a.unsaved()
    &&& b.trace() == log_push(a.trace(), b.trace()[0])
}

/// The system event that a governance change leaves in the log.
pub open spec fn is_governance_event(
    e: SystemEvent,
    id: Seq<char>,
    t: u64,
    kind: SystemEventKind,
    collection_key: Option<Seq<char>>,
    component_key: Option<Seq<char>>,
    count: Option<u32>,
    detail: Option<Seq<char>>,
) -> bool {
    &&& e.event_id@ == id
    &&& e.occurred_at_unix_ms == t
    &&& e.kind == kind
    &&& opt_text(e.collection_key) == collection_key
    &&& opt_text(e.component_key) == component_key
    &&& e.command_id is None
    &&& e.integration_event_id is None
    &&& e.finding_count == count
    &&& e.retryable is None
    &&& opt_text(e.detail) == detail
}

/// The pending events once the first one with identity `id` is gone; all of
/// them when none has it.
pub open spec fn without_event(s: Seq<PendingIntegrationEvent>, id: Seq<char>) -> Seq<
    PendingIntegrationEvent,
>
    decreases s.len(),
{
    if s.len() == 0 {
        s
    } else if s[0].event_id@ == id {
        s.drop_first()
    } else {
        seq![s[0]] + without_event(s.drop_first(), id)
    }
}

/// The state after an integration event was published: the event leaves
/// the pending events, and nothing else of the domain changes.
pub open spec fn publication_recorded(a: DurableState, b: DurableState, event_id: Seq<char>) -> bool {
    &&& b.pending_events() == without_event(a.pending_events(), event_id)
    &&& b.inventory_view() == a.inventory_view()
    &&& b.tracker_view() == a.tracker_view()
    &&& b.read_view() == a.read_view()
    &&& b.governance_view() == a.governance_view()
    &&& b.config() == a.config()
    &&& b.applied() == a.applied()
}

/// The system event that a publication outcome leaves in the log.
pub open spec fn is_publication_event(
    e: SystemEvent,
    id: Seq<char>,
    t: u64,
    kind: SystemEventKind,
    event_id: Seq<char>,
    retryable: Option<bool>,
    detail: Option<Seq<char>>,
) -> bool {
    &&& e.event_id@ == id
    &&& e.occurred_at_unix_ms == t
    &&& e.kind == kind
    &&& e.collection_key is None
    &&& e.component_key is None
    &&& e.command_id is None
    &&& opt_text(e.integration_event_id) == Some(event_id)
    &&& e.finding_count is None
    &&& e.retryable == retryable
    &&& opt_text(e.detail) == detail
}

/// The text of an ingestion error.
pub open spec fn ingestion_error_text(e: FindingIngestionError) -> Seq<char> {
    match e {
        FindingIngestionError::UnmanagedComponent => "unmanaged-component"@,
        FindingIngestionError::UnmanagedArtifact => "unmanaged-artifact"@,
    }
}

/// Every view of the two states is the same.
pub open spec fn same_views(a: DurableState, b: DurableState) -> bool {
    &&& b.inventory_view() == a.inventory_view()
    &&& keeps_all_but_inventory(a, b)
    &&& b.unsaved() == a.unsaved()
}

/// A state with nothing in it: no inventory, findings, decisions,
/// configuration, applied commands, pending events, trace or unsaved events.
pub open spec fn fresh(s: DurableState) -> bool {
    &&& s.inventory_view().components.is_empty()
    &&& s.inventory_view().collections.is_empty()
    &&& s.tracker_view().is_empty()
    &&& s.read_view().active.is_empty()
    &&& s.governance_view().is_empty()
    &&& s.config() is None
    &&& s.applied().is_empty()
    &&& s.pending_events().len() == 0
    &&& s.trace().len() == 0
    &&& s.unsaved().len() == 0
}

/// The states that replaying `history` passes through: it starts from a
/// fresh state, and the event on line `i + 1` takes `states[i]` to
/// `states[i + 1]` without being refused. Every state on the way is
/// well formed.
pub open spec fn replay_trace(history: Seq<DurableEvent>, states: Seq<DurableState>) -> bool {
    &&& states.len() == history.len() + 1
    &&& fresh(states[0])
    &&& forall|i: int| 0 <= i < states.len() ==> (#[trigger] states[i]).wf()
    &&& forall|i: int|
        0 <= i < history.len() ==> event_replayed(
            states[i],
            states[i + 1],
            #[trigger] history[i],
            (i + 1) as usize,
            Ok(()),
        )
}

/// Replaying `history` goes through its first `line - 1` events and the
/// event on `line` is refused with `e`.
pub open spec fn replay_refused(history: Seq<DurableEvent>, line: int, e: DurableStateError) -> bool {
    exists|states: Seq<DurableState>, b: DurableState|
        replay_trace(history.take(line - 1), states) && b.wf() && #[trigger] event_replayed(
            states.last(),
            b,
            history[line - 1],
            line as usize,
            Err(e),
        )
}

/// The two states hold the same domain: everything a durable history
/// rebuilds, that is all but the system-event log and the unsaved events.
pub open spec fn same_domain(a: DurableState, b: DurableState) -> bool {
    &&& b.inventory_view() == a.inventory_view()
    &&& b.tracker_view() == a.tracker_view()
    &&& b.read_view() == a.read_view()
    &&& b.governance_view() == a.governance_view()
    &&& b.config() == a.config()
    &&& b.applied() == a.applied()
    &&& b.pending_events() == a.pending_events()
}

/// Replaying `e`, on any well-formed state with the domain of `a` and at any
/// line, is accepted and leaves the domain of `b`.
pub open spec fn replays_to(a: DurableState, e: DurableEvent, b: DurableState) -> bool {
    forall|a2: DurableState, c: DurableState, line: usize, r: Result<(), DurableStateError>|
        same_domain(a, a2) && a2.wf() && c.wf() && #[trigger] event_replayed(a2, c, e, line, r)
            ==> r is Ok && same_domain(b, c)
}

/// One step of live work from `a` to `b`: it either recorded nothing and left
/// the domain as it was, or recorded one event that replays to the domain
/// of `b`.
pub open spec fn live_step(a: DurableState, b: DurableState) -> bool {
    ||| b.unsaved() == a.unsaved() && same_domain(a, b)
    ||| {
        &&& b.unsaved().len() == a.unsaved().len() + 1
        &&& b.unsaved().drop_last() == a.unsaved()
        &&& replays_to(a, b.unsaved().last(), b)
    }
}

/// Replaying `history` is never refused, and whatever states it passes
/// through, it ends with the domain of `s`.
pub open spec fn rebuilds(history: Seq<DurableEvent>, s: DurableState) -> bool {
    &&& forall|states: Seq<DurableState>|
        #[trigger] replay_trace(history, states) ==> same_domain(s, states.last())
    &&& forall|line: int, e: DurableStateError|
        1 <= line <= history.len() ==> !#[trigger] replay_refused(history, line, e)
}

/// Whether an event changes the inventory.
pub open spec fn inventory_event(e: DurableEvent) -> bool {
    ||| e is ComponentRegistered
    ||| e is CollectionRegistered
    ||| e is ArtifactBound
    ||| e is ComponentProviderConfigured
    ||| e is CollectionComponentAdded
    ||| e is CollectionComponentRemoved
    ||| e is CollectionScanScheduleConfigured
    ||| e is CollectionScanScheduleMaterialized
}

/// Whether an event changes governance decisions.
pub open spec fn governance_change(e: DurableEvent) -> bool {
    ||| e is FindingRiskAccepted
    ||| e is FindingsRiskAccepted
    ||| e is FindingSuppressed
    ||| e is FindingsSuppressed
    ||| e is FindingReopened
    ||| e is FindingsReopened
}

/// The reason a replayed history is refused at an event.
pub open spec fn corrupt_at(r: Result<(), DurableStateError>, line: usize, reason: Seq<char>) -> bool {
    r matches Err(DurableStateError::CorruptHistory { line: l, reason: m }) && l == line && m@ == reason
}

/// Only the inventory changed, as an inventory operation with answer change
/// `rejected` says; the replay is refused at `line` exactly when it was
/// rejected.
pub open spec fn inventory_replayed(
    a: DurableState,
    b: DurableState,
    rejected: bool,
    r: Result<(), DurableStateError>,
    line: usize,
    reason: Seq<char>,
) -> bool {
    &&& keeps_all_but_inventory(a, b)
    &&& b.unsaved() == a.unsaved()
    &&& rejected ==> corrupt_at(r, line, reason)
    &&& !rejected ==> r is Ok
}

/// The governance side after replaying a decision over findings `fs`: each
/// gets decision `d`, and one system event is logged; nothing is recorded.
pub open spec fn decision_replayed(
    a: DurableState,
    b: DurableState,
    fs: Seq<FindingRefView>,
    d: DecisionView,
) -> bool {
    &&& b.inventory_view() == a.inventory_view()
    &&& b.tracker_view() == a.tracker_view()
    &&& b.governance_view() == decide_seq(a.governance_view(), fs, d)
    &&& b.read_view().decisions == b.governance_view()
    &&& b.read_view().active == a.read_view().active
    &&& b.config() == a.config()
    &&& b.applied() == a.applied()
    &&& b.pending_events() == a.pending_events()
    &&& b.unsaved() == a.unsaved()
    &&& b.trace() == log_push(a.trace(), b.trace()[0])
}

/// What replaying one durable event, found at `line` of a history, does to
/// the state.
pub open spec fn event_replayed(
    a: DurableState,
    b: DurableState,
    event: DurableEvent,
    line: usize,
    r: Result<(), DurableStateError>,
) -> bool {
    let ln = decimal(line as nat);
    match event {
        DurableEvent::ComponentRegistered { registration } => exists|x: RegisterComponentResult|
            register_outcome(a.inventory_view(), registration, b.inventory_view(), x)
                && inventory_replayed(
                a,
                b,
                x.change == RegisterComponentChange::Rejected,
                r,
                line,
                "conflicting component registration"@,
            ),
        DurableEvent::CollectionRegistered { registration } => exists|x: RegisterCollectionResult|
            collection_outcome(a.inventory_view(), registration, b.inventory_view(), x)
                && inventory_replayed(
                a,
                b,
                x.change == RegisterCollectionChange::Rejected,
                r,
                line,
                "conflicting collection registration"@,
            ),
        DurableEvent::ArtifactBound { component_key, artifact } => exists|x: BindArtifactResult|
            bind_outcome(a.inventory_view(), component_key@, artifact, b.inventory_view(), x)
                && inventory_replayed(
                a,
                b,
                x.change == BindArtifactChange::Rejected,
                r,
                line,
                "invalid artifact binding"@,
            ),
        DurableEvent::ComponentProviderConfigured { component_key, provider_key } => exists|
            x: ConfigureProviderResult,
        |
            provider_outcome(
                a.inventory_view(),
                component_key@,
                provider_key@,
                b.inventory_view(),
                x,
            ) && inventory_replayed(
                a,
                b,
                x.change == ConfigureProviderChange::Rejected,
                r,
                line,
                "invalid provider configuration"@,
            ),
        DurableEvent::CollectionComponentAdded { collection_key, component_key } => exists|
            x: AddCollectionComponentResult,
        |
            member_added_outcome(
                a.inventory_view(),
                collection_key@,
                component_key@,
                b.inventory_view(),
                x,
            ) && inventory_replayed(
                a,
                b,
                x.change == AddCollectionComponentChange::Rejected,
                r,
                line,
                "invalid collection membership add"@,
            ),
        DurableEvent::CollectionComponentRemoved { collection_key, component_key } => exists|
            x: RemoveCollectionComponentResult,
        |
            member_removed_outcome(
                a.inventory_view(),
                collection_key@,
                component_key@,
                b.inventory_view(),
                x,
            ) && inventory_replayed(
                a,
                b,
                x.change == RemoveCollectionComponentChange::Rejected,
                r,
                line,
                "invalid collection membership removal"@,
            ),
        DurableEvent::CollectionScanScheduleConfigured {
            collection_key,
            cadence_minutes,
            freshness,
            next_due_at_unix_ms,
        } => exists|x: ConfigureCollectionScanScheduleResult|
            schedule_outcome(
                a.inventory_view(),
                collection_key@,
                cadence_minutes,
                freshness,
                next_due_at_unix_ms,
                b.inventory_view(),
                x,
            ) && inventory_replayed(
                a,
                b,
                x.change == ConfigureCollectionScanScheduleChange::Rejected,
                r,
                line,
                "invalid collection scan schedule"@,
            ),
        DurableEvent::CollectionScanScheduleMaterialized {
            collection_key,
            next_due_at_unix_ms,
            materialized_at_unix_ms,
            enqueued_commands,
        } => exists|x: ConfigureCollectionScanScheduleResult|
            materialization_outcome(
                a.inventory_view(),
                collection_key@,
                next_due_at_unix_ms,
                materialized_at_unix_ms,
                enqueued_commands,
                b.inventory_view(),
                x,
            ) && b.tracker_view() == a.tracker_view() && b.read_view() == a.read_view()
                && b.governance_view() == a.governance_view() && b.config() == a.config()
                && b.applied() == a.applied() && b.pending_events() == a.pending_events()
                && b.unsaved() == a.unsaved() && if x.change
                == ConfigureCollectionScanScheduleChange::Rejected {
                corrupt_at(r, line, "invalid collection scan materialization"@) && b.trace()
                    == a.trace()
            } else {
                &&& r is Ok
                &&& b.trace() == log_push(a.trace(), b.trace()[0])
                &&& is_scheduler_event(
                    b.trace()[0],
                    "durable-state-scheduler-"@ + ln,
                    collection_key@,
                    next_due_at_unix_ms,
                    materialized_at_unix_ms,
                    enqueued_commands,
                )
            },
        DurableEvent::IntegrationRuntimeConfigured { config } => {
            &&& r is Ok
            &&& b.config() == Some(config)
            &&& b.inventory_view() == a.inventory_view()
            &&& b.tracker_view() == a.tracker_view()
            &&& b.read_view() == a.read_view()
            &&& b.governance_view() == a.governance_view()
            &&& b.applied() == a.applied()
            &&& b.pending_events() == a.pending_events()
            &&& b.trace() == a.trace()
            &&& b.unsaved() == a.unsaved()
        },
        DurableEvent::ProviderScanRecorded {
            command_id,
            report,
            change_set,
            pending_integration_event,
        } => match ingestion_error(a.inventory_view(), report) {
            Some(e) => corrupt_at(
                r,
                line,
                "provider report cannot be replayed: "@ + ingestion_error_text(e),
            ) && same_views(a, b),
            None => {
                let item = (report.component_key@, report.artifact@);
                &&& r is Ok
                &&& b.inventory_view() == a.inventory_view()
                &&& b.tracker_view() == a.tracker_view().insert(item, snapshot_identities(report))
                &&& b.read_view().decisions == a.read_view().decisions
                &&& b.read_view().active == a.read_view().active.insert(
                    item,
                    canonical(finding_views(report.findings@)),
                )
                &&& b.governance_view() == a.governance_view()
                &&& b.config() == a.config()
                &&& b.applied() == match (command_id, change_set) {
                    (Some(c), Some(cs)) => a.applied().insert(c@, cs),
                    _ => a.applied(),
                }
                &&& b.pending_events() == match pending_integration_event {
                    Some(p) => a.pending_events().push(p),
                    None => a.pending_events(),
                }
                &&& b.trace() == a.trace()
                &&& b.unsaved() == a.unsaved()
            },
        },
        DurableEvent::FindingRiskAccepted { finding, acceptance, occurred_at_unix_ms } => {
            &&& r is Ok
            &&& decision_replayed(a, b, seq![finding@], acceptance_decision(acceptance))
            &&& is_governance_event(
                b.trace()[0],
                "durable-state-risk-accepted-"@ + ln,
                occurred_at_unix_ms,
                SystemEventKind::FindingRiskAccepted,
                None,
                Some(finding.component_key@),
                Some(1u32),
                Some(acceptance.reason@),
            )
        },
        DurableEvent::FindingsRiskAccepted { collection_key, findings, acceptance, occurred_at_unix_ms } => {
            &&& r is Ok
            &&& decision_replayed(a, b, views_of(findings@), acceptance_decision(acceptance))
            &&& is_governance_event(
                b.trace()[0],
                "durable-state-risk-accepted-many-"@ + ln,
                occurred_at_unix_ms,
                SystemEventKind::FindingsRiskAccepted,
                Some(collection_key@),
                None,
                count_of(findings@.len()),
                Some(acceptance.reason@),
            )
        },
        DurableEvent::FindingSuppressed { finding, suppression, occurred_at_unix_ms } => {
            &&& r is Ok
            &&& decision_replayed(a, b, seq![finding@], suppression_decision(suppression))
            &&& is_governance_event(
                b.trace()[0],
                "durable-state-suppressed-"@ + ln,
                occurred_at_unix_ms,
                SystemEventKind::FindingSuppressed,
                None,
                Some(finding.component_key@),
                Some(1u32),
                Some(suppression.reason@),
            )
        },
        DurableEvent::FindingsSuppressed { collection_key, findings, suppression, occurred_at_unix_ms } => {
            &&& r is Ok
            &&& decision_replayed(a, b, views_of(findings@), suppression_decision(suppression))
            &&& is_governance_event(
                b.trace()[0],
                "durable-state-suppressed-many-"@ + ln,
                occurred_at_unix_ms,
                SystemEventKind::FindingsSuppressed,
                Some(collection_key@),
                None,
                count_of(findings@.len()),
                Some(suppression.reason@),
            )
        },
        DurableEvent::FindingReopened { finding, occurred_at_unix_ms } => {
            &&& r is Ok
            &&& reopen_replayed(a, b, seq![finding@])
            &&& is_governance_event(
                b.trace()[0],
                "durable-state-reopened-"@ + ln,
                occurred_at_unix_ms,
                SystemEventKind::FindingReopened,
                None,
                Some(finding.component_key@),
                Some(1u32),
                None,
            )
        },
        DurableEvent::FindingsReopened { collection_key, findings, occurred_at_unix_ms } => {
            &&& r is Ok
            &&& reopen_replayed(a, b, views_of(findings@))
            &&& is_governance_event(
                b.trace()[0],
                "durable-state-reopened-many-"@ + ln,
                occurred_at_unix_ms,
                SystemEventKind::FindingsReopened,
                Some(collection_key@),
                None,
                count_of(findings@.len()),
                None,
            )
        },
        DurableEvent::IntegrationEventPublished { event_id, occurred_at_unix_ms } => {
            &&& r is Ok
            &&& b.pending_events() == without_event(a.pending_events(), event_id@)
            &&& b.inventory_view() == a.inventory_view()
            &&& b.tracker_view() == a.tracker_view()
            &&& b.read_view() == a.read_view()
            &&& b.governance_view() == a.governance_view()
            &&& b.config() == a.config()
            &&& b.applied() == a.applied()
            &&& b.unsaved() == a.unsaved()
            &&& b.trace() == log_push(a.trace(), b.trace()[0])
            &&& is_publication_event(
                b.trace()[0],
                "durable-state-published-"@ + ln,
                occurred_at_unix_ms,
                SystemEventKind::IntegrationEventPublished,
                event_id@,
                None,
                None,
            )
        },
        DurableEvent::IntegrationEventPublicationFailed {
            event_id,
            occurred_at_unix_ms,
            retryable,
            detail,
        } => {
            &&& r is Ok
            &&& b.pending_events() == a.pending_events()
            &&& b.inventory_view() == a.inventory_view()
            &&& b.tracker_view() == a.tracker_view()
            &&& b.read_view() == a.read_view()
            &&& b.governance_view() == a.governance_view()
            &&& b.config() == a.config()
            &&& b.applied() == a.applied()
            &&& b.unsaved() == a.unsaved()
            &&& b.trace() == log_push(a.trace(), b.trace()[0])
            &&& is_publication_event(
                b.trace()[0],
                "durable-state-publish-failed-"@ + ln,
                occurred_at_unix_ms,
                SystemEventKind::IntegrationEventPublicationFailed,
                event_id@,
                Some(retryable),
                Some(detail@),
            )
        },
    }
}

/// The state `b` is what an inventory command that recorded `e` made of `a`:
/// the inventory operation named by `e`, with its arguments, changed it.
pub open spec fn inventory_recorded(a: DurableState, b: DurableState, e: DurableEvent) -> bool {
    match e {
        DurableEvent::ComponentRegistered { registration } => exists|x: RegisterComponentResult|
            register_outcome(a.inventory_view(), registration, b.inventory_view(), x) && x.change
                == RegisterComponentChange::Registered,
        DurableEvent::CollectionRegistered { registration } => exists|x: RegisterCollectionResult|
            collection_outcome(a.inventory_view(), registration, b.inventory_view(), x) && x.change
                == RegisterCollectionChange::Created,
        DurableEvent::ArtifactBound { component_key, artifact } => exists|x: BindArtifactResult|
            bind_outcome(a.inventory_view(), component_key@, artifact, b.inventory_view(), x)
                && x.change == BindArtifactChange::Bound,
        DurableEvent::ComponentProviderConfigured { component_key, provider_key } => exists|
            x: ConfigureProviderResult,
        |
            provider_outcome(
                a.inventory_view(),
                component_key@,
                provider_key@,
                b.inventory_view(),
                x,
            ) && x.change == ConfigureProviderChange::Configured,
        DurableEvent::CollectionComponentAdded { collection_key, component_key } => exists|
            x: AddCollectionComponentResult,
        |
            member_added_outcome(
                a.inventory_view(),
                collection_key@,
                component_key@,
                b.inventory_view(),
                x,
            ) && x.change == AddCollectionComponentChange::Added,
        DurableEvent::CollectionComponentRemoved { collection_key, component_key } => exists|
            x: RemoveCollectionComponentResult,
        |
            member_removed_outcome(
                a.inventory_view(),
                collection_key@,
                component_key@,
                b.inventory_view(),
                x,
            ) && x.change == RemoveCollectionComponentChange::Removed,
        DurableEvent::CollectionScanScheduleConfigured {
            collection_key,
            cadence_minutes,
            freshness,
            next_due_at_unix_ms,
        } => exists|x: ConfigureCollectionScanScheduleResult|
            schedule_outcome(
                a.inventory_view(),
                collection_key@,
                cadence_minutes,
                freshness,
                next_due_at_unix_ms,
                b.inventory_view(),
                x,
            ) && x.change == ConfigureCollectionScanScheduleChange::Configured,
        DurableEvent::CollectionScanScheduleMaterialized {
            collection_key,
            next_due_at_unix_ms,
            materialized_at_unix_ms,
            enqueued_commands,
        } => exists|x: ConfigureCollectionScanScheduleResult|
            materialization_outcome(
                a.inventory_view(),
                collection_key@,
                next_due_at_unix_ms,
                materialized_at_unix_ms,
                enqueued_commands,
                b.inventory_view(),
                x,
            ) && x.change == ConfigureCollectionScanScheduleChange::Configured,
        _ => false,
    }
}

impl DurableState {
    pub closed spec fn wf(&self) -> bool {
        &&& self.ingestion.wf()
        &&& self.governance.wf()
        &&& self.read_model.wf()
        &&& self.applied_scan_commands.wf()
        &&& self.read_model@.decisions == self.governance@
        &&& self.system_events@.len() <= SYSTEM_EVENT_LOG_CAPACITY
    }

    /// The managed components and collections.
    pub closed spec fn inventory_view(&self) -> InventoryView {
        self.ingestion.inventory_view()
    }

    /// The last snapshot of each (component, artifact) that was ingested.
    pub closed spec fn tracker_view(&self) -> Map<ItemView, Set<FindingKeyView>> {
        self.ingestion.tracker_view()
    }

    /// Active findings and the decisions the read side reflects.
    pub closed spec fn read_view(&self) -> ReadModelView {
        self.read_model@
    }

    /// Governance decisions per finding.
    pub closed spec fn governance_view(&self) -> Map<FindingRefView, DecisionView> {
        self.governance@
    }

    /// The configured integration publication runtime.
    pub closed spec fn config(&self) -> Option<IntegrationRuntimeConfig> {
        self.integration_runtime_config
    }

    /// The change set of every scan command whose report was recorded.
    pub closed spec fn applied(&self) -> Map<Seq<char>, FindingChangeSet> {
        self.applied_scan_commands@
    }

    /// Integration events not yet published, oldest first.
    pub closed spec fn pending_events(&self) -> Seq<PendingIntegrationEvent> {
        self.pending_integration_events@
    }

    /// Recent system events, newest first.
    pub closed spec fn trace(&self) -> Seq<SystemEvent> {
        self.system_events@
    }

    /// Durable events recorded and not yet handed out to be saved.
    pub closed spec fn unsaved(&self) -> Seq<DurableEvent> {
        self.unsaved@
    }

    /// A state with nothing in it.
    pub fn new() -> (r: Self)
        ensures
            r.wf(),
            fresh(r),
    {
        DurableState {
            ingestion: FindingIngestion::new(),
            governance: FindingGovernance::new(),
            read_model: FindingReadModel::new(),
            integration_runtime_config: None,
            applied_scan_commands: OrderedMap::new(),
            pending_integration_events: Vec::new(),
            system_events: Vec::new(),
            unsaved: Vec::new(),
        }
    }

    pub fn ingestion(&self) -> (r: &FindingIngestion)
        requires
            self.wf(),
        ensures
            r.wf(),
            r.inventory_view() == self.inventory_view(),
            r.tracker_view() == self.tracker_view(),
    {
        &self.ingestion
    }

    pub fn read_model(&self) -> (r: &FindingReadModel)
        requires
            self.wf(),
        ensures
            r.wf(),
            r@ == self.read_view(),
    {
        &self.read_model
    }

    pub fn governance(&self) -> (r: &FindingGovernance)
        requires
            self.wf(),
        ensures
            r.wf(),
            r@ == self.governance_view(),
    {
        &self.governance
    }

    pub fn integration_runtime_config(&self) -> (r: Option<&IntegrationRuntimeConfig>)
        ensures
            r matches Some(c) ==> self.config() == Some(*c),
            r is None <==> self.config() is None,
    {
        self.integration_runtime_config.as_ref()
    }

    pub fn pending_integration_events(&self) -> (r: &[PendingIntegrationEvent])
        ensures
            r@ == self.pending_events(),
    {
        self.pending_integration_events.as_slice()
    }

    pub fn system_events(&self) -> (r: &[SystemEvent])
        ensures
            r@ == self.trace(),
    {
        self.system_events.as_slice()
    }

    /// Hand out the durable events recorded since the last call, oldest first.
    pub fn take_unsaved(&mut self) -> (r: Vec<DurableEvent>)
        requires
            old(self).wf(),
        ensures
            final(self).wf(),
            r@ == old(self).unsaved(),
            final(self).unsaved().len() == 0,
            final(self).inventory_view() == old(self).inventory_view(),
            keeps_all_but_inventory(*old(self), *final(self)),
    {
        let mut out: Vec<DurableEvent> = Vec::new();
        std::mem::swap(&mut out, &mut self.unsaved);
        out
    }

    fn push_system_event(&mut self, event: SystemEvent)
        requires
            old(self).wf(),
        ensures
            final(self).wf(),
            final(self).trace() == log_push(old(self).trace(), event),
            final(self).inventory_view() == old(self).inventory_view(),
            final(self).tracker_view() == old(self).tracker_view(),
            final(self).read_view() == old(self).read_view(),
            final(self).governance_view() == old(self).governance_view(),
            final(self).config() == old(self).config(),
            final(self).applied() == old(self).applied(),
            final(self).pending_events() == old(self).pending_events(),
            final(self).unsaved() == old(self).unsaved(),
    {
        let ghost e = event;
        self.system_events.insert(0, event);
        if self.system_events.len() > SYSTEM_EVENT_LOG_CAPACITY {
            let _ = self.system_events.pop();
        }
        assert(self.system_events@ =~= log_push(old(self).system_events@, e));
    }

    /// Register one managed component; a new registration is recorded.
    pub fn register_component(&mut self, registration: ComponentRegistration) -> (r:
        RegisterComponentResult)
        requires
            old(self).wf(),
        ensures
            final(self).wf(),
            register_outcome(old(self).inventory_view(), registration, final(self).inventory_view(), r),
            keeps_all_but_inventory(*old(self), *final(self)),
            recorded_one(*old(self), *final(self), r.change == RegisterComponentChange::Registered),
            r.change == RegisterComponentChange::Registered ==> final(self).unsaved().last()
                == (DurableEvent::ComponentRegistered { registration }),
            live_step(*old(self), *final(self)),
    {
        let stored = registration.clone();
        let r = self.ingestion.inventory_mut().register(registration);
        if matches!(r.change, RegisterComponentChange::Registered) {
            self.unsaved.push(DurableEvent::ComponentRegistered { registration: stored });
            proof {
                assert(self.unsaved@.drop_last() =~= old(self).unsaved@);
            }
        }
        proof {
            if r.change == RegisterComponentChange::Registered {
                assert(self.unsaved@.last() == (DurableEvent::ComponentRegistered { registration }));
                assert(register_outcome(old(self).inventory_view(), registration, self.inventory_view(), r));
                lemma_registration_recorded(*old(self), *self, registration, r);
                lemma_replayed_inventory_matches(*old(self), *self, self.unsaved@.last());
            }
        }
        r
    }

    /// Bind one immutable artifact to a managed component; a new binding is
    /// recorded.
    pub fn bind_artifact(&mut self, component_key: &str, artifact: ArtifactRef) -> (r:
        BindArtifactResult)
        requires
            old(self).wf(),
        ensures
            final(self).wf(),
            bind_outcome(old(self).inventory_view(), component_key@, artifact, final(self).inventory_view(), r),
            keeps_all_but_inventory(*old(self), *final(self)),
            recorded_one(*old(self), *final(self), r.change == BindArtifactChange::Bound),
            r.change == BindArtifactChange::Bound ==> (final(self).unsaved().last() matches
                DurableEvent::ArtifactBound { component_key: c, artifact: x }
                && c@ == component_key@ && x == artifact),
            live_step(*old(self), *final(self)),
    {
        let stored = artifact.clone();
        let r = self.ingestion.inventory_mut().bind_artifact(component_key, artifact);
        if matches!(r.change, BindArtifactChange::Bound) {
            self.unsaved.push(
                DurableEvent::ArtifactBound { component_key: owned(component_key), artifact: stored },
            );
            proof {
                assert(self.unsaved@.drop_last() =~= old(self).unsaved@);
            }
        }
        proof {
            lemma_inventory_sorted(*old(self));
            lemma_inventory_sorted(*self);
            if r.change == BindArtifactChange::Bound {
                assert(self.unsaved@.last() matches DurableEvent::ArtifactBound { component_key: c, artifact: x }
                    && c@ == component_key@ && x == artifact);
                assert(bind_outcome(old(self).inventory_view(), component_key@, artifact, self.inventory_view(), r));
                lemma_replayed_inventory_matches(*old(self), *self, self.unsaved@.last());
            } else {
                lemma_binding_unchanged_keeps(old(self).inventory_view(), component_key@, artifact, self.inventory_view(), r);
            }
        }
        r
    }

    /// Configure the provider runtime of a managed component; a change is
    /// recorded.
    pub fn configure_provider(&mut self, component_key: &str, provider_key: &str) -> (r:
        ConfigureProviderResult)
        requires
            old(self).wf(),
        ensures
            final(self).wf(),
            provider_outcome(old(self).inventory_view(), component_key@, provider_key@, final(self).inventory_view(), r),
            keeps_all_but_inventory(*old(self), *final(self)),
            recorded_one(*old(self), *final(self), r.change == ConfigureProviderChange::Configured),
            r.change == ConfigureProviderChange::Configured ==> (final(self).unsaved().last() matches
                DurableEvent::ComponentProviderConfigured { component_key: c, provider_key: p }
                && c@ == component_key@ && p@ == provider_key@),
            live_step(*old(self), *final(self)),
    {
        let r = self.ingestion.inventory_mut().configure_provider(component_key, provider_key);
        if matches!(r.change, ConfigureProviderChange::Configured) {
            self.unsaved.push(
                DurableEvent::ComponentProviderConfigured {
                    component_key: owned(component_key),
                    provider_key: owned(provider_key),
                },
            );
            proof {
                assert(self.unsaved@.drop_last() =~= old(self).unsaved@);
            }
        }
        proof {
            if r.change == ConfigureProviderChange::Configured {
                assert(self.unsaved@.last() matches DurableEvent::ComponentProviderConfigured {
                    component_key: c,
                    provider_key: p,
                } && c@ == component_key@ && p@ == provider_key@);
                assert(provider_outcome(old(self).inventory_view(), component_key@, provider_key@, self.inventory_view(), r));
                lemma_replayed_inventory_matches(*old(self), *self, self.unsaved@.last());
            }
        }
        r
    }

    /// Create one managed collection; a new collection is recorded.
    pub fn register_collection(&mut self, registration: CollectionRegistration) -> (r:
        RegisterCollectionResult)
        requires
            old(self).wf(),
        ensures
            final(self).wf(),
            collection_outcome(old(self).inventory_view(), registration, final(self).inventory_view(), r),
            keeps_all_but_inventory(*old(self), *final(self)),
            recorded_one(*old(self), *final(self), r.change == RegisterCollectionChange::Created),
            r.change == RegisterCollectionChange::Created ==> final(self).unsaved().last()
                == (DurableEvent::CollectionRegistered { registration }),
            live_step(*old(self), *final(self)),
    {
        let stored = registration.clone();
        let r = self.ingestion.inventory_mut().register_collection(registration);
        if matches!(r.change, RegisterCollectionChange::Created) {
            self.unsaved.push(DurableEvent::CollectionRegistered { registration: stored });
            proof {
                assert(self.unsaved@.drop_last() =~= old(self).unsaved@);
            }
        }
        proof {
            if r.change == RegisterCollectionChange::Created {
                assert(self.unsaved@.last() == (DurableEvent::CollectionRegistered { registration }));
                assert(collection_outcome(old(self).inventory_view(), registration, self.inventory_view(), r));
                lemma_collection_recorded(*old(self), *self, registration, r);
                lemma_replayed_inventory_matches(*old(self), *self, self.unsaved@.last());
            }
        }
        r
    }

    /// Add one managed component to one collection; a new member is recorded.
    pub fn add_component_to_collection(&mut self, collection_key: &str, component_key: &str) -> (r:
        AddCollectionComponentResult)
        requires
            old(self).wf(),
        ensures
            final(self).wf(),
            member_added_outcome(old(self).inventory_view(), collection_key@, component_key@, final(self).inventory_view(), r),
            keeps_all_but_inventory(*old(self), *final(self)),
            recorded_one(*old(self), *final(self), r.change == AddCollectionComponentChange::Added),
            r.change == AddCollectionComponentChange::Added ==> (final(self).unsaved().last() matches
                DurableEvent::CollectionComponentAdded { collection_key: c, component_key: m }
                && c@ == collection_key@ && m@ == component_key@),
            live_step(*old(self), *final(self)),
    {
        let r = self.ingestion.inventory_mut().add_component_to_collection(collection_key, component_key);
        if matches!(r.change, AddCollectionComponentChange::Added) {
            self.unsaved.push(
                DurableEvent::CollectionComponentAdded {
                    collection_key: owned(collection_key),
                    component_key: owned(component_key),
                },
            );
            proof {
                assert(self.unsaved@.drop_last() =~= old(self).unsaved@);
            }
        }
        proof {
            lemma_inventory_sorted(*old(self));
            lemma_inventory_sorted(*self);
            if r.change == AddCollectionComponentChange::Added {
                assert(self.unsaved@.last() matches DurableEvent::CollectionComponentAdded {
                    collection_key: c,
                    component_key: m,
                } && c@ == collection_key@ && m@ == component_key@);
                assert(member_added_outcome(old(self).inventory_view(), collection_key@, component_key@, self.inventory_view(), r));
                lemma_replayed_inventory_matches(*old(self), *self, self.unsaved@.last());
            } else {
                lemma_addition_unchanged_keeps(old(self).inventory_view(), collection_key@, component_key@, self.inventory_view(), r);
            }
        }
        r
    }

    /// Remove one component from one collection; a removal is recorded.
    pub fn remove_component_from_collection(&mut self, collection_key: &str, component_key: &str) -> (r:
        RemoveCollectionComponentResult)
        requires
            old(self).wf(),
        ensures
            final(self).wf(),
            member_removed_outcome(old(self).inventory_view(), collection_key@, component_key@, final(self).inventory_view(), r),
            keeps_all_but_inventory(*old(self), *final(self)),
            recorded_one(*old(self), *final(self), r.change == RemoveCollectionComponentChange::Removed),
            r.change == RemoveCollectionComponentChange::Removed ==> (final(self).unsaved().last() matches
                DurableEvent::CollectionComponentRemoved { collection_key: c, component_key: m }
                && c@ == collection_key@ && m@ == component_key@),
            live_step(*old(self), *final(self)),
    {
        let r = self.ingestion.inventory_mut().remove_component_from_collection(
            collection_key,
            component_key,
        );
        if matches!(r.change, RemoveCollectionComponentChange::Removed) {
            self.unsaved.push(
                DurableEvent::CollectionComponentRemoved {
                    collection_key: owned(collection_key),
                    component_key: owned(component_key),
                },
            );
            proof {
                assert(self.unsaved@.drop_last() =~= old(self).unsaved@);
            }
        }
        proof {
            lemma_inventory_sorted(*old(self));
            lemma_inventory_sorted(*self);
            if r.change == RemoveCollectionComponentChange::Removed {
                assert(self.unsaved@.last() matches DurableEvent::CollectionComponentRemoved {
                    collection_key: c,
                    component_key: m,
                } && c@ == collection_key@ && m@ == component_key@);
                assert(member_removed_outcome(old(self).inventory_view(), collection_key@, component_key@, self.inventory_view(), r));
                lemma_replayed_inventory_matches(*old(self), *self, self.unsaved@.last());
            } else {
                lemma_removal_unchanged_keeps(old(self).inventory_view(), collection_key@, component_key@, self.inventory_view(), r);
            }
        }
        r
    }

    /// Configure the periodic scan schedule of one collection; a change is
    /// recorded.
    pub fn configure_collection_scan_schedule(
        &mut self,
        collection_key: &str,
        cadence_minutes: u32,
        freshness: EvidenceFreshness,
        next_due_at_unix_ms: u64,
    ) -> (r: ConfigureCollectionScanScheduleResult)
        requires
            old(self).wf(),
        ensures
            final(self).wf(),
            schedule_outcome(
                old(self).inventory_view(),
                collection_key@,
                cadence_minutes,
                freshness,
                next_due_at_unix_ms,
                final(self).inventory_view(),
                r,
            ),
            keeps_all_but_inventory(*old(self), *final(self)),
            recorded_one(*old(self), *final(self), r.change == ConfigureCollectionScanScheduleChange::Configured),
            r.change == ConfigureCollectionScanScheduleChange::Configured ==> (final(self).unsaved().last() matches
                DurableEvent::CollectionScanScheduleConfigured {
                    collection_key: c,
                    cadence_minutes: m,
                    freshness: f,
                    next_due_at_unix_ms: n,
                } && c@ == collection_key@ && m == cadence_minutes && f == freshness
                && n == next_due_at_unix_ms),
            live_step(*old(self), *final(self)),
    {
        let r = self.ingestion.inventory_mut().configure_collection_scan_schedule(
            collection_key,
            cadence_minutes,
            freshness,
            next_due_at_unix_ms,
        );
        if matches!(r.change, ConfigureCollectionScanScheduleChange::Configured) {
            self.unsaved.push(
                DurableEvent::CollectionScanScheduleConfigured {
                    collection_key: owned(collection_key),
                    cadence_minutes,
                    freshness,
                    next_due_at_unix_ms,
                },
            );
            proof {
                assert(self.unsaved@.drop_last() =~= old(self).unsaved@);
            }
        }
        proof {
            if r.change == ConfigureCollectionScanScheduleChange::Configured {
                assert(self.unsaved@.last() matches DurableEvent::CollectionScanScheduleConfigured {
                    collection_key: c,
                    cadence_minutes: m,
                    freshness: f,
                    next_due_at_unix_ms: n,
                } && c@ == collection_key@ && m == cadence_minutes && f == freshness
                    && n == next_due_at_unix_ms);
                assert(schedule_outcome(
                    old(self).inventory_view(),
                    collection_key@,
                    cadence_minutes,
                    freshness,
                    next_due_at_unix_ms,
                    self.inventory_view(),
                    r,
                ));
                lemma_replayed_inventory_matches(*old(self), *self, self.unsaved@.last());
            } else {
                assert(self.inventory_view().collections =~= old(self).inventory_view().collections);
            }
        }
        r
    }

    /// Record one scheduler pass over a collection: its next due time, when
    /// it ran and how many commands it enqueued. A change is recorded and
    /// leaves a scheduler event in the system-event log.
    pub fn record_collection_scan_materialization(
        &mut self,
        collection_key: &str,
        next_due_at_unix_ms: u64,
        materialized_at_unix_ms: u64,
        enqueued_commands: u32,
    ) -> (r: ConfigureCollectionScanScheduleResult)
        requires
            old(self).wf(),
        ensures
            final(self).wf(),
            materialization_outcome(
                old(self).inventory_view(),
                collection_key@,
                next_due_at_unix_ms,
                materialized_at_unix_ms,
                enqueued_commands,
                final(self).inventory_view(),
                r,
            ),
            final(self).tracker_view() == old(self).tracker_view(),
            final(self).read_view() == old(self).read_view(),
            final(self).governance_view() == old(self).governance_view(),
            final(self).config() == old(self).config(),
            final(self).applied() == old(self).applied(),
            final(self).pending_events() == old(self).pending_events(),
            recorded_one(*old(self), *final(self), r.change == ConfigureCollectionScanScheduleChange::Configured),
            r.change == ConfigureCollectionScanScheduleChange::Configured ==> {
                &&& final(self).unsaved().last() matches DurableEvent::CollectionScanScheduleMaterialized {
                    collection_key: c,
                    next_due_at_unix_ms: n,
                    materialized_at_unix_ms: m,
                    enqueued_commands: q,
                } && c@ == collection_key@ && n == next_due_at_unix_ms
                    && m == materialized_at_unix_ms && q == enqueued_commands
                &&& final(self).trace() == log_push(old(self).trace(), final(self).trace()[0])
                &&& is_scheduler_event(
                    final(self).trace()[0],
                    "durable-state-scheduler-live-"@ + collection_key@ + "-"@ + decimal(
                        materialized_at_unix_ms as nat,
                    ),
                    collection_key@,
                    next_due_at_unix_ms,
                    materialized_at_unix_ms,
                    enqueued_commands,
                )
            },
            r.change != ConfigureCollectionScanScheduleChange::Configured ==> final(self).trace()
                == old(self).trace(),
            live_step(*old(self), *final(self)),
    {
        let r = self.ingestion.inventory_mut().record_collection_scan_materialization(
            collection_key,
            next_due_at_unix_ms,
            materialized_at_unix_ms,
            enqueued_commands,
        );
        if matches!(r.change, ConfigureCollectionScanScheduleChange::Configured) {
            self.unsaved.push(
                DurableEvent::CollectionScanScheduleMaterialized {
                    collection_key: owned(collection_key),
                    next_due_at_unix_ms,
                    materialized_at_unix_ms,
                    enqueued_commands,
                },
            );
            proof {
                assert(self.unsaved@.drop_last() =~= old(self).unsaved@);
            }
            let id = owned("durable-state-scheduler-live-").concat(collection_key).concat("-").concat(
                decimal_text(materialized_at_unix_ms as u128).as_str(),
            );
            let e = scheduler_event(
                id,
                collection_key,
                next_due_at_unix_ms,
                materialized_at_unix_ms,
                enqueued_commands,
            );
            self.push_system_event(e);
        }
        proof {
            if r.change == ConfigureCollectionScanScheduleChange::Configured {
                assert(self.unsaved@.last() matches DurableEvent::CollectionScanScheduleMaterialized {
                    collection_key: c,
                    next_due_at_unix_ms: n,
                    materialized_at_unix_ms: m,
                    enqueued_commands: q,
                } && c@ == collection_key@ && n == next_due_at_unix_ms
                    && m == materialized_at_unix_ms && q == enqueued_commands);
                assert(materialization_outcome(
                    old(self).inventory_view(),
                    collection_key@,
                    next_due_at_unix_ms,
                    materialized_at_unix_ms,
                    enqueued_commands,
                    self.inventory_view(),
                    r,
                ));
                lemma_replayed_inventory_matches(*old(self), *self, self.unsaved@.last());
            } else {
                assert(self.inventory_view().collections =~= old(self).inventory_view().collections);
            }
        }
        r
    }

    /// Configure the integration publication runtime; a change is recorded.
    pub fn configure_integration_runtime(&mut self, config: IntegrationRuntimeConfig) -> (r:
        ConfigureIntegrationRuntimeResult)
        requires
            old(self).wf(),
        ensures
            final(self).wf(),
            r.config == config,
            r.change == (if old(self).config() matches Some(c) && same_config(c, config) {
                ConfigureIntegrationRuntimeChange::Unchanged
            } else {
                ConfigureIntegrationRuntimeChange::Configured
            }),
            r.change == ConfigureIntegrationRuntimeChange::Unchanged ==> *final(self) == *old(self),
            r.change == ConfigureIntegrationRuntimeChange::Configured ==> {
                &&& final(self).config() == Some(config)
                &&& final(self).inventory_view() == old(self).inventory_view()
                &&& final(self).tracker_view() == old(self).tracker_view()
                &&& final(self).read_view() == old(self).read_view()
                &&& final(self).governance_view() == old(self).governance_view()
                &&& final(self).applied() == old(self).applied()
                &&& final(self).pending_events() == old(self).pending_events()
                &&& final(self).trace() == old(self).trace()
                &&& final(self).unsaved() == old(self).unsaved().push(
                    DurableEvent::IntegrationRuntimeConfigured { config },
                )
            },
            live_step(*old(self), *final(self)),
    {
        let same = match &self.integration_runtime_config {
            Some(c) => same_config_as(c, &config),
            None => false,
        };
        if same {
            return ConfigureIntegrationRuntimeResult {
                change: ConfigureIntegrationRuntimeChange::Unchanged,
                config,
            };
        }
        self.unsaved.push(DurableEvent::IntegrationRuntimeConfigured { config: config.clone() });
        self.integration_runtime_config = Some(config.clone());
        proof {
            assert(self.unsaved@.drop_last() =~= old(self).unsaved@);
            lemma_replayed_config_matches(*old(self), *self, config);
        }
        ConfigureIntegrationRuntimeResult { change: ConfigureIntegrationRuntimeChange::Configured, config }
    }

    /// Record one accepted provider snapshot, and announce its change set as
    /// a pending integration event.
    pub fn record_scan_report(&mut self, report: &ProviderScanReport) -> (r: Result<
        FindingChangeSet,
        DurableStateError,
    >)
        requires
            old(self).wf(),
        ensures
            final(self).wf(),
            ingestion_error(old(self).inventory_view(), *report) matches Some(e) ==> r == Err::<
                FindingChangeSet,
                DurableStateError,
            >(DurableStateError::Ingestion(e)) && *final(self) == *old(self),
            ingestion_error(old(self).inventory_view(), *report) is None ==> match r {
                Ok(cs) => scan_recorded(*old(self), *final(self), None, *report, cs),
                Err(e) => e is Time && *final(self) == *old(self),
            },
            ingestion_error(old(self).inventory_view(), *report) is None ==> exists|
                nanos: Option<u128>,
                id: Option<String>,
            |
                #[trigger] id_from_clock("finding-changes"@, nanos, id) && #[trigger] scan_answer(
                    *old(self),
                    *final(self),
                    None,
                    *report,
                    id,
                    r,
                ),
            live_step(*old(self), *final(self)),
    {
        let id = next_integration_event_id("finding-changes");
        let ghost n = choose|n: Option<u128>| id_from_clock("finding-changes"@, n, id);
        let ghost id0 = id;
        let r = self.record_scan_report_at(report, id);
        proof {
            if ingestion_error(old(self).inventory_view(), *report) is None {
                assert(id_from_clock("finding-changes"@, n, id0));
                assert(scan_answer(*old(self), *self, None, *report, id0, r));
            }
        }
        r
    }

    /// Record one accepted provider snapshot, announcing its change set under
    /// `event_id`, the identity that the clock gave (none when it read a time
    /// before the Unix epoch).
    pub fn record_scan_report_at(&mut self, report: &ProviderScanReport, event_id: Option<String>) -> (r:
        Result<FindingChangeSet, DurableStateError>)
        requires
            old(self).wf(),
        ensures
            final(self).wf(),
            ingestion_error(old(self).inventory_view(), *report) matches Some(e) ==> r == Err::<
                FindingChangeSet,
                DurableStateError,
            >(DurableStateError::Ingestion(e)) && *final(self) == *old(self),
            ingestion_error(old(self).inventory_view(), *report) is None ==> scan_answer(
                *old(self),
                *final(self),
                None,
                *report,
                event_id,
                r,
            ),
            live_step(*old(self), *final(self)),
    {
        self.record_scan_report_internal(None, report, event_id)
    }

    /// Record one provider snapshot for one scan command. A command whose
    /// report was already recorded gets its change set back, and nothing
    /// changes.
    pub fn record_scan_report_for_command(&mut self, command_id: &str, report: &ProviderScanReport) -> (r:
        Result<FindingChangeSet, DurableStateError>)
        requires
            old(self).wf(),
        ensures
            final(self).wf(),
            old(self).applied().contains_key(command_id@) ==> r == Ok::<
                FindingChangeSet,
                DurableStateError,
            >(old(self).applied()[command_id@]) && *final(self) == *old(self),
            !old(self).applied().contains_key(command_id@) ==> {
                &&& ingestion_error(old(self).inventory_view(), *report) matches Some(e) ==> r
                    == Err::<FindingChangeSet, DurableStateError>(DurableStateError::Ingestion(e))
                    && *final(self) == *old(self)
                &&& ingestion_error(old(self).inventory_view(), *report) is None ==> match r {
                    Ok(cs) => scan_recorded(*old(self), *final(self), Some(command_id@), *report, cs),
                    Err(e) => e is Time && *final(self) == *old(self),
                }
                &&& ingestion_error(old(self).inventory_view(), *report) is None ==> exists|
                    nanos: Option<u128>,
                    id: Option<String>,
                |
                    #[trigger] id_from_clock("finding-changes"@, nanos, id) && #[trigger] scan_answer(
                        *old(self),
                        *final(self),
                        Some(command_id@),
                        *report,
                        id,
                        r,
                    )
            },
            live_step(*old(self), *final(self)),
    {
        let id = next_integration_event_id("finding-changes");
        let ghost n = choose|n: Option<u128>| id_from_clock("finding-changes"@, n, id);
        let ghost id0 = id;
        let r = self.record_scan_report_for_command_at(command_id, report, id);
        proof {
            if !old(self).applied().contains_key(command_id@) && ingestion_error(
                old(self).inventory_view(),
                *report,
            ) is None {
                assert(id_from_clock("finding-changes"@, n, id0));
                assert(scan_answer(*old(self), *self, Some(command_id@), *report, id0, r));
            }
        }
        r
    }

    /// Record one provider snapshot for one scan command, announcing its
    /// change set under `event_id`, the identity that the clock gave (none
    /// when it read a time before the Unix epoch). A command whose report
    /// was already recorded gets its change set back, and nothing changes.
    pub fn record_scan_report_for_command_at(
        &mut self,
        command_id: &str,
        report: &ProviderScanReport,
        event_id: Option<String>,
    ) -> (r: Result<FindingChangeSet, DurableStateError>)
        requires
            old(self).wf(),
        ensures
            final(self).wf(),
            old(self).applied().contains_key(command_id@) ==> r == Ok::<
                FindingChangeSet,
                DurableStateError,
            >(old(self).applied()[command_id@]) && *final(self) == *old(self),
            !old(self).applied().contains_key(command_id@) ==> {
                &&& ingestion_error(old(self).inventory_view(), *report) matches Some(e) ==> r
                    == Err::<FindingChangeSet, DurableStateError>(DurableStateError::Ingestion(e))
                    && *final(self) == *old(self)
                &&& ingestion_error(old(self).inventory_view(), *report) is None ==> scan_answer(
                    *old(self),
                    *final(self),
                    Some(command_id@),
                    *report,
                    event_id,
                    r,
                )
            },
            live_step(*old(self), *final(self)),
    {
        let key = owned(command_id);
        match self.applied_scan_commands.get(&key) {
            Some(cs) => {
                return Ok(*cs);
            },
            None => {},
        }
        self.record_scan_report_internal(Some(command_id), report, event_id)
    }

    fn record_scan_report_internal(
        &mut self,
        command_id: Option<&str>,
        report: &ProviderScanReport,
        event_id: Option<String>,
    ) -> (r: Result<FindingChangeSet, DurableStateError>)
        requires
            old(self).wf(),
        ensures
            final(self).wf(),
            ingestion_error(old(self).inventory_view(), *report) matches Some(e) ==> r == Err::<
                FindingChangeSet,
                DurableStateError,
            >(DurableStateError::Ingestion(e)) && *final(self) == *old(self),
            ingestion_error(old(self).inventory_view(), *report) is None ==> scan_answer(
                *old(self),
                *final(self),
                match command_id {
                    Some(c) => Some(c@),
                    None => None,
                },
                *report,
                event_id,
                r,
            ),
            live_step(*old(self), *final(self)),
    {
        if !self.ingestion.inventory().is_managed(report.component_key.as_str()) {
            return Err(DurableStateError::Ingestion(FindingIngestionError::UnmanagedComponent));
        }
        if !self.ingestion.inventory().component_owns_artifact(
            report.component_key.as_str(),
            &report.artifact,
        ) {
            return Err(DurableStateError::Ingestion(FindingIngestionError::UnmanagedArtifact));
        }
        let event_id = match event_id {
            Some(id) => id,
            None => {
                return Err(DurableStateError::Time(owned(CLOCK_BEFORE_EPOCH)));
            },
        };
        let micros = match system_time_to_micros(report.observed_at) {
            Some(m) => m,
            None => {
                return Err(DurableStateError::Time(owned(TIMESTAMP_OUT_OF_RANGE)));
            },
        };
        let cs = match self.ingestion.record_scan_report(report) {
            Ok(cs) => cs,
            Err(e) => {
                return Err(DurableStateError::Ingestion(e));
            },
        };
        self.read_model.record_scan_report(report);
        let pending = PendingIntegrationEvent::finding_changes_observed_as(
            event_id,
            report.component_key.as_str(),
            report.artifact.clone(),
            report.provider_key.as_str(),
            report.freshness,
            micros,
            cs,
        );
        let stored_command = match command_id {
            Some(c) => Some(owned(c)),
            None => None,
        };
        self.unsaved.push(
            DurableEvent::ProviderScanRecorded {
                command_id: stored_command,
                report: report.copy(),
                change_set: Some(cs),
                pending_integration_event: Some(pending.clone()),
            },
        );
        proof {
            assert(self.unsaved@.drop_last() =~= old(self).unsaved@);
        }
        match command_id {
            Some(c) => {
                self.applied_scan_commands.insert(owned(c), cs);
            },
            None => {},
        }
        self.pending_integration_events.push(pending);
        proof {
            assert(self.pending_integration_events@.drop_last() =~= old(self).pending_integration_events@);
            let cid = match command_id {
                Some(c) => Some(c@),
                None => None,
            };
            lemma_replayed_scan_matches(*old(self), *self, cid, *report, cs);
        }
        Ok(cs)
    }

    /// Accept the risk of one currently active finding.
    pub fn accept_risk(&mut self, finding: FindingRef, acceptance: RiskAcceptance) -> (r: Result<
        AcceptRiskResult,
        DurableStateError,
    >)
        requires
            old(self).wf(),
        ensures
            final(self).wf(),
            !is_active(old(self).read_view(), finding@) ==> (r matches Err(
                DurableStateError::MissingFinding(m),
            ) && m@ == "cannot accept risk for an inactive finding"@) && *final(self) == *old(self),
            is_active(old(self).read_view(), finding@) && already_decided(
                old(self).governance_view(),
                finding@,
                acceptance_decision(acceptance),
            ) ==> r == Ok::<AcceptRiskResult, DurableStateError>(
                (AcceptRiskResult { change: AcceptRiskChange::Unchanged, acceptance }),
            ) && *final(self) == *old(self),
            is_active(old(self).read_view(), finding@) && !already_decided(
                old(self).governance_view(),
                finding@,
                acceptance_decision(acceptance),
            ) ==> match r {
                Ok(res) => {
                    &&& res == (AcceptRiskResult { change: AcceptRiskChange::Accepted, acceptance })
                    &&& decided(*old(self), *final(self), seq![finding@], acceptance_decision(acceptance))
                    &&& final(self).unsaved().last() matches DurableEvent::FindingRiskAccepted {
                        finding: x,
                        acceptance: y,
                        occurred_at_unix_ms: t,
                    } && x == finding && y == acceptance && is_governance_event(
                        final(self).trace()[0],
                        "durable-state-risk-accepted-live-"@ + decimal(t as nat),
                        t,
                        SystemEventKind::FindingRiskAccepted,
                        None,
                        Some(finding.component_key@),
                        Some(1u32),
                        Some(acceptance.reason@),
                    )
                },
                Err(e) => e is Time && *final(self) == *old(self),
            },
            live_step(*old(self), *final(self)),
            r matches Err(e) ==> (e is Time ==> exists|nanos: Option<u128>|
                #[trigger] millis_from_clock(nanos, Err::<u64, DurableStateError>(e))),
    {
        self.accept_risk_at(finding, acceptance, now_unix_millis())
    }

    /// Accept the risk of one currently active finding.
    ///
    /// This is the call at the time `now` that the clock read: a failed
    /// reading is the error when the call would change something.
    pub fn accept_risk_at(&mut self, finding: FindingRef, acceptance: RiskAcceptance, now: Result<u64, DurableStateError>) -> (r: Result<
        AcceptRiskResult,
        DurableStateError,
    >)
        requires
            old(self).wf(),
        ensures
            final(self).wf(),
            !is_active(old(self).read_view(), finding@) ==> (r matches Err(
                DurableStateError::MissingFinding(m),
            ) && m@ == "cannot accept risk for an inactive finding"@) && *final(self) == *old(self),
            is_active(old(self).read_view(), finding@) && already_decided(
                old(self).governance_view(),
                finding@,
                acceptance_decision(acceptance),
            ) ==> r == Ok::<AcceptRiskResult, DurableStateError>(
                (AcceptRiskResult { change: AcceptRiskChange::Unchanged, acceptance }),
            ) && *final(self) == *old(self),
            is_active(old(self).read_view(), finding@) && !already_decided(
                old(self).governance_view(),
                finding@,
                acceptance_decision(acceptance),
            ) ==> match r {
                Ok(res) => {
                    &&& res == (AcceptRiskResult { change: AcceptRiskChange::Accepted, acceptance })
                    &&& decided(*old(self), *final(self), seq![finding@], acceptance_decision(acceptance))
                    &&& final(self).unsaved().last() matches DurableEvent::FindingRiskAccepted {
                        finding: x,
                        acceptance: y,
                        occurred_at_unix_ms: t,
                    } && now == Ok::<u64, DurableStateError>(t) && x == finding && y == acceptance && is_governance_event(
                        final(self).trace()[0],
                        "durable-state-risk-accepted-live-"@ + decimal(t as nat),
                        t,
                        SystemEventKind::FindingRiskAccepted,
                        None,
                        Some(finding.component_key@),
                        Some(1u32),
                        Some(acceptance.reason@),
                    )
                },
                Err(e) => now == Err::<u64, DurableStateError>(e) && *final(self) == *old(self),
            },
            live_step(*old(self), *final(self)),
    {
        if !self.read_model.has_active_finding(&finding) {
            return Err(
                DurableStateError::MissingFinding(owned("cannot accept risk for an inactive finding")),
            );
        }
        let next = FindingDecision::RiskAccepted(acceptance.clone());
        let same = match self.governance.decision(&finding) {
            Some(d) => d.same_as(&next),
            None => false,
        };
        if same {
            return Ok(AcceptRiskResult { change: AcceptRiskChange::Unchanged, acceptance });
        }
        let t = match now {
            Ok(t) => t,
            Err(e) => {
                return Err(e);
            },
        };
        let component_key = finding.component_key.clone();
        self.unsaved.push(
            DurableEvent::FindingRiskAccepted {
                finding: finding.clone(),
                acceptance: acceptance.clone(),
                occurred_at_unix_ms: t,
            },
        );
        proof {
            assert(self.unsaved@.drop_last() =~= old(self).unsaved@);
        }
        let ghost g0 = self.governance@;
        let ghost f = finding@;
        self.governance.accept_risk(finding.clone(), acceptance.clone());
        self.read_model.accept_risk(finding, acceptance.clone());
        proof {
            let fs = seq![f];
            assert(fs.drop_last() =~= Seq::<FindingRefView>::empty());
            assert(decide_seq(g0, fs.drop_last(), acceptance_decision(acceptance)) == g0);
            assert(fs.last() == f);
            assert(decide_seq(g0, fs, acceptance_decision(acceptance)) == g0.insert(
                f,
                acceptance_decision(acceptance),
            ));
        }
        let id = owned("durable-state-risk-accepted-live-").concat(decimal_text(t as u128).as_str());
        let e = governance_event(
            id,
            t,
            SystemEventKind::FindingRiskAccepted,
            None,
            Some(component_key),
            Some(1u32),
            Some(acceptance.reason.clone()),
        );
        self.push_system_event(e);
        proof {
            lemma_replayed_decision_matches(
                *old(self),
                *self,
                self.unsaved@.last(),
                seq![f],
                acceptance_decision(acceptance),
            );
        }
        Ok(AcceptRiskResult { change: AcceptRiskChange::Accepted, acceptance })
    }

    /// Suppress one currently active finding.
    pub fn suppress_finding(&mut self, finding: FindingRef, suppression: Suppression) -> (r: Result<
        SuppressFindingResult,
        DurableStateError,
    >)
        requires
            old(self).wf(),
        ensures
            final(self).wf(),
            !is_active(old(self).read_view(), finding@) ==> (r matches Err(
                DurableStateError::MissingFinding(m),
            ) && m@ == "cannot suppress an inactive finding"@) && *final(self) == *old(self),
            is_active(old(self).read_view(), finding@) && already_decided(
                old(self).governance_view(),
                finding@,
                suppression_decision(suppression),
            ) ==> r == Ok::<SuppressFindingResult, DurableStateError>(
                (SuppressFindingResult { change: SuppressFindingChange::Unchanged, suppression }),
            ) && *final(self) == *old(self),
            is_active(old(self).read_view(), finding@) && !already_decided(
                old(self).governance_view(),
                finding@,
                suppression_decision(suppression),
            ) ==> match r {
                Ok(res) => {
                    &&& res == (SuppressFindingResult {
                        change: SuppressFindingChange::Suppressed,
                        suppression,
                    })
                    &&& decided(*old(self), *final(self), seq![finding@], suppression_decision(suppression))
                    &&& final(self).unsaved().last() matches DurableEvent::FindingSuppressed {
                        finding: x,
                        suppression: y,
                        occurred_at_unix_ms: t,
                    } && x == finding && y == suppression && is_governance_event(
                        final(self).trace()[0],
                        "durable-state-suppressed-live-"@ + decimal(t as nat),
                        t,
                        SystemEventKind::FindingSuppressed,
                        None,
                        Some(finding.component_key@),
                        Some(1u32),
                        Some(suppression.reason@),
                    )
                },
                Err(e) => e is Time && *final(self) == *old(self),
            },
            live_step(*old(self), *final(self)),
            r matches Err(e) ==> (e is Time ==> exists|nanos: Option<u128>|
                #[trigger] millis_from_clock(nanos, Err::<u64, DurableStateError>(e))),
    {
        self.suppress_finding_at(finding, suppression, now_unix_millis())
    }

    /// Suppress one currently active finding.
    ///
    /// This is the call at the time `now` that the clock read: a failed
    /// reading is the error when the call would change something.
    pub fn suppress_finding_at(&mut self, finding: FindingRef, suppression: Suppression, now: Result<u64, DurableStateError>) -> (r: Result<
        SuppressFindingResult,
        DurableStateError,
    >)
        requires
            old(self).wf(),
        ensures
            final(self).wf(),
            !is_active(old(self).read_view(), finding@) ==> (r matches Err(
                DurableStateError::MissingFinding(m),
            ) && m@ == "cannot suppress an inactive finding"@) && *final(self) == *old(self),
            is_active(old(self).read_view(), finding@) && already_decided(
                old(self).governance_view(),
                finding@,
                suppression_decision(suppression),
            ) ==> r == Ok::<SuppressFindingResult, DurableStateError>(
                (SuppressFindingResult { change: SuppressFindingChange::Unchanged, suppression }),
            ) && *final(self) == *old(self),
            is_active(old(self).read_view(), finding@) && !already_decided(
                old(self).governance_view(),
                finding@,
                suppression_decision(suppression),
            ) ==> match r {
                Ok(res) => {
                    &&& res == (SuppressFindingResult {
                        change: SuppressFindingChange::Suppressed,
                        suppression,
                    })
                    &&& decided(*old(self), *final(self), seq![finding@], suppression_decision(suppression))
                    &&& final(self).unsaved().last() matches DurableEvent::FindingSuppressed {
                        finding: x,
                        suppression: y,
                        occurred_at_unix_ms: t,
                    } && now == Ok::<u64, DurableStateError>(t) && x == finding && y == suppression && is_governance_event(
                        final(self).trace()[0],
                        "durable-state-suppressed-live-"@ + decimal(t as nat),
                        t,
                        SystemEventKind::FindingSuppressed,
                        None,
                        Some(finding.component_key@),
                        Some(1u32),
                        Some(suppression.reason@),
                    )
                },
                Err(e) => now == Err::<u64, DurableStateError>(e) && *final(self) == *old(self),
            },
            live_step(*old(self), *final(self)),
    {
        if !self.read_model.has_active_finding(&finding) {
            return Err(DurableStateError::MissingFinding(owned("cannot suppress an inactive finding")));
        }
        let next = FindingDecision::Suppressed(suppression.clone());
        let same = match self.governance.decision(&finding) {
            Some(d) => d.same_as(&next),
            None => false,
        };
        if same {
            return Ok(SuppressFindingResult { change: SuppressFindingChange::Unchanged, suppression });
        }
        let t = match now {
            Ok(t) => t,
            Err(e) => {
                return Err(e);
            },
        };
        let component_key = finding.component_key.clone();
        self.unsaved.push(
            DurableEvent::FindingSuppressed {
                finding: finding.clone(),
                suppression: suppression.clone(),
                occurred_at_unix_ms: t,
            },
        );
        proof {
            assert(self.unsaved@.drop_last() =~= old(self).unsaved@);
        }
        let ghost g0 = self.governance@;
        let ghost f = finding@;
        self.governance.suppress(finding.clone(), suppression.clone());
        self.read_model.suppress(finding, suppression.clone());
        proof {
            let fs = seq![f];
            assert(fs.drop_last() =~= Seq::<FindingRefView>::empty());
            assert(decide_seq(g0, fs.drop_last(), suppression_decision(suppression)) == g0);
            assert(fs.last() == f);
            assert(decide_seq(g0, fs, suppression_decision(suppression)) == g0.insert(
                f,
                suppression_decision(suppression),
            ));
        }
        let id = owned("durable-state-suppressed-live-").concat(decimal_text(t as u128).as_str());
        let e = governance_event(
            id,
            t,
            SystemEventKind::FindingSuppressed,
            None,
            Some(component_key),
            Some(1u32),
            Some(suppression.reason.clone()),
        );
        self.push_system_event(e);
        proof {
            lemma_replayed_decision_matches(
                *old(self),
                *self,
                self.unsaved@.last(),
                seq![f],
                suppression_decision(suppression),
            );
        }
        Ok(SuppressFindingResult { change: SuppressFindingChange::Suppressed, suppression })
    }

    /// The findings of `fs` that do not already carry decision `next`, in order.
    fn undecided_refs(&self, fs: &Vec<FindingRef>, next: &FindingDecision) -> (r: Vec<FindingRef>)
        requires
            self.wf(),
        ensures
            views_of(r@) == undecided(self.governance_view(), views_of(fs@), next@),
    {
        let ghost g = self.governance@;
        let ghost vs = views_of(fs@);
        let mut out: Vec<FindingRef> = Vec::new();
        let mut i: usize = 0;
        assert(vs.take(0) =~= Seq::<FindingRefView>::empty());
        assert(views_of(out@) =~= Seq::<FindingRefView>::empty());
        while i < fs.len()
            invariant
                self.wf(),
                g == self.governance@,
                vs == views_of(fs@),
                i <= fs@.len(),
                views_of(out@) == undecided(g, vs.take(i as int), next@),
            decreases fs.len() - i,
        {
            let f = &fs[i];
            assert(vs.take(i + 1).drop_last() =~= vs.take(i as int));
            assert(vs.take(i + 1).last() == f@);
            let same = match self.governance.decision(f) {
                Some(d) => d.same_as(next),
                None => false,
            };
            let ghost before = out@;
            if !same {
                out.push(f.clone());
                assert(views_of(out@) =~= views_of(before) + seq![f@]);
            } else {
                assert(views_of(out@) =~= views_of(before) + Seq::<FindingRefView>::empty());
            }
            i = i + 1;
        }
        assert(vs.take(fs@.len() as int) =~= vs);
        out
    }

    /// Give each finding of `fs`, in turn, decision `next` on both sides.
    fn decide_each(&mut self, fs: &Vec<FindingRef>, next: &FindingDecision)
        requires
            old(self).wf(),
        ensures
            final(self).wf(),
            final(self).governance_view() == decide_seq(old(self).governance_view(), views_of(fs@), next@),
            final(self).read_view().active == old(self).read_view().active,
            final(self).inventory_view() == old(self).inventory_view(),
            final(self).tracker_view() == old(self).tracker_view(),
            final(self).config() == old(self).config(),
            final(self).applied() == old(self).applied(),
            final(self).pending_events() == old(self).pending_events(),
            final(self).trace() == old(self).trace(),
            final(self).unsaved() == old(self).unsaved(),
    {
        let ghost g0 = self.governance@;
        let ghost vs = views_of(fs@);
        let mut i: usize = 0;
        assert(vs.take(0) =~= Seq::<FindingRefView>::empty());
        while i < fs.len()
            invariant
                self.wf(),
                vs == views_of(fs@),
                i <= fs@.len(),
                self.governance@ == decide_seq(g0, vs.take(i as int), next@),
                self.read_model@.active == old(self).read_model@.active,
                self.ingestion == old(self).ingestion,
                self.integration_runtime_config == old(self).integration_runtime_config,
                self.applied_scan_commands == old(self).applied_scan_commands,
                self.pending_integration_events == old(self).pending_integration_events,
                self.system_events == old(self).system_events,
                self.unsaved == old(self).unsaved,
            decreases fs.len() - i,
        {
            let f = &fs[i];
            assert(vs.take(i + 1).drop_last() =~= vs.take(i as int));
            assert(vs.take(i + 1).last() == f@);
            match next {
                FindingDecision::RiskAccepted(a) => {
                    self.governance.accept_risk(f.clone(), a.clone());
                    self.read_model.accept_risk(f.clone(), a.clone());
                },
                FindingDecision::Suppressed(x) => {
                    self.governance.suppress(f.clone(), x.clone());
                    self.read_model.suppress(f.clone(), x.clone());
                },
            }
            i = i + 1;
        }
        assert(vs.take(fs@.len() as int) =~= vs);
    }

    /// Accept the risk of every open active finding that a bulk query
    /// matches inside one collection.
    pub fn accept_risk_for_collection(
        &mut self,
        collection_key: &str,
        query: &BulkGovernanceQuery,
        acceptance: RiskAcceptance,
    ) -> (r: Result<BulkAcceptRiskResult, DurableStateError>)
        requires
            old(self).wf(),
        ensures
            final(self).wf(),
            !old(self).inventory_view().collections.contains_key(collection_key@) ==> (r matches Err(
                DurableStateError::MissingCollection(m),
            ) && m@ == "unknown collection: "@ + collection_key@) && *final(self) == *old(self),
            old(self).inventory_view().collections.contains_key(collection_key@) ==> {
                let targets = bulk_targets(*old(self), collection_key@, *query);
                let d = acceptance_decision(acceptance);
                let changed = undecided(old(self).governance_view(), targets, d);
                match r {
                    Ok(res) => {
                        &&& res.targeted == targets.len()
                        &&& res.accepted == changed.len()
                        &&& res.unchanged == targets.len() - changed.len()
                        &&& res.acceptance == acceptance
                        &&& changed.len() == 0 ==> *final(self) == *old(self)
                        &&& changed.len() > 0 ==> {
                            &&& decided(*old(self), *final(self), changed, d)
                            &&& final(self).unsaved().last() matches DurableEvent::FindingsRiskAccepted {
                                collection_key: c,
                                findings: fs,
                                acceptance: y,
                                occurred_at_unix_ms: t,
                            } && c@ == collection_key@ && views_of(fs@) == changed && y == acceptance
                                && is_governance_event(
                                final(self).trace()[0],
                                "durable-state-risk-accepted-many-live-"@ + collection_key@ + "-"@
                                    + decimal(t as nat),
                                t,
                                SystemEventKind::FindingsRiskAccepted,
                                Some(collection_key@),
                                None,
                                count_of(changed.len()),
                                Some(acceptance.reason@),
                            )
                        }
                    },
                    Err(e) => e is Time && changed.len() > 0 && *final(self) == *old(self),
                }
            },
            live_step(*old(self), *final(self)),
            r matches Err(e) ==> (e is Time ==> exists|nanos: Option<u128>|
                #[trigger] millis_from_clock(nanos, Err::<u64, DurableStateError>(e))),
    {
        self.accept_risk_for_collection_at(collection_key, query, acceptance, now_unix_millis())
    }

    /// Accept the risk of every open active finding that a bulk query
    /// matches inside one collection.
    ///
    /// This is the call at the time `now` that the clock read: a failed
    /// reading is the error when the call would change something.
    pub fn accept_risk_for_collection_at(
        &mut self,
        collection_key: &str,
        query: &BulkGovernanceQuery,
        acceptance: RiskAcceptance,
        now: Result<u64, DurableStateError>,
    ) -> (r: Result<BulkAcceptRiskResult, DurableStateError>)
        requires
            old(self).wf(),
        ensures
            final(self).wf(),
            !old(self).inventory_view().collections.contains_key(collection_key@) ==> (r matches Err(
                DurableStateError::MissingCollection(m),
            ) && m@ == "unknown collection: "@ + collection_key@) && *final(self) == *old(self),
            old(self).inventory_view().collections.contains_key(collection_key@) ==> {
                let targets = bulk_targets(*old(self), collection_key@, *query);
                let d = acceptance_decision(acceptance);
                let changed = undecided(old(self).governance_view(), targets, d);
                match r {
                    Ok(res) => {
                        &&& res.targeted == targets.len()
                        &&& res.accepted == changed.len()
                        &&& res.unchanged == targets.len() - changed.len()
                        &&& res.acceptance == acceptance
                        &&& changed.len() == 0 ==> *final(self) == *old(self)
                        &&& changed.len() > 0 ==> {
                            &&& decided(*old(self), *final(self), changed, d)
                            &&& final(self).unsaved().last() matches DurableEvent::FindingsRiskAccepted {
                                collection_key: c,
                                findings: fs,
                                acceptance: y,
                                occurred_at_unix_ms: t,
                            } && now == Ok::<u64, DurableStateError>(t) && c@ == collection_key@ && views_of(fs@) == changed && y == acceptance
                                && is_governance_event(
                                final(self).trace()[0],
                                "durable-state-risk-accepted-many-live-"@ + collection_key@ + "-"@
                                    + decimal(t as nat),
                                t,
                                SystemEventKind::FindingsRiskAccepted,
                                Some(collection_key@),
                                None,
                                count_of(changed.len()),
                                Some(acceptance.reason@),
                            )
                        }
                    },
                    Err(e) => now == Err::<u64, DurableStateError>(e) && changed.len() > 0 && *final(self) == *old(self),
                }
            },
            live_step(*old(self), *final(self)),
    {
        let scope = match self.ingestion.inventory().collection_scoped_artifacts(collection_key) {
            Some(s) => s,
            None => {
                return Err(
                    DurableStateError::MissingCollection(
                        owned("unknown collection: ").concat(collection_key),
                    ),
                );
            },
        };
        let findings = self.read_model.visit_bulk_governance_finding_refs(scope.as_slice(), query);
        let targeted = findings.len();
        let next = FindingDecision::RiskAccepted(acceptance.clone());
        let changed = self.undecided_refs(&findings, &next);
        proof {
            lemma_undecided_len(self.governance@, views_of(findings@), next@);
        }
        let accepted = changed.len();
        if accepted > 0 {
            let t = match now {
                Ok(t) => t,
                Err(e) => {
                    return Err(e);
                },
            };
            self.unsaved.push(
                DurableEvent::FindingsRiskAccepted {
                    collection_key: owned(collection_key),
                    findings: copy_refs(&changed),
                    acceptance: acceptance.clone(),
                    occurred_at_unix_ms: t,
                },
            );
            proof {
                assert(self.unsaved@.drop_last() =~= old(self).unsaved@);
            }
            self.decide_each(&changed, &next);
            let id = owned("durable-state-risk-accepted-many-live-").concat(collection_key).concat(
                "-",
            ).concat(decimal_text(t as u128).as_str());
            let count = if accepted <= u32::MAX as usize {
                Some(accepted as u32)
            } else {
                None
            };
            let e = governance_event(
                id,
                t,
                SystemEventKind::FindingsRiskAccepted,
                Some(owned(collection_key)),
                None,
                count,
                Some(acceptance.reason.clone()),
            );
            self.push_system_event(e);
            proof {
                lemma_replayed_decision_matches(
                    *old(self),
                    *self,
                    self.unsaved@.last(),
                    views_of(changed@),
                    acceptance_decision(acceptance),
                );
            }
        }
        Ok(BulkAcceptRiskResult { targeted, accepted, unchanged: targeted - accepted, acceptance })
    }

    /// Suppress every open active finding that a bulk query matches inside
    /// one collection.
    pub fn suppress_findings_for_collection(
        &mut self,
        collection_key: &str,
        query: &BulkGovernanceQuery,
        suppression: Suppression,
    ) -> (r: Result<BulkSuppressFindingResult, DurableStateError>)
        requires
            old(self).wf(),
        ensures
            final(self).wf(),
            !old(self).inventory_view().collections.contains_key(collection_key@) ==> (r matches Err(
                DurableStateError::MissingCollection(m),
            ) && m@ == collection_key@) && *final(self) == *old(self),
            old(self).inventory_view().collections.contains_key(collection_key@) ==> {
                let targets = bulk_targets(*old(self), collection_key@, *query);
                let d = suppression_decision(suppression);
                let changed = undecided(old(self).governance_view(), targets, d);
                match r {
                    Ok(res) => {
                        &&& res.targeted == targets.len()
                        &&& res.suppressed == changed.len()
                        &&& res.unchanged == targets.len() - changed.len()
                        &&& res.suppression == suppression
                        &&& changed.len() == 0 ==> *final(self) == *old(self)
                        &&& changed.len() > 0 ==> {
                            &&& decided(*old(self), *final(self), changed, d)
                            &&& final(self).unsaved().last() matches DurableEvent::FindingsSuppressed {
                                collection_key: c,
                                findings: fs,
                                suppression: y,
                                occurred_at_unix_ms: t,
                            } && c@ == collection_key@ && views_of(fs@) == changed && y == suppression
                                && is_governance_event(
                                final(self).trace()[0],
                                "durable-state-suppressed-many-live-"@ + collection_key@ + "-"@
                                    + decimal(t as nat),
                                t,
                                SystemEventKind::FindingsSuppressed,
                                Some(collection_key@),
                                None,
                                count_of(changed.len()),
                                Some(suppression.reason@),
                            )
                        }
                    },
                    Err(e) => e is Time && changed.len() > 0 && *final(self) == *old(self),
                }
            },
            live_step(*old(self), *final(self)),
            r matches Err(e) ==> (e is Time ==> exists|nanos: Option<u128>|
                #[trigger] millis_from_clock(nanos, Err::<u64, DurableStateError>(e))),
    {
        self.suppress_findings_for_collection_at(collection_key, query, suppression, now_unix_millis())
    }

    /// Suppress every open active finding that a bulk query matches inside
    /// one collection.
    ///
    /// This is the call at the time `now` that the clock read: a failed
    /// reading is the error when the call would change something.
    pub fn suppress_findings_for_collection_at(
        &mut self,
        collection_key: &str,
        query: &BulkGovernanceQuery,
        suppression: Suppression,
        now: Result<u64, DurableStateError>,
    ) -> (r: Result<BulkSuppressFindingResult, DurableStateError>)
        requires
            old(self).wf(),
        ensures
            final(self).wf(),
            !old(self).inventory_view().collections.contains_key(collection_key@) ==> (r matches Err(
                DurableStateError::MissingCollection(m),
            ) && m@ == collection_key@) && *final(self) == *old(self),
            old(self).inventory_view().collections.contains_key(collection_key@) ==> {
                let targets = bulk_targets(*old(self), collection_key@, *query);
                let d = suppression_decision(suppression);
                let changed = undecided(old(self).governance_view(), targets, d);
                match r {
                    Ok(res) => {
                        &&& res.targeted == targets.len()
                        &&& res.suppressed == changed.len()
                        &&& res.unchanged == targets.len() - changed.len()
                        &&& res.suppression == suppression
                        &&& changed.len() == 0 ==> *final(self) == *old(self)
                        &&& changed.len() > 0 ==> {
                            &&& decided(*old(self), *final(self), changed, d)
                            &&& final(self).unsaved().last() matches DurableEvent::FindingsSuppressed {
                                collection_key: c,
                                findings: fs,
                                suppression: y,
                                occurred_at_unix_ms: t,
                            } && now == Ok::<u64, DurableStateError>(t) && c@ == collection_key@ && views_of(fs@) == changed && y == suppression
                                && is_governance_event(
                                final(self).trace()[0],
                                "durable-state-suppressed-many-live-"@ + collection_key@ + "-"@
                                    + decimal(t as nat),
                                t,
                                SystemEventKind::FindingsSuppressed,
                                Some(collection_key@),
                                None,
                                count_of(changed.len()),
                                Some(suppression.reason@),
                            )
                        }
                    },
                    Err(e) => now == Err::<u64, DurableStateError>(e) && changed.len() > 0 && *final(self) == *old(self),
                }
            },
            live_step(*old(self), *final(self)),
    {
        let scope = match self.ingestion.inventory().collection_scoped_artifacts(collection_key) {
            Some(s) => s,
            None => {
                return Err(DurableStateError::MissingCollection(owned(collection_key)));
            },
        };
        let findings = self.read_model.visit_bulk_governance_finding_refs(scope.as_slice(), query);
        let targeted = findings.len();
        let next = FindingDecision::Suppressed(suppression.clone());
        let changed = self.undecided_refs(&findings, &next);
        proof {
            lemma_undecided_len(self.governance@, views_of(findings@), next@);
        }
        let suppressed = changed.len();
        if suppressed > 0 {
            let t = match now {
                Ok(t) => t,
                Err(e) => {
                    return Err(e);
                },
            };
            self.unsaved.push(
                DurableEvent::FindingsSuppressed {
                    collection_key: owned(collection_key),
                    findings: copy_refs(&changed),
                    suppression: suppression.clone(),
                    occurred_at_unix_ms: t,
                },
            );
            proof {
                assert(self.unsaved@.drop_last() =~= old(self).unsaved@);
            }
            self.decide_each(&changed, &next);
            let id = owned("durable-state-suppressed-many-live-").concat(collection_key).concat(
                "-",
            ).concat(decimal_text(t as u128).as_str());
            let count = if suppressed <= u32::MAX as usize {
                Some(suppressed as u32)
            } else {
                None
            };
            let e = governance_event(
                id,
                t,
                SystemEventKind::FindingsSuppressed,
                Some(owned(collection_key)),
                None,
                count,
                Some(suppression.reason.clone()),
            );
            self.push_system_event(e);
            proof {
                lemma_replayed_decision_matches(
                    *old(self),
                    *self,
                    self.unsaved@.last(),
                    views_of(changed@),
                    suppression_decision(suppression),
                );
            }
        }
        Ok(BulkSuppressFindingResult { targeted, suppressed, unchanged: targeted - suppressed, suppression })
    }

    /// The system events that a query selects, newest first.
    pub fn query_system_events(&self, query: &SystemEventsQuery) -> (r: SystemEventsPage)
        ensures
            r.limit == clamped_limit(query.limit),
            r.total == events_page(self.trace(), *query).0,
            shared_events(r.events@) == events_page(self.trace(), *query).1,
            r.returned == r.events@.len(),
    {
        query_system_events(self.system_events.as_slice(), query)
    }

    /// The pending integration event that publication tries next: the oldest.
    pub fn next_pending_integration_event(&self) -> (r: Option<&PendingIntegrationEvent>)
        ensures
            r is None <==> self.pending_events().len() == 0,
            r matches Some(p) ==> *p == self.pending_events()[0],
    {
        if self.pending_integration_events.len() == 0 {
            None
        } else {
            Some(&self.pending_integration_events[0])
        }
    }

    /// The next event a bounded publication batch attempts: the oldest
    /// pending one, while no attempt failed and fewer than `max_events` were
    /// made.
    pub fn next_publication(&self, progress: &PublishIntegrationEventsResult, max_events: usize) -> (r:
        Option<&PendingIntegrationEvent>)
        ensures
            r is Some <==> batch_open(*progress, max_events) && self.pending_events().len() > 0,
            r matches Some(p) ==> *p == self.pending_events()[0],
    {
        if progress.last_failure.is_some() || progress.attempted >= max_events {
            return None;
        }
        self.next_pending_integration_event()
    }

    /// Record what publishing the pending event `event_id` gave, and count
    /// the attempt in the batch's progress. A publication removes the event
    /// from the pending events; a failure keeps it and ends the batch. The
    /// only error is the clock's, and then the state is unchanged.
    pub fn record_publication_outcome(
        &mut self,
        progress: &mut PublishIntegrationEventsResult,
        event_id: &str,
        outcome: Result<(), IntegrationEventPublishError>,
    ) -> (r: Result<(), DurableStateError>)
        requires
            old(self).wf(),
            old(progress).attempted < usize::MAX,
            old(progress).published < usize::MAX,
        ensures
            final(self).wf(),
            r matches Err(e) ==> e is Time && *final(self) == *old(self) && exists|
                nanos: Option<u128>,
            | #[trigger] millis_from_clock(nanos, Err::<u64, DurableStateError>(e)),
            r is Ok ==> batch_advanced(
                *old(progress),
                *final(progress),
                event_id@,
                outcome,
                final(self).pending_events().len(),
            ),
            r is Ok && outcome is Ok ==> publication_recorded(*old(self), *final(self), event_id@),
            r is Ok && outcome is Err ==> same_domain(*old(self), *final(self)),
            live_step(*old(self), *final(self)),
    {
        let recorded = match &outcome {
            Ok(()) => self.record_integration_event_published(event_id),
            Err(e) => self.record_integration_event_publication_failed(
                event_id,
                e.retryable,
                e.message.as_str(),
            ),
        };
        match recorded {
            Ok(()) => {},
            Err(e) => {
                return Err(e);
            },
        }
        let pending = self.pending_integration_events.len();
        progress.advance(event_id, outcome, pending);
        Ok(())
    }

    fn remove_pending_integration_event(&mut self, event_id: &str)
        requires
            old(self).wf(),
        ensures
            final(self).wf(),
            final(self).pending_events() == without_event(old(self).pending_events(), event_id@),
            final(self).inventory_view() == old(self).inventory_view(),
            final(self).tracker_view() == old(self).tracker_view(),
            final(self).read_view() == old(self).read_view(),
            final(self).governance_view() == old(self).governance_view(),
            final(self).config() == old(self).config(),
            final(self).applied() == old(self).applied(),
            final(self).trace() == old(self).trace(),
            final(self).unsaved() == old(self).unsaved(),
    {
        let mut i: usize = 0;
        while i < self.pending_integration_events.len()
            invariant_except_break
                i <= self.pending_integration_events@.len(),
                forall|j: int|
                    0 <= j < i ==> (#[trigger] self.pending_integration_events@[j]).event_id@
                        != event_id@,
            ensures
                i <= self.pending_integration_events@.len(),
                forall|j: int|
                    0 <= j < i ==> (#[trigger] self.pending_integration_events@[j]).event_id@
                        != event_id@,
                i < self.pending_integration_events@.len() ==> self.pending_integration_events@[i as int].event_id@
                    == event_id@,
            decreases self.pending_integration_events.len() - i,
        {
            if text_eq(self.pending_integration_events[i].event_id.as_str(), event_id) {
                break;
            }
            i = i + 1;
        }
        proof {
            lemma_without_event(self.pending_integration_events@, event_id@, i as int);
        }
        if i < self.pending_integration_events.len() {
            let _ = self.pending_integration_events.remove(i);
        }
    }

    /// Record that one pending integration event was published: it leaves
    /// the pending events.
    pub fn record_integration_event_published(&mut self, event_id: &str) -> (r: Result<
        (),
        DurableStateError,
    >)
        requires
            old(self).wf(),
        ensures
            final(self).wf(),
            match r {
                Ok(_) => {
                    &&& publication_recorded(*old(self), *final(self), event_id@)
                    &&& final(self).unsaved().len() == old(self).unsaved().len() + 1
                    &&& final(self).unsaved().drop_last() == old(self).unsaved()
                    &&& final(self).trace() == log_push(old(self).trace(), final(self).trace()[0])
                    &&& final(self).unsaved().last() matches DurableEvent::IntegrationEventPublished {
                        event_id: x,
                        occurred_at_unix_ms: t,
                    } && x@ == event_id@ && is_publication_event(
                        final(self).trace()[0],
                        "durable-state-published-live-"@ + decimal(t as nat),
                        t,
                        SystemEventKind::IntegrationEventPublished,
                        event_id@,
                        None,
                        None,
                    )
                },
                Err(e) => e is Time && *final(self) == *old(self),
            },
            live_step(*old(self), *final(self)),
            r matches Err(e) ==> (e is Time ==> exists|nanos: Option<u128>|
                #[trigger] millis_from_clock(nanos, Err::<u64, DurableStateError>(e))),
    {
        self.record_integration_event_published_at(event_id, now_unix_millis())
    }

    /// Record that one pending integration event was published: it leaves
    /// the pending events.
    ///
    /// This is the call at the time `now` that the clock read: a failed
    /// reading is the error when the call would change something.
    pub fn record_integration_event_published_at(&mut self, event_id: &str, now: Result<u64, DurableStateError>) -> (r: Result<
        (),
        DurableStateError,
    >)
        requires
            old(self).wf(),
        ensures
            final(self).wf(),
            match r {
                Ok(_) => {
                    &&& publication_recorded(*old(self), *final(self), event_id@)
                    &&& final(self).unsaved().len() == old(self).unsaved().len() + 1
                    &&& final(self).unsaved().drop_last() == old(self).unsaved()
                    &&& final(self).trace() == log_push(old(self).trace(), final(self).trace()[0])
                    &&& final(self).unsaved().last() matches DurableEvent::IntegrationEventPublished {
                        event_id: x,
                        occurred_at_unix_ms: t,
                    } && now == Ok::<u64, DurableStateError>(t) && x@ == event_id@ && is_publication_event(
                        final(self).trace()[0],
                        "durable-state-published-live-"@ + decimal(t as nat),
                        t,
                        SystemEventKind::IntegrationEventPublished,
                        event_id@,
                        None,
                        None,
                    )
                },
                Err(e) => now == Err::<u64, DurableStateError>(e) && *final(self) == *old(self),
            },
            live_step(*old(self), *final(self)),
    {
        let t = match now {
            Ok(t) => t,
            Err(e) => {
                return Err(e);
            },
        };
        self.unsaved.push(
            DurableEvent::IntegrationEventPublished { event_id: owned(event_id), occurred_at_unix_ms: t },
        );
        proof {
            assert(self.unsaved@.drop_last() =~= old(self).unsaved@);
        }
        self.remove_pending_integration_event(event_id);
        let id = owned("durable-state-published-live-").concat(decimal_text(t as u128).as_str());
        let e = publication_event(id, t, SystemEventKind::IntegrationEventPublished, owned(event_id), None, None);
        self.push_system_event(e);
        proof {
            lemma_replayed_publication_matches(*old(self), *self, self.unsaved@.last());
        }
        Ok(())
    }

    /// Record that publishing one integration event failed; it stays pending.
    pub fn record_integration_event_publication_failed(
        &mut self,
        event_id: &str,
        retryable: bool,
        detail: &str,
    ) -> (r: Result<(), DurableStateError>)
        requires
            old(self).wf(),
        ensures
            final(self).wf(),
            match r {
                Ok(_) => {
                    &&& final(self).pending_events() == old(self).pending_events()
                    &&& final(self).inventory_view() == old(self).inventory_view()
                    &&& final(self).tracker_view() == old(self).tracker_view()
                    &&& final(self).read_view() == old(self).read_view()
                    &&& final(self).governance_view() == old(self).governance_view()
                    &&& final(self).config() == old(self).config()
                    &&& final(self).applied() == old(self).applied()
                    &&& final(self).unsaved().len() == old(self).unsaved().len() + 1
                    &&& final(self).unsaved().drop_last() == old(self).unsaved()
                    &&& final(self).trace() == log_push(old(self).trace(), final(self).trace()[0])
                    &&& final(self).unsaved().last() matches DurableEvent::IntegrationEventPublicationFailed {
                        event_id: x,
                        occurred_at_unix_ms: t,
                        retryable: y,
                        detail: z,
                    } && x@ == event_id@ && y == retryable && z@ == detail@ && is_publication_event(
                        final(self).trace()[0],
                        "durable-state-publish-failed-live-"@ + decimal(t as nat),
                        t,
                        SystemEventKind::IntegrationEventPublicationFailed,
                        event_id@,
                        Some(retryable),
                        Some(detail@),
                    )
                },
                Err(e) => e is Time && *final(self) == *old(self),
            },
            live_step(*old(self), *final(self)),
            r matches Err(e) ==> (e is Time ==> exists|nanos: Option<u128>|
                #[trigger] millis_from_clock(nanos, Err::<u64, DurableStateError>(e))),
    {
        self.record_integration_event_publication_failed_at(event_id, retryable, detail, now_unix_millis())
    }

    /// Record that publishing one integration event failed; it stays pending.
    ///
    /// This is the call at the time `now` that the clock read: a failed
    /// reading is the error when the call would change something.
    pub fn record_integration_event_publication_failed_at(
        &mut self,
        event_id: &str,
        retryable: bool,
        detail: &str,
        now: Result<u64, DurableStateError>,
    ) -> (r: Result<(), DurableStateError>)
        requires
            old(self).wf(),
        ensures
            final(self).wf(),
            match r {
                Ok(_) => {
                    &&& final(self).pending_events() == old(self).pending_events()
                    &&& final(self).inventory_view() == old(self).inventory_view()
                    &&& final(self).tracker_view() == old(self).tracker_view()
                    &&& final(self).read_view() == old(self).read_view()
                    &&& final(self).governance_view() == old(self).governance_view()
                    &&& final(self).config() == old(self).config()
                    &&& final(self).applied() == old(self).applied()
                    &&& final(self).unsaved().len() == old(self).unsaved().len() + 1
                    &&& final(self).unsaved().drop_last() == old(self).unsaved()
                    &&& final(self).trace() == log_push(old(self).trace(), final(self).trace()[0])
                    &&& final(self).unsaved().last() matches DurableEvent::IntegrationEventPublicationFailed {
                        event_id: x,
                        occurred_at_unix_ms: t,
                        retryable: y,
                        detail: z,
                    } && now == Ok::<u64, DurableStateError>(t) && x@ == event_id@ && y == retryable && z@ == detail@ && is_publication_event(
                        final(self).trace()[0],
                        "durable-state-publish-failed-live-"@ + decimal(t as nat),
                        t,
                        SystemEventKind::IntegrationEventPublicationFailed,
                        event_id@,
                        Some(retryable),
                        Some(detail@),
                    )
                },
                Err(e) => now == Err::<u64, DurableStateError>(e) && *final(self) == *old(self),
            },
            live_step(*old(self), *final(self)),
    {
        let t = match now {
            Ok(t) => t,
            Err(e) => {
                return Err(e);
            },
        };
        self.unsaved.push(
            DurableEvent::IntegrationEventPublicationFailed {
                event_id: owned(event_id),
                occurred_at_unix_ms: t,
                retryable,
                detail: owned(detail),
            },
        );
        proof {
            assert(self.unsaved@.drop_last() =~= old(self).unsaved@);
        }
        let id = owned("durable-state-publish-failed-live-").concat(decimal_text(t as u128).as_str());
        let e = publication_event(
            id,
            t,
            SystemEventKind::IntegrationEventPublicationFailed,
            owned(event_id),
            Some(retryable),
            Some(owned(detail)),
        );
        self.push_system_event(e);
        proof {
            lemma_replayed_failure_matches(*old(self), *self, self.unsaved@.last());
        }
        Ok(())
    }

    /// The findings of `fs` that carry a decision, in order.
    fn decided_refs(&self, fs: &Vec<FindingRef>) -> (r: Vec<FindingRef>)
        requires
            self.wf(),
        ensures
            views_of(r@) == with_decision(self.governance_view(), views_of(fs@)),
    {
        let ghost g = self.governance@;
        let ghost vs = views_of(fs@);
        let mut out: Vec<FindingRef> = Vec::new();
        let mut i: usize = 0;
        assert(vs.take(0) =~= Seq::<FindingRefView>::empty());
        assert(views_of(out@) =~= Seq::<FindingRefView>::empty());
        while i < fs.len()
            invariant
                self.wf(),
                g == self.governance@,
                vs == views_of(fs@),
                i <= fs@.len(),
                views_of(out@) == with_decision(g, vs.take(i as int)),
            decreases fs.len() - i,
        {
            let f = &fs[i];
            assert(vs.take(i + 1).drop_last() =~= vs.take(i as int));
            assert(vs.take(i + 1).last() == f@);
            let ghost before = out@;
            match self.governance.decision(f) {
                Some(_) => {
                    out.push(f.clone());
                    assert(views_of(out@) =~= views_of(before) + seq![f@]);
                },
                None => {
                    assert(views_of(out@) =~= views_of(before) + Seq::<FindingRefView>::empty());
                },
            }
            i = i + 1;
        }
        assert(vs.take(fs@.len() as int) =~= vs);
        out
    }

    /// Withdraw, in turn, the decision of each finding of `fs` on both sides.
    fn reopen_each(&mut self, fs: &Vec<FindingRef>)
        requires
            old(self).wf(),
        ensures
            final(self).wf(),
            final(self).governance_view() == reopen_seq(old(self).governance_view(), views_of(fs@)),
            final(self).read_view().active == old(self).read_view().active,
            final(self).inventory_view() == old(self).inventory_view(),
            final(self).tracker_view() == old(self).tracker_view(),
            final(self).config() == old(self).config(),
            final(self).applied() == old(self).applied(),
            final(self).pending_events() == old(self).pending_events(),
            final(self).trace() == old(self).trace(),
            final(self).unsaved() == old(self).unsaved(),
    {
        let ghost g0 = self.governance@;
        let ghost vs = views_of(fs@);
        let mut i: usize = 0;
        assert(vs.take(0) =~= Seq::<FindingRefView>::empty());
        while i < fs.len()
            invariant
                self.wf(),
                vs == views_of(fs@),
                i <= fs@.len(),
                self.governance@ == reopen_seq(g0, vs.take(i as int)),
                self.read_model@.active == old(self).read_model@.active,
                self.ingestion == old(self).ingestion,
                self.integration_runtime_config == old(self).integration_runtime_config,
                self.applied_scan_commands == old(self).applied_scan_commands,
                self.pending_integration_events == old(self).pending_integration_events,
                self.system_events == old(self).system_events,
                self.unsaved == old(self).unsaved,
            decreases fs.len() - i,
        {
            let f = &fs[i];
            assert(vs.take(i + 1).drop_last() =~= vs.take(i as int));
            assert(vs.take(i + 1).last() == f@);
            let _ = self.governance.reopen(f);
            self.read_model.reopen(f);
            i = i + 1;
        }
        assert(vs.take(fs@.len() as int) =~= vs);
    }

    /// Return one currently active finding to the open state.
    pub fn reopen_finding(&mut self, finding: &FindingRef) -> (r: Result<
        ReopenFindingResult,
        DurableStateError,
    >)
        requires
            old(self).wf(),
        ensures
            final(self).wf(),
            !is_active(old(self).read_view(), finding@) ==> (r matches Err(
                DurableStateError::MissingFinding(m),
            ) && m@ == "cannot reopen an inactive finding"@) && *final(self) == *old(self),
            is_active(old(self).read_view(), finding@) && !old(self).governance_view().contains_key(
                finding@,
            ) ==> r == Ok::<ReopenFindingResult, DurableStateError>(
                (ReopenFindingResult { change: ReopenFindingChange::Unchanged }),
            ) && *final(self) == *old(self),
            is_active(old(self).read_view(), finding@) && old(self).governance_view().contains_key(
                finding@,
            ) ==> match r {
                Ok(res) => {
                    &&& res == (ReopenFindingResult { change: ReopenFindingChange::Reopened })
                    &&& reopened(*old(self), *final(self), seq![finding@])
                    &&& final(self).unsaved().last() matches DurableEvent::FindingReopened {
                        finding: x,
                        occurred_at_unix_ms: t,
                    } && x == *finding && is_governance_event(
                        final(self).trace()[0],
                        "durable-state-reopened-live-"@ + decimal(t as nat),
                        t,
                        SystemEventKind::FindingReopened,
                        None,
                        Some(finding.component_key@),
                        Some(1u32),
                        None,
                    )
                },
                Err(e) => e is Time && *final(self) == *old(self),
            },
            live_step(*old(self), *final(self)),
            r matches Err(e) ==> (e is Time ==> exists|nanos: Option<u128>|
                #[trigger] millis_from_clock(nanos, Err::<u64, DurableStateError>(e))),
    {
        self.reopen_finding_at(finding, now_unix_millis())
    }

    /// Return one currently active finding to the open state.
    ///
    /// This is the call at the time `now` that the clock read: a failed
    /// reading is the error when the call would change something.
    pub fn reopen_finding_at(&mut self, finding: &FindingRef, now: Result<u64, DurableStateError>) -> (r: Result<
        ReopenFindingResult,
        DurableStateError,
    >)
        requires
            old(self).wf(),
        ensures
            final(self).wf(),
            !is_active(old(self).read_view(), finding@) ==> (r matches Err(
                DurableStateError::MissingFinding(m),
            ) && m@ == "cannot reopen an inactive finding"@) && *final(self) == *old(self),
            is_active(old(self).read_view(), finding@) && !old(self).governance_view().contains_key(
                finding@,
            ) ==> r == Ok::<ReopenFindingResult, DurableStateError>(
                (ReopenFindingResult { change: ReopenFindingChange::Unchanged }),
            ) && *final(self) == *old(self),
            is_active(old(self).read_view(), finding@) && old(self).governance_view().contains_key(
                finding@,
            ) ==> match r {
                Ok(res) => {
                    &&& res == (ReopenFindingResult { change: ReopenFindingChange::Reopened })
                    &&& reopened(*old(self), *final(self), seq![finding@])
                    &&& final(self).unsaved().last() matches DurableEvent::FindingReopened {
                        finding: x,
                        occurred_at_unix_ms: t,
                    } && now == Ok::<u64, DurableStateError>(t) && x == *finding && is_governance_event(
                        final(self).trace()[0],
                        "durable-state-reopened-live-"@ + decimal(t as nat),
                        t,
                        SystemEventKind::FindingReopened,
                        None,
                        Some(finding.component_key@),
                        Some(1u32),
                        None,
                    )
                },
                Err(e) => now == Err::<u64, DurableStateError>(e) && *final(self) == *old(self),
            },
            live_step(*old(self), *final(self)),
    {
        if !self.read_model.has_active_finding(finding) {
            return Err(DurableStateError::MissingFinding(owned("cannot reopen an inactive finding")));
        }
        if self.governance.decision(finding).is_none() {
            return Ok(ReopenFindingResult { change: ReopenFindingChange::Unchanged });
        }
        let t = match now {
            Ok(t) => t,
            Err(e) => {
                return Err(e);
            },
        };
        self.unsaved.push(
            DurableEvent::FindingReopened { finding: finding.clone(), occurred_at_unix_ms: t },
        );
        proof {
            assert(self.unsaved@.drop_last() =~= old(self).unsaved@);
        }
        let ghost g0 = self.governance@;
        let _ = self.governance.reopen(finding);
        self.read_model.reopen(finding);
        proof {
            lemma_reopen_one(g0, finding@);
        }
        let id = owned("durable-state-reopened-live-").concat(decimal_text(t as u128).as_str());
        let e = governance_event(
            id,
            t,
            SystemEventKind::FindingReopened,
            None,
            Some(finding.component_key.clone()),
            Some(1u32),
            None,
        );
        self.push_system_event(e);
        proof {
            lemma_replayed_reopen_matches(*old(self), *self, self.unsaved@.last(), seq![finding@]);
        }
        Ok(ReopenFindingResult { change: ReopenFindingChange::Reopened })
    }

    /// Return every governed active finding that a bulk query matches inside
    /// one collection to the open state.
    pub fn reopen_findings_for_collection(&mut self, collection_key: &str, query: &BulkGovernanceQuery) -> (r:
        Result<BulkReopenFindingResult, DurableStateError>)
        requires
            old(self).wf(),
        ensures
            final(self).wf(),
            !old(self).inventory_view().collections.contains_key(collection_key@) ==> (r matches Err(
                DurableStateError::MissingCollection(m),
            ) && m@ == collection_key@) && *final(self) == *old(self),
            old(self).inventory_view().collections.contains_key(collection_key@) ==> {
                let targets = bulk_targets(*old(self), collection_key@, *query);
                let governed = with_decision(old(self).governance_view(), targets);
                match r {
                    Ok(res) => {
                        &&& res.targeted == targets.len()
                        &&& res.reopened == governed.len()
                        &&& res.unchanged == targets.len() - governed.len()
                        &&& governed.len() == 0 ==> *final(self) == *old(self)
                        &&& governed.len() > 0 ==> {
                            &&& reopened(*old(self), *final(self), governed)
                            &&& final(self).unsaved().last() matches DurableEvent::FindingsReopened {
                                collection_key: c,
                                findings: fs,
                                occurred_at_unix_ms: t,
                            } && c@ == collection_key@ && views_of(fs@) == governed
                                && is_governance_event(
                                final(self).trace()[0],
                                "durable-state-reopened-many-live-"@ + collection_key@ + "-"@
                                    + decimal(t as nat),
                                t,
                                SystemEventKind::FindingsReopened,
                                Some(collection_key@),
                                None,
                                count_of(governed.len()),
                                None,
                            )
                        }
                    },
                    Err(e) => e is Time && governed.len() > 0 && *final(self) == *old(self),
                }
            },
            live_step(*old(self), *final(self)),
            r matches Err(e) ==> (e is Time ==> exists|nanos: Option<u128>|
                #[trigger] millis_from_clock(nanos, Err::<u64, DurableStateError>(e))),
    {
        self.reopen_findings_for_collection_at(collection_key, query, now_unix_millis())
    }

    /// Return every governed active finding that a bulk query matches inside
    /// one collection to the open state.
    ///
    /// This is the call at the time `now` that the clock read: a failed
    /// reading is the error when the call would change something.
    pub fn reopen_findings_for_collection_at(&mut self, collection_key: &str, query: &BulkGovernanceQuery, now: Result<u64, DurableStateError>) -> (r:
        Result<BulkReopenFindingResult, DurableStateError>)
        requires
            old(self).wf(),
        ensures
            final(self).wf(),
            !old(self).inventory_view().collections.contains_key(collection_key@) ==> (r matches Err(
                DurableStateError::MissingCollection(m),
            ) && m@ == collection_key@) && *final(self) == *old(self),
            old(self).inventory_view().collections.contains_key(collection_key@) ==> {
                let targets = bulk_targets(*old(self), collection_key@, *query);
                let governed = with_decision(old(self).governance_view(), targets);
                match r {
                    Ok(res) => {
                        &&& res.targeted == targets.len()
                        &&& res.reopened == governed.len()
                        &&& res.unchanged == targets.len() - governed.len()
                        &&& governed.len() == 0 ==> *final(self) == *old(self)
                        &&& governed.len() > 0 ==> {
                            &&& reopened(*old(self), *final(self), governed)
                            &&& final(self).unsaved().last() matches DurableEvent::FindingsReopened {
                                collection_key: c,
                                findings: fs,
                                occurred_at_unix_ms: t,
                            } && now == Ok::<u64, DurableStateError>(t) && c@ == collection_key@ && views_of(fs@) == governed
                                && is_governance_event(
                                final(self).trace()[0],
                                "durable-state-reopened-many-live-"@ + collection_key@ + "-"@
                                    + decimal(t as nat),
                                t,
                                SystemEventKind::FindingsReopened,
                                Some(collection_key@),
                                None,
                                count_of(governed.len()),
                                None,
                            )
                        }
                    },
                    Err(e) => now == Err::<u64, DurableStateError>(e) && governed.len() > 0 && *final(self) == *old(self),
                }
            },
            live_step(*old(self), *final(self)),
    {
        let scope = match self.ingestion.inventory().collection_scoped_artifacts(collection_key) {
            Some(s) => s,
            None => {
                return Err(DurableStateError::MissingCollection(owned(collection_key)));
            },
        };
        let findings = self.read_model.visit_bulk_governance_finding_refs(scope.as_slice(), query);
        let targeted = findings.len();
        let governed = self.decided_refs(&findings);
        proof {
            lemma_with_decision_len(self.governance@, views_of(findings@));
        }
        let reopened = governed.len();
        if reopened > 0 {
            let t = match now {
                Ok(t) => t,
                Err(e) => {
                    return Err(e);
                },
            };
            self.unsaved.push(
                DurableEvent::FindingsReopened {
                    collection_key: owned(collection_key),
                    findings: copy_refs(&governed),
                    occurred_at_unix_ms: t,
                },
            );
            proof {
                assert(self.unsaved@.drop_last() =~= old(self).unsaved@);
            }
            self.reopen_each(&governed);
            let id = owned("durable-state-reopened-many-live-").concat(collection_key).concat(
                "-",
            ).concat(decimal_text(t as u128).as_str());
            let count = if reopened <= u32::MAX as usize {
                Some(reopened as u32)
            } else {
                None
            };
            let e = governance_event(
                id,
                t,
                SystemEventKind::FindingsReopened,
                Some(owned(collection_key)),
                None,
                count,
                None,
            );
            self.push_system_event(e);
            proof {
                lemma_replayed_reopen_matches(
                    *old(self),
                    *self,
                    self.unsaved@.last(),
                    views_of(governed@),
                );
            }
        }
        Ok(BulkReopenFindingResult { targeted, reopened, unchanged: targeted - reopened })
    }

    /// Replay one durable event found at `line` of a history. Nothing is
    /// recorded; an event that the state refuses makes the history corrupt.
    pub fn apply_event(&mut self, event: DurableEvent, line: usize) -> (r: Result<(), DurableStateError>)
        requires
            old(self).wf(),
        ensures
            final(self).wf(),
            event_replayed(*old(self), *final(self), event, line, r),
            r matches Err(e) ==> (e matches DurableStateError::CorruptHistory { line: l, .. } && l
                == line),
    {
        if is_inventory_event(&event) {
            return self.apply_inventory_event(event, line);
        }
        if is_governance_change(&event) {
            return self.apply_governance_event(event, line);
        }
        let ln = decimal_text(line as u128);
        match event {
            DurableEvent::IntegrationRuntimeConfigured { config } => {
                self.integration_runtime_config = Some(config);
                Ok(())
            },
            DurableEvent::ProviderScanRecorded {
                command_id,
                report,
                change_set,
                pending_integration_event,
            } => {
                match self.ingestion.record_scan_report(&report) {
                    Err(e) => {
                        let reason = owned("provider report cannot be replayed: ").concat(e.as_str());
                        return Err(DurableStateError::CorruptHistory { line, reason });
                    },
                    Ok(_) => {},
                }
                self.read_model.record_scan_report(&report);
                match (command_id, change_set) {
                    (Some(c), Some(cs)) => {
                        self.applied_scan_commands.insert(c, cs);
                    },
                    _ => {},
                }
                match pending_integration_event {
                    Some(p) => {
                        self.pending_integration_events.push(p);
                    },
                    None => {},
                }
                Ok(())
            },
            DurableEvent::IntegrationEventPublished { event_id, occurred_at_unix_ms } => {
                self.remove_pending_integration_event(event_id.as_str());
                let id = owned("durable-state-published-").concat(ln.as_str());
                let e = publication_event(
                    id,
                    occurred_at_unix_ms,
                    SystemEventKind::IntegrationEventPublished,
                    event_id,
                    None,
                    None,
                );
                self.push_system_event(e);
                Ok(())
            },
            DurableEvent::IntegrationEventPublicationFailed {
                event_id,
                occurred_at_unix_ms,
                retryable,
                detail,
            } => {
                let id = owned("durable-state-publish-failed-").concat(ln.as_str());
                let e = publication_event(
                    id,
                    occurred_at_unix_ms,
                    SystemEventKind::IntegrationEventPublicationFailed,
                    event_id,
                    Some(retryable),
                    Some(detail),
                );
                self.push_system_event(e);
                Ok(())
            },
            _ => {
                proof {
                    assert(false);
                }
                Ok(())
            },
        }
    }

    /// Replay one inventory event found at `line` of a history.
    fn apply_inventory_event(&mut self, event: DurableEvent, line: usize) -> (r: Result<(), DurableStateError>)
        requires
            old(self).wf(),
            inventory_event(event),
        ensures
            final(self).wf(),
            event_replayed(*old(self), *final(self), event, line, r),
            r matches Err(e) ==> (e matches DurableStateError::CorruptHistory { line: l, .. } && l
                == line),
    {
        let ln = decimal_text(line as u128);
        match event {
            DurableEvent::ComponentRegistered { registration } => {
                let ghost reg = registration;
                let x = self.ingestion.inventory_mut().register(registration);
                proof {
                    assert(register_outcome(old(self).inventory_view(), reg, self.inventory_view(), x));
                }
                if matches!(x.change, RegisterComponentChange::Rejected) {
                    Err(corrupt(line, "conflicting component registration"))
                } else {
                    Ok(())
                }
            },
            DurableEvent::CollectionRegistered { registration } => {
                let ghost reg = registration;
                let x = self.ingestion.inventory_mut().register_collection(registration);
                proof {
                    assert(collection_outcome(old(self).inventory_view(), reg, self.inventory_view(), x));
                }
                if matches!(x.change, RegisterCollectionChange::Rejected) {
                    Err(corrupt(line, "conflicting collection registration"))
                } else {
                    Ok(())
                }
            },
            DurableEvent::ArtifactBound { component_key, artifact } => {
                let ghost art = artifact;
                let x = self.ingestion.inventory_mut().bind_artifact(component_key.as_str(), artifact);
                proof {
                    assert(bind_outcome(old(self).inventory_view(), component_key@, art, self.inventory_view(), x));
                }
                if matches!(x.change, BindArtifactChange::Rejected) {
                    Err(corrupt(line, "invalid artifact binding"))
                } else {
                    Ok(())
                }
            },
            DurableEvent::ComponentProviderConfigured { component_key, provider_key } => {
                let x = self.ingestion.inventory_mut().configure_provider(
                    component_key.as_str(),
                    provider_key.as_str(),
                );
                proof {
                    assert(provider_outcome(old(self).inventory_view(), component_key@, provider_key@, self.inventory_view(), x));
                }
                if matches!(x.change, ConfigureProviderChange::Rejected) {
                    Err(corrupt(line, "invalid provider configuration"))
                } else {
                    Ok(())
                }
            },
            DurableEvent::CollectionComponentAdded { collection_key, component_key } => {
                let x = self.ingestion.inventory_mut().add_component_to_collection(
                    collection_key.as_str(),
                    component_key.as_str(),
                );
                proof {
                    assert(member_added_outcome(old(self).inventory_view(), collection_key@, component_key@, self.inventory_view(), x));
                }
                if matches!(x.change, AddCollectionComponentChange::Rejected) {
                    Err(corrupt(line, "invalid collection membership add"))
                } else {
                    Ok(())
                }
            },
            DurableEvent::CollectionComponentRemoved { collection_key, component_key } => {
                let x = self.ingestion.inventory_mut().remove_component_from_collection(
                    collection_key.as_str(),
                    component_key.as_str(),
                );
                proof {
                    assert(member_removed_outcome(old(self).inventory_view(), collection_key@, component_key@, self.inventory_view(), x));
                }
                if matches!(x.change, RemoveCollectionComponentChange::Rejected) {
                    Err(corrupt(line, "invalid collection membership removal"))
                } else {
                    Ok(())
                }
            },
            DurableEvent::CollectionScanScheduleConfigured {
                collection_key,
                cadence_minutes,
                freshness,
                next_due_at_unix_ms,
            } => {
                let x = self.ingestion.inventory_mut().configure_collection_scan_schedule(
                    collection_key.as_str(),
                    cadence_minutes,
                    freshness,
                    next_due_at_unix_ms,
                );
                proof {
                    assert(schedule_outcome(old(self).inventory_view(), collection_key@, cadence_minutes, freshness, next_due_at_unix_ms, self.inventory_view(), x));
                }
                if matches!(x.change, ConfigureCollectionScanScheduleChange::Rejected) {
                    Err(corrupt(line, "invalid collection scan schedule"))
                } else {
                    Ok(())
                }
            },
            DurableEvent::CollectionScanScheduleMaterialized {
                collection_key,
                next_due_at_unix_ms,
                materialized_at_unix_ms,
                enqueued_commands,
            } => {
                let x = self.ingestion.inventory_mut().record_collection_scan_materialization(
                    collection_key.as_str(),
                    next_due_at_unix_ms,
                    materialized_at_unix_ms,
                    enqueued_commands,
                );
                proof {
                    assert(materialization_outcome(old(self).inventory_view(), collection_key@, next_due_at_unix_ms, materialized_at_unix_ms, enqueued_commands, self.inventory_view(), x));
                }
                if matches!(x.change, ConfigureCollectionScanScheduleChange::Rejected) {
                    Err(corrupt(line, "invalid collection scan materialization"))
                } else {
                    let id = owned("durable-state-scheduler-").concat(ln.as_str());
                    let e = scheduler_event(
                        id,
                        collection_key.as_str(),
                        next_due_at_unix_ms,
                        materialized_at_unix_ms,
                        enqueued_commands,
                    );
                    self.push_system_event(e);
                    Ok(())
                }
            },
            _ => {
                proof {
                    assert(false);
                }
                Ok(())
            },
        }
    }

    /// Replay one governance event found at `line` of a history.
    fn apply_governance_event(&mut self, event: DurableEvent, line: usize) -> (r: Result<(), DurableStateError>)
        requires
            old(self).wf(),
            governance_change(event),
        ensures
            final(self).wf(),
            event_replayed(*old(self), *final(self), event, line, r),
            r is Ok,
    {
        let ln = decimal_text(line as u128);
        match event {
            DurableEvent::FindingRiskAccepted { finding, acceptance, occurred_at_unix_ms } => {
                let component_key = finding.component_key.clone();
                let reason = acceptance.reason.clone();
                let ghost g0 = self.governance@;
                let ghost f = finding@;
                let ghost d = acceptance_decision(acceptance);
                self.governance.replay_risk_acceptance(finding.clone(), acceptance.clone());
                self.read_model.replay_risk_acceptance(finding, acceptance);
                proof {
                    lemma_decide_one(g0, f, d);
                }
                let id = owned("durable-state-risk-accepted-").concat(ln.as_str());
                let e = governance_event(
                    id,
                    occurred_at_unix_ms,
                    SystemEventKind::FindingRiskAccepted,
                    None,
                    Some(component_key),
                    Some(1u32),
                    Some(reason),
                );
                self.push_system_event(e);
                Ok(())
            },
            DurableEvent::FindingsRiskAccepted { collection_key, findings, acceptance, occurred_at_unix_ms } => {
                let reason = acceptance.reason.clone();
                let next = FindingDecision::RiskAccepted(acceptance);
                self.decide_each(&findings, &next);
                let count = if findings.len() <= u32::MAX as usize {
                    Some(findings.len() as u32)
                } else {
                    None
                };
                let id = owned("durable-state-risk-accepted-many-").concat(ln.as_str());
                let e = governance_event(
                    id,
                    occurred_at_unix_ms,
                    SystemEventKind::FindingsRiskAccepted,
                    Some(collection_key),
                    None,
                    count,
                    Some(reason),
                );
                self.push_system_event(e);
                Ok(())
            },
            DurableEvent::FindingSuppressed { finding, suppression, occurred_at_unix_ms } => {
                let component_key = finding.component_key.clone();
                let reason = suppression.reason.clone();
                let ghost g0 = self.governance@;
                let ghost f = finding@;
                let ghost d = suppression_decision(suppression);
                self.governance.replay_suppression(finding.clone(), suppression.clone());
                self.read_model.replay_suppression(finding, suppression);
                proof {
                    lemma_decide_one(g0, f, d);
                }
                let id = owned("durable-state-suppressed-").concat(ln.as_str());
                let e = governance_event(
                    id,
                    occurred_at_unix_ms,
                    SystemEventKind::FindingSuppressed,
                    None,
                    Some(component_key),
                    Some(1u32),
                    Some(reason),
                );
                self.push_system_event(e);
                Ok(())
            },
            DurableEvent::FindingsSuppressed { collection_key, findings, suppression, occurred_at_unix_ms } => {
                let reason = suppression.reason.clone();
                let next = FindingDecision::Suppressed(suppression);
                self.decide_each(&findings, &next);
                let count = if findings.len() <= u32::MAX as usize {
                    Some(findings.len() as u32)
                } else {
                    None
                };
                let id = owned("durable-state-suppressed-many-").concat(ln.as_str());
                let e = governance_event(
                    id,
                    occurred_at_unix_ms,
                    SystemEventKind::FindingsSuppressed,
                    Some(collection_key),
                    None,
                    count,
                    Some(reason),
                );
                self.push_system_event(e);
                Ok(())
            },
            DurableEvent::FindingReopened { finding, occurred_at_unix_ms } => {
                let component_key = finding.component_key.clone();
                let ghost g0 = self.governance@;
                let ghost f = finding@;
                self.governance.replay_reopen(&finding);
                self.read_model.replay_reopen(&finding);
                proof {
                    lemma_reopen_one(g0, f);
                }
                let id = owned("durable-state-reopened-").concat(ln.as_str());
                let e = governance_event(
                    id,
                    occurred_at_unix_ms,
                    SystemEventKind::FindingReopened,
                    None,
                    Some(component_key),
                    Some(1u32),
                    None,
                );
                self.push_system_event(e);
                Ok(())
            },
            DurableEvent::FindingsReopened { collection_key, findings, occurred_at_unix_ms } => {
                self.reopen_each(&findings);
                let count = if findings.len() <= u32::MAX as usize {
                    Some(findings.len() as u32)
                } else {
                    None
                };
                let id = owned("durable-state-reopened-many-").concat(ln.as_str());
                let e = governance_event(
                    id,
                    occurred_at_unix_ms,
                    SystemEventKind::FindingsReopened,
                    Some(collection_key),
                    None,
                    count,
                    None,
                );
                self.push_system_event(e);
                Ok(())
            },
            _ => {
                proof {
                    assert(false);
                }
                Ok(())
            },
        }
    }

    /// Rebuild a state from a durable history whose events stand on lines
    /// 1, 2, ... in order. The first event the state refuses makes the
    /// history corrupt at its line.
    pub fn replay(history: Vec<DurableEvent>) -> (r: Result<DurableState, DurableStateError>)
        ensures
            r matches Ok(s) ==> s.wf() && s.unsaved().len() == 0 && rebuilds(history@, s) && exists|
                states: Seq<DurableState>,
            | replay_trace(history@, states) && #[trigger] states.last() == s,
            r matches Err(e) ==> (e matches DurableStateError::CorruptHistory { line, .. } && 1
                <= line <= history@.len() && replay_refused(history@, line as int, e)),
    {
        let ghost h = history@;
        let n = history.len();
        let mut events = history;
        let mut stack: Vec<DurableEvent> = Vec::new();
        while events.len() > 0
            invariant
                n == h.len(),
                events@ == h.take(events@.len() as int),
                events@.len() + stack@.len() == n,
                forall|j: int| 0 <= j < stack@.len() ==> #[trigger] stack@[j] == h[n - 1 - j],
            decreases events.len(),
        {
            let ghost before = events@;
            match events.pop() {
                Some(e) => {
                    assert(e == h[events@.len() as int]);
                    stack.push(e);
                },
                None => {},
            }
            assert(events@ =~= h.take(events@.len() as int));
        }
        let mut state = DurableState::new();
        let ghost mut states: Seq<DurableState> = seq![state];
        let mut line: usize = 0;
        while stack.len() > 0
            invariant
                state.wf(),
                state.unsaved().len() == 0,
                n == h.len(),
                h == history@,
                line + stack@.len() == n,
                forall|j: int| 0 <= j < stack@.len() ==> #[trigger] stack@[j] == h[n - 1 - j],
                replay_trace(h.take(line as int), states),
                states.last() == state,
            decreases stack.len(),
        {
            match stack.pop() {
                Some(e) => {
                    let ghost before = state;
                    assert(e == h[line as int]);
                    line = line + 1;
                    match state.apply_event(e, line) {
                        Ok(()) => {
                            proof {
                                states = states.push(state);
                                let t = h.take(line as int);
                                assert forall|i: int| 0 <= i < t.len() implies event_replayed(
                                    states[i],
                                    states[i + 1],
                                    #[trigger] t[i],
                                    (i + 1) as usize,
                                    Ok(()),
                                ) by {
                                    if i < t.len() - 1 {
                                        assert(t[i] == h.take(line - 1)[i]);
                                    }
                                }
                            }
                        },
                        Err(err) => {
                            proof {
                                assert(h.take(line - 1) =~= h.take(line as int - 1));
                                assert(event_replayed(states.last(), state, h[line - 1], line, Err(err)));
                                assert(replay_refused(h, line as int, err));
                            }
                            return Err(err);
                        },
                    }
                },
                None => {},
            }
        }
        proof {
            assert(h.take(line as int) =~= h);
            lemma_replay_rebuilds(h, states);
        }
        Ok(state)
    }
}

/// One system event of a publication outcome.
fn publication_event(
    id: String,
    t: u64,
    kind: SystemEventKind,
    event_id: String,
    retryable: Option<bool>,
    detail: Option<String>,
) -> (r: SystemEvent)
    ensures
        is_publication_event(r, id@, t, kind, event_id@, retryable, opt_text(detail)),
{
    SystemEvent {
        event_id: id,
        occurred_at_unix_ms: t,
        kind,
        collection_key: None,
        component_key: None,
        command_id: None,
        integration_event_id: Some(event_id),
        finding_count: None,
        retryable,
        detail,
    }
}

/// Removing the first pending event with an identity is removing it at the
/// first index that carries it.
pub proof fn lemma_without_event(s: Seq<PendingIntegrationEvent>, id: Seq<char>, i: int)
    requires
        0 <= i <= s.len(),
        forall|j: int| 0 <= j < i ==> (#[trigger] s[j]).event_id@ != id,
        i < s.len() ==> s[i].event_id@ == id,
    ensures
        without_event(s, id) == if i < s.len() {
            s.remove(i)
        } else {
            s
        },
    decreases i,
{
    if s.len() == 0 {
    } else if i == 0 {
        assert(s.remove(0) =~= s.drop_first());
    } else {
        let t = s.drop_first();
        assert forall|j: int| 0 <= j < i - 1 implies (#[trigger] t[j]).event_id@ != id by {
            assert(t[j] == s[j + 1]);
        }
        lemma_without_event(t, id, i - 1);
        assert(s[0].event_id@ != id);
        if i < s.len() {
            assert(seq![s[0]] + t.remove(i - 1) =~= s.remove(i));
        } else {
            assert(seq![s[0]] + t =~= s);
        }
    }
}

/// A copy of a list of finding identities.
fn copy_refs(v: &Vec<FindingRef>) -> (r: Vec<FindingRef>)
    ensures
        r@ == v@,
{
    let mut out: Vec<FindingRef> = Vec::new();
    let mut i: usize = 0;
    while i < v.len()
        invariant
            i <= v@.len(),
            out@ == v@.take(i as int),
        decreases v.len() - i,
    {
        out.push(v[i].clone());
        assert(out@ =~= v@.take(i + 1));
        i = i + 1;
    }
    assert(v@.take(v@.len() as int) =~= v@);
    out
}

/// The undecided findings are never more than the findings.
pub proof fn lemma_undecided_len(
    g: Map<FindingRefView, DecisionView>,
    fs: Seq<FindingRefView>,
    d: DecisionView,
)
    ensures
        undecided(g, fs, d).len() <= fs.len(),
    decreases fs.len(),
{
    if fs.len() > 0 {
        lemma_undecided_len(g, fs.drop_last(), d);
    }

}

/// The error of a history refused at one line.
fn corrupt(line: usize, reason: &str) -> (r: DurableStateError)
    ensures
        r matches DurableStateError::CorruptHistory { line: l, reason: m } && l == line && m@
            == reason@,
{
    DurableStateError::CorruptHistory { line, reason: owned(reason) }
}

/// Deciding one finding is inserting its decision.
pub proof fn lemma_decide_one(g: Map<FindingRefView, DecisionView>, f: FindingRefView, d: DecisionView)
    ensures
        decide_seq(g, seq![f], d) == g.insert(f, d),
{
    let fs = seq![f];
    assert(fs.drop_last() =~= Seq::<FindingRefView>::empty());
    assert(decide_seq(g, fs.drop_last(), d) == g);
    assert(fs.last() == f);
}

/// The read side always reflects exactly the governance decisions.
pub proof fn lemma_read_side_reflects_governance(s: DurableState)
    requires
        s.wf(),
    ensures
        s.read_view().decisions == s.governance_view(),
{
}

/// Once a scan command's report is recorded, the command is remembered with
/// its change set, so recording it again hands that change set back and
/// changes nothing.
pub proof fn lemma_recorded_command_is_remembered(
    a: DurableState,
    b: DurableState,
    command_id: Seq<char>,
    report: ProviderScanReport,
    cs: FindingChangeSet,
)
    requires
        scan_recorded(a, b, Some(command_id), report, cs),
    ensures
        b.applied().contains_key(command_id),
        b.applied()[command_id] == cs,
{
}

/// Every finding given a decision carries it afterwards.
pub proof fn lemma_decide_seq_decides(
    g: Map<FindingRefView, DecisionView>,
    fs: Seq<FindingRefView>,
    d: DecisionView,
)
    ensures
        forall|i: int| 0 <= i < fs.len() ==> already_decided(decide_seq(g, fs, d), #[trigger] fs[i], d),
        forall|f: FindingRefView| !fs.contains(f) ==> decide_seq(g, fs, d).contains_key(f)
            == g.contains_key(f) && (g.contains_key(f) ==> decide_seq(g, fs, d)[f] == g[f]),
    decreases fs.len(),
{
    if fs.len() > 0 {
        let init = fs.drop_last();
        lemma_decide_seq_decides(g, init, d);
        assert forall|i: int| 0 <= i < fs.len() implies already_decided(
            decide_seq(g, fs, d),
            #[trigger] fs[i],
            d,
        ) by {
            if i < fs.len() - 1 {
                assert(init[i] == fs[i]);
            }
        }
        assert forall|f: FindingRefView| !fs.contains(f) implies decide_seq(g, fs, d).contains_key(f)
            == g.contains_key(f) && (g.contains_key(f) ==> decide_seq(g, fs, d)[f] == g[f]) by {
            assert(fs.last() != f) by {
                assert(fs[fs.len() - 1] == fs.last());
            }
            assert(!init.contains(f)) by {
                if init.contains(f) {
                    let j = choose|j: int| 0 <= j < init.len() && init[j] == f;
                    assert(fs[j] == f);
                }
            }
        }
    }
}

/// After a cohort of findings is given a decision, none of them is left
/// without it: deciding the same cohort again changes nothing.
pub proof fn lemma_decided_cohort_is_settled(
    g: Map<FindingRefView, DecisionView>,
    fs: Seq<FindingRefView>,
    d: DecisionView,
)
    ensures
        undecided(decide_seq(g, fs, d), fs, d).len() == 0,
{
    lemma_decide_seq_decides(g, fs, d);
    lemma_settled(decide_seq(g, fs, d), fs, d);
}

proof fn lemma_settled(g: Map<FindingRefView, DecisionView>, fs: Seq<FindingRefView>, d: DecisionView)
    requires
        forall|i: int| 0 <= i < fs.len() ==> already_decided(g, #[trigger] fs[i], d),
    ensures
        undecided(g, fs, d).len() == 0,
    decreases fs.len(),
{
    if fs.len() > 0 {
        let init = fs.drop_last();
        assert forall|i: int| 0 <= i < init.len() implies already_decided(g, #[trigger] init[i], d) by {
            assert(init[i] == fs[i]);
        }
        lemma_settled(g, init, d);
        assert(already_decided(g, fs[fs.len() - 1], d));
    }
}

/// Reopening undoes a decision: when a finding had no decision, giving it
/// one and then reopening it leaves the domain as it was before, and the
/// finding is left without a decision, so reopening it again answers
/// `Unchanged` and changes nothing.
pub proof fn lemma_reopening_undoes_decision(
    a: DurableState,
    b: DurableState,
    c: DurableState,
    f: FindingRefView,
    d: DecisionView,
)
    requires
        a.wf(),
        !a.governance_view().contains_key(f),
        decided(a, b, seq![f], d),
        reopened(b, c, seq![f]),
    ensures
        same_domain(a, c),
        !c.governance_view().contains_key(f),
{
    lemma_decide_one(a.governance_view(), f, d);
    lemma_reopen_one(b.governance_view(), f);
    assert(a.governance_view().insert(f, d).remove(f) =~= a.governance_view());
    assert(c.read_view().decisions == a.read_view().decisions);
    assert(c.read_view().active == a.read_view().active);
}

/// A whole session of live work keeps the durable history faithful: when
/// the saved history followed by the unsaved events of the first state
/// rebuilds it, then after any sequence of live steps the saved history
/// followed by the unsaved events of the last state rebuilds the last state.
pub proof fn lemma_session_is_rebuilt(history: Seq<DurableEvent>, states: Seq<DurableState>)
    requires
        states.len() >= 1,
        forall|i: int| 0 <= i < states.len() ==> (#[trigger] states[i]).wf(),
        rebuilds(history + states[0].unsaved(), states[0]),
        forall|i: int| 0 <= i < states.len() - 1 ==> live_step(#[trigger] states[i], states[i + 1]),
    ensures
        rebuilds(history + states.last().unsaved(), states.last()),
    decreases states.len(),
{
    if states.len() > 1 {
        let init = states.drop_last();
        assert forall|i: int| 0 <= i < init.len() implies (#[trigger] init[i]).wf() by {
            assert(states[i].wf());
        }
        assert forall|i: int| 0 <= i < init.len() - 1 implies live_step(
            #[trigger] init[i],
            init[i + 1],
        ) by {
            assert(live_step(states[i], states[i + 1]));
        }
        lemma_session_is_rebuilt(history, init);
        let n = states.len() - 1;
        assert(live_step(states[n - 1], states[n]));
        assert(states[n - 1].wf() && states[n].wf());
        lemma_live_step_is_rebuilt(history, states[n - 1], states[n]);
    }
}

/// Saving keeps the durable history faithful: once the unsaved events of
/// `a` are appended to the saved history, that history rebuilds the state
/// `b` left with nothing unsaved.
pub proof fn lemma_saving_is_rebuilt(history: Seq<DurableEvent>, a: DurableState, b: DurableState)
    requires
        rebuilds(history + a.unsaved(), a),
        same_domain(a, b),
        b.unsaved().len() == 0,
    ensures
        rebuilds((history + a.unsaved()) + b.unsaved(), b),
{
    let h = history + a.unsaved();
    assert(h + b.unsaved() =~= h);
}

/// Replay is deterministic: the same event, replayed on two well-formed
/// states with the same domain, is accepted on both or refused on both, and
/// leaves the same domain.
pub proof fn lemma_replay_is_deterministic(
    a1: DurableState,
    a2: DurableState,
    c1: DurableState,
    c2: DurableState,
    e: DurableEvent,
    line1: usize,
    line2: usize,
    r1: Result<(), DurableStateError>,
    r2: Result<(), DurableStateError>,
)
    requires
        a1.wf(),
        a2.wf(),
        c1.wf(),
        c2.wf(),
        same_domain(a1, a2),
        event_replayed(a1, c1, e, line1, r1),
        event_replayed(a2, c2, e, line2, r2),
    ensures
        r1 is Ok <==> r2 is Ok,
        same_domain(c1, c2),
{
    lemma_inventory_sorted(c1);
    lemma_inventory_sorted(c2);
    let av = a1.inventory_view();
    let v1 = c1.inventory_view();
    let v2 = c2.inventory_view();
    match e {
        DurableEvent::ComponentRegistered { registration } => {
            let x = choose|x: RegisterComponentResult|
                register_outcome(av, registration, v1, x) && inventory_replayed(
                    a1,
                    c1,
                    x.change == RegisterComponentChange::Rejected,
                    r1,
                    line1,
                    "conflicting component registration"@,
                );
            let y = choose|y: RegisterComponentResult|
                register_outcome(av, registration, v2, y) && inventory_replayed(
                    a2,
                    c2,
                    y.change == RegisterComponentChange::Rejected,
                    r2,
                    line2,
                    "conflicting component registration"@,
                );
            assert(v1 == v2);
        },
        DurableEvent::CollectionRegistered { registration } => {
            let x = choose|x: RegisterCollectionResult|
                collection_outcome(av, registration, v1, x) && inventory_replayed(
                    a1,
                    c1,
                    x.change == RegisterCollectionChange::Rejected,
                    r1,
                    line1,
                    "conflicting collection registration"@,
                );
            let y = choose|y: RegisterCollectionResult|
                collection_outcome(av, registration, v2, y) && inventory_replayed(
                    a2,
                    c2,
                    y.change == RegisterCollectionChange::Rejected,
                    r2,
                    line2,
                    "conflicting collection registration"@,
                );
            assert(v1 == v2);
        },
        DurableEvent::ArtifactBound { component_key, artifact } => {
            let x = choose|x: BindArtifactResult|
                bind_outcome(av, component_key@, artifact, v1, x) && inventory_replayed(
                    a1,
                    c1,
                    x.change == BindArtifactChange::Rejected,
                    r1,
                    line1,
                    "invalid artifact binding"@,
                );
            let y = choose|y: BindArtifactResult|
                bind_outcome(av, component_key@, artifact, v2, y) && inventory_replayed(
                    a2,
                    c2,
                    y.change == BindArtifactChange::Rejected,
                    r2,
                    line2,
                    "invalid artifact binding"@,
                );
            lemma_bind_determined(av, component_key@, artifact, v1, x, v2, y);
        },
        DurableEvent::ComponentProviderConfigured { component_key, provider_key } => {
            let x = choose|x: ConfigureProviderResult|
                provider_outcome(av, component_key@, provider_key@, v1, x) && inventory_replayed(
                    a1,
                    c1,
                    x.change == ConfigureProviderChange::Rejected,
                    r1,
                    line1,
                    "invalid provider configuration"@,
                );
            let y = choose|y: ConfigureProviderResult|
                provider_outcome(av, component_key@, provider_key@, v2, y) && inventory_replayed(
                    a2,
                    c2,
                    y.change == ConfigureProviderChange::Rejected,
                    r2,
                    line2,
                    "invalid provider configuration"@,
                );
            assert(v1 == v2);
        },
        DurableEvent::CollectionComponentAdded { collection_key, component_key } => {
            let x = choose|x: AddCollectionComponentResult|
                member_added_outcome(av, collection_key@, component_key@, v1, x)
                    && inventory_replayed(
                    a1,
                    c1,
                    x.change == AddCollectionComponentChange::Rejected,
                    r1,
                    line1,
                    "invalid collection membership add"@,
                );
            let y = choose|y: AddCollectionComponentResult|
                member_added_outcome(av, collection_key@, component_key@, v2, y)
                    && inventory_replayed(
                    a2,
                    c2,
                    y.change == AddCollectionComponentChange::Rejected,
                    r2,
                    line2,
                    "invalid collection membership add"@,
                );
            lemma_member_added_determined(av, collection_key@, component_key@, v1, x, v2, y);
        },
        DurableEvent::CollectionComponentRemoved { collection_key, component_key } => {
            let x = choose|x: RemoveCollectionComponentResult|
                member_removed_outcome(av, collection_key@, component_key@, v1, x)
                    && inventory_replayed(
                    a1,
                    c1,
                    x.change == RemoveCollectionComponentChange::Rejected,
                    r1,
                    line1,
                    "invalid collection membership removal"@,
                );
            let y = choose|y: RemoveCollectionComponentResult|
                member_removed_outcome(av, collection_key@, component_key@, v2, y)
                    && inventory_replayed(
                    a2,
                    c2,
                    y.change == RemoveCollectionComponentChange::Rejected,
                    r2,
                    line2,
                    "invalid collection membership removal"@,
                );
            lemma_member_removed_determined(av, collection_key@, component_key@, v1, x, v2, y);
        },
        DurableEvent::CollectionScanScheduleConfigured {
            collection_key,
            cadence_minutes,
            freshness,
            next_due_at_unix_ms,
        } => {
            let x = choose|x: ConfigureCollectionScanScheduleResult|
                schedule_outcome(
                    av,
                    collection_key@,
                    cadence_minutes,
                    freshness,
                    next_due_at_unix_ms,
                    v1,
                    x,
                ) && inventory_replayed(
                    a1,
                    c1,
                    x.change == ConfigureCollectionScanScheduleChange::Rejected,
                    r1,
                    line1,
                    "invalid collection scan schedule"@,
                );
            let y = choose|y: ConfigureCollectionScanScheduleResult|
                schedule_outcome(
                    av,
                    collection_key@,
                    cadence_minutes,
                    freshness,
                    next_due_at_unix_ms,
                    v2,
                    y,
                ) && inventory_replayed(
                    a2,
                    c2,
                    y.change == ConfigureCollectionScanScheduleChange::Rejected,
                    r2,
                    line2,
                    "invalid collection scan schedule"@,
                );
            assert(v1 == v2);
        },
        DurableEvent::CollectionScanScheduleMaterialized {
            collection_key,
            next_due_at_unix_ms,
            materialized_at_unix_ms,
            enqueued_commands,
        } => {
            let x = choose|x: ConfigureCollectionScanScheduleResult|
                materialization_outcome(
                    av,
                    collection_key@,
                    next_due_at_unix_ms,
                    materialized_at_unix_ms,
                    enqueued_commands,
                    v1,
                    x,
                ) && (x.change == ConfigureCollectionScanScheduleChange::Rejected ==> corrupt_at(
                    r1,
                    line1,
                    "invalid collection scan materialization"@,
                )) && (x.change != ConfigureCollectionScanScheduleChange::Rejected ==> r1 is Ok);
            let y = choose|y: ConfigureCollectionScanScheduleResult|
                materialization_outcome(
                    av,
                    collection_key@,
                    next_due_at_unix_ms,
                    materialized_at_unix_ms,
                    enqueued_commands,
                    v2,
                    y,
                ) && (y.change == ConfigureCollectionScanScheduleChange::Rejected ==> corrupt_at(
                    r2,
                    line2,
                    "invalid collection scan materialization"@,
                )) && (y.change != ConfigureCollectionScanScheduleChange::Rejected ==> r2 is Ok);
            assert(v1 == v2);
        },
        DurableEvent::ProviderScanRecorded { .. } => {
            assert(c1.read_view().active == c2.read_view().active);
            assert(c1.read_view().decisions == c2.read_view().decisions);
        },
        DurableEvent::FindingRiskAccepted { .. } | DurableEvent::FindingsRiskAccepted { .. }
        | DurableEvent::FindingSuppressed { .. } | DurableEvent::FindingsSuppressed { .. }
        | DurableEvent::FindingReopened { .. } | DurableEvent::FindingsReopened { .. } => {
            assert(c1.read_view().active == c2.read_view().active);
            assert(c1.read_view().decisions == c2.read_view().decisions);
        },
        _ => {},
    }
}

/// Two well-formed fresh states hold the same domain.
proof fn lemma_fresh_states_agree(s: DurableState, t: DurableState)
    requires
        s.wf(),
        t.wf(),
        fresh(s),
        fresh(t),
    ensures
        same_domain(s, t),
{
    assert(t.inventory_view().components =~= s.inventory_view().components);
    assert(t.inventory_view().collections =~= s.inventory_view().collections);
    assert(t.tracker_view() =~= s.tracker_view());
    assert(t.governance_view() =~= s.governance_view());
    assert(t.read_view().active =~= s.read_view().active);
    assert(t.read_view().decisions =~= s.read_view().decisions);
    assert(t.applied() =~= s.applied());
    assert(t.pending_events() =~= s.pending_events());
}

/// The replay of a history without its last event passes through the
/// states of the full replay but the last.
proof fn lemma_trace_prefix(h: Seq<DurableEvent>, states: Seq<DurableState>)
    requires
        h.len() > 0,
        replay_trace(h, states),
    ensures
        replay_trace(h.drop_last(), states.drop_last()),
        event_replayed(
            states[h.len() - 1],
            states[h.len() as int],
            h.last(),
            h.len() as usize,
            Ok(()),
        ),
{
    let p = h.drop_last();
    let q = states.drop_last();
    assert forall|i: int| 0 <= i < p.len() implies event_replayed(
        q[i],
        q[i + 1],
        #[trigger] p[i],
        (i + 1) as usize,
        Ok(()),
    ) by {
        assert(h[i] == p[i]);
    }
    assert forall|i: int| 0 <= i < q.len() implies (#[trigger] q[i]).wf() by {
        assert(states[i].wf());
    }
    assert(h[h.len() - 1] == h.last());
}

/// Any two replays of one history end with the same domain.
pub proof fn lemma_replays_agree(h: Seq<DurableEvent>, s: Seq<DurableState>, t: Seq<DurableState>)
    requires
        replay_trace(h, s),
        replay_trace(h, t),
    ensures
        same_domain(s.last(), t.last()),
    decreases h.len(),
{
    if h.len() == 0 {
        lemma_fresh_states_agree(s[0], t[0]);
    } else {
        let n = h.len() as int;
        lemma_trace_prefix(h, s);
        lemma_trace_prefix(h, t);
        lemma_replays_agree(h.drop_last(), s.drop_last(), t.drop_last());
        assert(s[n - 1].wf() && t[n - 1].wf() && s[n].wf() && t[n].wf());
        lemma_replay_is_deterministic(
            s[n - 1],
            t[n - 1],
            s[n],
            t[n],
            h.last(),
            n as usize,
            n as usize,
            Ok(()),
            Ok(()),
        );
    }
}

/// A history that replays without refusal rebuilds the state its replay
/// ends with.
pub proof fn lemma_replay_rebuilds(h: Seq<DurableEvent>, states: Seq<DurableState>)
    requires
        replay_trace(h, states),
    ensures
        rebuilds(h, states.last()),
{
    assert forall|other: Seq<DurableState>| #[trigger] replay_trace(h, other) implies same_domain(
        states.last(),
        other.last(),
    ) by {
        lemma_replays_agree(h, states, other);
    }
    assert forall|line: int, err: DurableStateError|
        1 <= line <= h.len() implies !#[trigger] replay_refused(h, line, err) by {
        if replay_refused(h, line, err) {
            let (st, c) = choose|st: Seq<DurableState>, c: DurableState|
                replay_trace(h.take(line - 1), st) && c.wf() && #[trigger] event_replayed(
                    st.last(),
                    c,
                    h[line - 1],
                    line as usize,
                    Err(err),
                );
            let p = h.take(line - 1);
            let q = states.take(line);
            assert forall|i: int| 0 <= i < p.len() implies event_replayed(
                q[i],
                q[i + 1],
                #[trigger] p[i],
                (i + 1) as usize,
                Ok(()),
            ) by {
                assert(h[i] == p[i]);
            }
            assert forall|i: int| 0 <= i < q.len() implies (#[trigger] q[i]).wf() by {
                assert(states[i].wf());
            }
            assert(replay_trace(p, q));
            lemma_replays_agree(p, q, st);
            assert(states[line - 1].wf() && states[line as int].wf());
            assert(event_replayed(states[line - 1], states[line as int], h[line - 1], line as usize, Ok(())));
            lemma_replay_is_deterministic(
                states[line - 1],
                st.last(),
                states[line as int],
                c,
                h[line - 1],
                line as usize,
                line as usize,
                Ok(()),
                Err(err),
            );
        }
    }
}

/// The empty history rebuilds a fresh state.
pub proof fn lemma_fresh_is_rebuilt(s: DurableState)
    requires
        s.wf(),
        fresh(s),
    ensures
        rebuilds(Seq::<DurableEvent>::empty(), s),
{
    assert forall|states: Seq<DurableState>|
        #[trigger] replay_trace(Seq::<DurableEvent>::empty(), states) implies same_domain(
        s,
        states.last(),
    ) by {
        assert(states[0].wf());
        lemma_fresh_states_agree(s, states.last());
    }
}

/// Live work keeps the durable history faithful: when a history followed by
/// the events `a` has not yet saved rebuilds `a`, then after one step of
/// live work the same history followed by the events `b` has not yet saved
/// rebuilds `b`. Replaying it is never refused.
pub proof fn lemma_live_step_is_rebuilt(history: Seq<DurableEvent>, a: DurableState, b: DurableState)
    requires
        a.wf(),
        b.wf(),
        rebuilds(history + a.unsaved(), a),
        live_step(a, b),
    ensures
        rebuilds(history + b.unsaved(), b),
{
    let h = history + a.unsaved();
    if b.unsaved() == a.unsaved() && same_domain(a, b) {
        assert forall|states: Seq<DurableState>|
            #[trigger] replay_trace(history + b.unsaved(), states) implies same_domain(
            b,
            states.last(),
        ) by {
            assert(replay_trace(h, states));
        }
        assert forall|line: int, e: DurableStateError|
            1 <= line <= (history + b.unsaved()).len() implies !#[trigger] replay_refused(
            history + b.unsaved(),
            line,
            e,
        ) by {
            assert(!replay_refused(h, line, e));
        }
    } else {
        let e = b.unsaved().last();
        let n: int = h.len() as int;
        let h2 = history + b.unsaved();
        assert(b.unsaved() =~= a.unsaved().push(e)) by {
            assert(b.unsaved() =~= b.unsaved().drop_last().push(e));
        }
        assert(h2 =~= h.push(e));
        assert(h2.take(n) =~= h);
        assert forall|states: Seq<DurableState>|
            #[trigger] replay_trace(h2, states) implies same_domain(b, states.last()) by {
            let prefix = states.drop_last();
            assert forall|i: int| 0 <= i < h.len() implies event_replayed(
                prefix[i],
                prefix[i + 1],
                #[trigger] h[i],
                (i + 1) as usize,
                Ok(()),
            ) by {
                assert(h2[i] == h[i]);
            }
            assert forall|i: int| 0 <= i < prefix.len() implies (#[trigger] prefix[i]).wf() by {
                assert(states[i].wf());
            }
            assert(replay_trace(h, prefix));
            assert(same_domain(a, prefix.last()));
            assert(h2[n] == e);
            assert(event_replayed(states[n], states[n + 1], e, (n + 1) as usize, Ok(())));
            assert(states[n].wf() && states[n + 1].wf());
        }
        assert forall|line: int, err: DurableStateError|
            1 <= line <= h2.len() implies !#[trigger] replay_refused(h2, line, err) by {
            if replay_refused(h2, line, err) {
                let (st, c) = choose|st: Seq<DurableState>, c: DurableState|
                    replay_trace(h2.take(line - 1), st) && c.wf() && #[trigger] event_replayed(
                        st.last(),
                        c,
                        h2[line - 1],
                        line as usize,
                        Err(err),
                    );
                if line <= n {
                    assert(h2.take(line - 1) =~= h.take(line - 1));
                    assert(h2[line - 1] == h[line - 1]);
                    assert(replay_refused(h, line, err));
                } else {
                    assert(h2.take(line - 1) =~= h);
                    assert(same_domain(a, st.last()));
                    assert(st[st.len() - 1].wf());
                    assert(h2[line - 1] == e);
                }
            }
        }
    }
}

/// Whether replaying `e` gives each finding of `fs` decision `d`.
pub open spec fn decision_event(e: DurableEvent, fs: Seq<FindingRefView>, d: DecisionView) -> bool {
    match e {
        DurableEvent::FindingRiskAccepted { finding, acceptance, .. } => fs == seq![finding@] && d
            == acceptance_decision(acceptance),
        DurableEvent::FindingsRiskAccepted { findings, acceptance, .. } => fs == views_of(findings@)
            && d == acceptance_decision(acceptance),
        DurableEvent::FindingSuppressed { finding, suppression, .. } => fs == seq![finding@] && d
            == suppression_decision(suppression),
        DurableEvent::FindingsSuppressed { findings, suppression, .. } => fs == views_of(findings@)
            && d == suppression_decision(suppression),
        _ => false,
    }
}

/// Replaying the event that a governance change recorded, on any state with
/// the domain the change started from, is accepted and gives the same
/// decisions, on both sides, as the change itself did.
pub proof fn lemma_replayed_decision_matches(
    a: DurableState,
    b: DurableState,
    e: DurableEvent,
    fs: Seq<FindingRefView>,
    d: DecisionView,
)
    requires
        decided(a, b, fs, d),
        decision_event(e, fs, d),
    ensures
        replays_to(a, e, b),
{
    assert forall|a2: DurableState, c: DurableState, line: usize, r: Result<(), DurableStateError>|
        same_domain(a, a2) && a2.wf() && c.wf() && #[trigger] event_replayed(a2, c, e, line, r)
            implies r is Ok && same_domain(b, c) by {
        assert(c.read_view().active == b.read_view().active);
        assert(c.read_view().decisions == b.read_view().decisions);
    }
}

/// Replaying the event that recording a provider snapshot wrote, on any
/// state with the domain the recording started from, is accepted and gives
/// the same findings, commands and pending events as the recording itself
/// did.
pub proof fn lemma_replayed_scan_matches(
    a: DurableState,
    b: DurableState,
    command_id: Option<Seq<char>>,
    report: ProviderScanReport,
    cs: FindingChangeSet,
)
    requires
        ingestion_error(a.inventory_view(), report) is None,
        scan_recorded_as(a, b, command_id, report, cs, b.pending_events().last().event_id@),
    ensures
        replays_to(a, b.unsaved().last(), b),
{
    let e = b.unsaved().last();
    assert forall|a2: DurableState, c: DurableState, line: usize, r: Result<(), DurableStateError>|
        same_domain(a, a2) && a2.wf() && c.wf() && #[trigger] event_replayed(a2, c, e, line, r)
            implies r is Ok && same_domain(b, c) by {
        if let DurableEvent::ProviderScanRecorded {
            command_id: cid,
            report: rep,
            change_set,
            pending_integration_event,
        } = e {
            assert(finding_views(rep.findings@) == finding_views(report.findings@));
            assert(ingestion_error(a2.inventory_view(), rep) == ingestion_error(
                a.inventory_view(),
                report,
            ));
            assert(snapshot_identities(rep) == snapshot_identities(report));
            assert(c.read_view().active == b.read_view().active);
            assert(c.read_view().decisions == b.read_view().decisions);
            assert(c.pending_events() =~= b.pending_events());
        }
    }
}

/// Replaying the event that configuring the integration runtime recorded,
/// on any state with the domain the configuration started from, configures
/// it the same way and changes nothing else of the domain.
pub proof fn lemma_replayed_config_matches(
    a: DurableState,
    b: DurableState,
    config: IntegrationRuntimeConfig,
)
    requires
        b.config() == Some(config),
        b.inventory_view() == a.inventory_view(),
        b.tracker_view() == a.tracker_view(),
        b.read_view() == a.read_view(),
        b.governance_view() == a.governance_view(),
        b.applied() == a.applied(),
        b.pending_events() == a.pending_events(),
    ensures
        replays_to(a, DurableEvent::IntegrationRuntimeConfigured { config }, b),
{
    let e = DurableEvent::IntegrationRuntimeConfigured { config };
    assert forall|a2: DurableState, c: DurableState, line: usize, r: Result<(), DurableStateError>|
        same_domain(a, a2) && a2.wf() && c.wf() && #[trigger] event_replayed(a2, c, e, line, r)
            implies r is Ok && same_domain(b, c) by {
    }
}

/// A state keeps its inventory's artifacts and members in order.
pub proof fn lemma_inventory_sorted(s: DurableState)
    requires
        s.wf(),
    ensures
        inventory_sorted(s.inventory_view()),
{
    s.ingestion.lemma_inventory_sorted();
}

/// Replaying an inventory event on a state with the inventory it was
/// recorded on rebuilds the inventory it was recorded with.
proof fn lemma_inventory_replay_step(
    a: DurableState,
    a2: DurableState,
    b: DurableState,
    c: DurableState,
    e: DurableEvent,
    line: usize,
    r: Result<(), DurableStateError>,
)
    requires
        b.wf(),
        c.wf(),
        inventory_recorded(a, b, e),
        a2.inventory_view() == a.inventory_view(),
        event_replayed(a2, c, e, line, r),
    ensures
        r is Ok,
        c.inventory_view() == b.inventory_view(),
{
    lemma_inventory_sorted(b);
    lemma_inventory_sorted(c);
    let av = a.inventory_view();
    let bv = b.inventory_view();
    let cv = c.inventory_view();
    match e {
        DurableEvent::ComponentRegistered { registration } => {
            let x = choose|x: RegisterComponentResult|
                register_outcome(av, registration, bv, x) && x.change
                    == RegisterComponentChange::Registered;
            let y = choose|y: RegisterComponentResult|
                register_outcome(av, registration, cv, y) && inventory_replayed(
                    a2,
                    c,
                    y.change == RegisterComponentChange::Rejected,
                    r,
                    line,
                    "conflicting component registration"@,
                );
            assert(bv == cv);
        },
        DurableEvent::CollectionRegistered { registration } => {
            let x = choose|x: RegisterCollectionResult|
                collection_outcome(av, registration, bv, x) && x.change
                    == RegisterCollectionChange::Created;
            let y = choose|y: RegisterCollectionResult|
                collection_outcome(av, registration, cv, y) && inventory_replayed(
                    a2,
                    c,
                    y.change == RegisterCollectionChange::Rejected,
                    r,
                    line,
                    "conflicting collection registration"@,
                );
            assert(bv == cv);
        },
        DurableEvent::ArtifactBound { component_key, artifact } => {
            let x = choose|x: BindArtifactResult|
                bind_outcome(av, component_key@, artifact, bv, x) && x.change
                    == BindArtifactChange::Bound;
            let y = choose|y: BindArtifactResult|
                bind_outcome(av, component_key@, artifact, cv, y) && inventory_replayed(
                    a2,
                    c,
                    y.change == BindArtifactChange::Rejected,
                    r,
                    line,
                    "invalid artifact binding"@,
                );
            lemma_bind_determined(av, component_key@, artifact, bv, x, cv, y);
        },
        DurableEvent::ComponentProviderConfigured { component_key, provider_key } => {
            let x = choose|x: ConfigureProviderResult|
                provider_outcome(av, component_key@, provider_key@, bv, x) && x.change
                    == ConfigureProviderChange::Configured;
            let y = choose|y: ConfigureProviderResult|
                provider_outcome(av, component_key@, provider_key@, cv, y) && inventory_replayed(
                    a2,
                    c,
                    y.change == ConfigureProviderChange::Rejected,
                    r,
                    line,
                    "invalid provider configuration"@,
                );
            assert(bv == cv);
        },
        DurableEvent::CollectionComponentAdded { collection_key, component_key } => {
            let x = choose|x: AddCollectionComponentResult|
                member_added_outcome(av, collection_key@, component_key@, bv, x) && x.change
                    == AddCollectionComponentChange::Added;
            let y = choose|y: AddCollectionComponentResult|
                member_added_outcome(av, collection_key@, component_key@, cv, y)
                    && inventory_replayed(
                    a2,
                    c,
                    y.change == AddCollectionComponentChange::Rejected,
                    r,
                    line,
                    "invalid collection membership add"@,
                );
            lemma_member_added_determined(av, collection_key@, component_key@, bv, x, cv, y);
        },
        DurableEvent::CollectionComponentRemoved { collection_key, component_key } => {
            let x = choose|x: RemoveCollectionComponentResult|
                member_removed_outcome(av, collection_key@, component_key@, bv, x) && x.change
                    == RemoveCollectionComponentChange::Removed;
            let y = choose|y: RemoveCollectionComponentResult|
                member_removed_outcome(av, collection_key@, component_key@, cv, y)
                    && inventory_replayed(
                    a2,
                    c,
                    y.change == RemoveCollectionComponentChange::Rejected,
                    r,
                    line,
                    "invalid collection membership removal"@,
                );
            lemma_member_removed_determined(av, collection_key@, component_key@, bv, x, cv, y);
        },
        DurableEvent::CollectionScanScheduleConfigured {
            collection_key,
            cadence_minutes,
            freshness,
            next_due_at_unix_ms,
        } => {
            let x = choose|x: ConfigureCollectionScanScheduleResult|
                schedule_outcome(
                    av,
                    collection_key@,
                    cadence_minutes,
                    freshness,
                    next_due_at_unix_ms,
                    bv,
                    x,
                ) && x.change == ConfigureCollectionScanScheduleChange::Configured;
            let y = choose|y: ConfigureCollectionScanScheduleResult|
                schedule_outcome(
                    av,
                    collection_key@,
                    cadence_minutes,
                    freshness,
                    next_due_at_unix_ms,
                    cv,
                    y,
                ) && inventory_replayed(
                    a2,
                    c,
                    y.change == ConfigureCollectionScanScheduleChange::Rejected,
                    r,
                    line,
                    "invalid collection scan schedule"@,
                );
            assert(bv == cv);
        },
        DurableEvent::CollectionScanScheduleMaterialized {
            collection_key,
            next_due_at_unix_ms,
            materialized_at_unix_ms,
            enqueued_commands,
        } => {
            let x = choose|x: ConfigureCollectionScanScheduleResult|
                materialization_outcome(
                    av,
                    collection_key@,
                    next_due_at_unix_ms,
                    materialized_at_unix_ms,
                    enqueued_commands,
                    bv,
                    x,
                ) && x.change == ConfigureCollectionScanScheduleChange::Configured;
            let y = choose|y: ConfigureCollectionScanScheduleResult|
                materialization_outcome(
                    av,
                    collection_key@,
                    next_due_at_unix_ms,
                    materialized_at_unix_ms,
                    enqueued_commands,
                    cv,
                    y,
                ) && (y.change == ConfigureCollectionScanScheduleChange::Rejected ==> corrupt_at(
                    r,
                    line,
                    "invalid collection scan materialization"@,
                )) && (y.change != ConfigureCollectionScanScheduleChange::Rejected ==> r is Ok);
            assert(bv == cv);
        },
        _ => {},
    }
}

/// A registration that registered the component is what its event records.
proof fn lemma_registration_recorded(
    a: DurableState,
    b: DurableState,
    registration: ComponentRegistration,
    x: RegisterComponentResult,
)
    requires
        register_outcome(a.inventory_view(), registration, b.inventory_view(), x),
        x.change == RegisterComponentChange::Registered,
    ensures
        inventory_recorded(a, b, DurableEvent::ComponentRegistered { registration }),
{
    let e = DurableEvent::ComponentRegistered { registration };
    assert(e->ComponentRegistered_registration == registration);
    assert(exists|y: RegisterComponentResult|
        register_outcome(a.inventory_view(), registration, b.inventory_view(), y) && y.change
            == RegisterComponentChange::Registered);
}

/// A registration that created the collection is what its event records.
proof fn lemma_collection_recorded(
    a: DurableState,
    b: DurableState,
    registration: CollectionRegistration,
    x: RegisterCollectionResult,
)
    requires
        collection_outcome(a.inventory_view(), registration, b.inventory_view(), x),
        x.change == RegisterCollectionChange::Created,
    ensures
        inventory_recorded(a, b, DurableEvent::CollectionRegistered { registration }),
{
    let e = DurableEvent::CollectionRegistered { registration };
    assert(e->CollectionRegistered_registration == registration);
    assert(exists|y: RegisterCollectionResult|
        collection_outcome(a.inventory_view(), registration, b.inventory_view(), y) && y.change
            == RegisterCollectionChange::Created);
}

/// Replaying the event that an inventory change recorded, on any state with
/// the domain the change started from, is accepted and rebuilds the same
/// inventory, leaving the rest of the domain alone.
pub proof fn lemma_replayed_inventory_matches(a: DurableState, b: DurableState, e: DurableEvent)
    requires
        b.wf(),
        inventory_recorded(a, b, e),
        b.tracker_view() == a.tracker_view(),
        b.read_view() == a.read_view(),
        b.governance_view() == a.governance_view(),
        b.config() == a.config(),
        b.applied() == a.applied(),
        b.pending_events() == a.pending_events(),
    ensures
        replays_to(a, e, b),
{
    assert forall|a2: DurableState, c: DurableState, line: usize, r: Result<(), DurableStateError>|
        same_domain(a, a2) && a2.wf() && c.wf() && #[trigger] event_replayed(a2, c, e, line, r)
            implies r is Ok && same_domain(b, c) by {
        lemma_inventory_replay_step(a, a2, b, c, e, line, r);
    }
}

/// Reopening one finding is removing its decision.
pub proof fn lemma_reopen_one(g: Map<FindingRefView, DecisionView>, f: FindingRefView)
    ensures
        reopen_seq(g, seq![f]) == g.remove(f),
{
    let fs = seq![f];
    assert(fs.drop_last() =~= Seq::<FindingRefView>::empty());
    assert(reopen_seq(g, fs.drop_last()) == g);
    assert(fs.last() == f);
}

/// The governed findings are never more than the findings.
pub proof fn lemma_with_decision_len(g: Map<FindingRefView, DecisionView>, fs: Seq<FindingRefView>)
    ensures
        with_decision(g, fs).len() <= fs.len(),
    decreases fs.len(),
{
    if fs.len() > 0 {
        lemma_with_decision_len(g, fs.drop_last());
    }
}

/// Whether replaying `e` withdraws the decision of each finding of `fs`.
pub open spec fn reopen_event(e: DurableEvent, fs: Seq<FindingRefView>) -> bool {
    match e {
        DurableEvent::FindingReopened { finding, .. } => fs == seq![finding@],
        DurableEvent::FindingsReopened { findings, .. } => fs == views_of(findings@),
        _ => false,
    }
}

/// Replaying the event that a reopening recorded, on any state with the
/// domain the reopening started from, is accepted and gives the same
/// decisions, on both sides, as the reopening itself did.
pub proof fn lemma_replayed_reopen_matches(
    a: DurableState,
    b: DurableState,
    e: DurableEvent,
    fs: Seq<FindingRefView>,
)
    requires
        reopened(a, b, fs),
        reopen_event(e, fs),
    ensures
        replays_to(a, e, b),
{
    assert forall|a2: DurableState, c: DurableState, line: usize, r: Result<(), DurableStateError>|
        same_domain(a, a2) && a2.wf() && c.wf() && #[trigger] event_replayed(a2, c, e, line, r)
            implies r is Ok && same_domain(b, c) by {
        assert(c.read_view().active == b.read_view().active);
        assert(c.read_view().decisions == b.read_view().decisions);
    }
}

/// Whether an event changes the inventory.
fn is_inventory_event(e: &DurableEvent) -> (r: bool)
    ensures
        r == inventory_event(*e),
{
    matches!(
        e,
        DurableEvent::ComponentRegistered { .. } | DurableEvent::CollectionRegistered { .. }
            | DurableEvent::ArtifactBound { .. } | DurableEvent::ComponentProviderConfigured { .. }
            | DurableEvent::CollectionComponentAdded { .. }
            | DurableEvent::CollectionComponentRemoved { .. }
            | DurableEvent::CollectionScanScheduleConfigured { .. }
            | DurableEvent::CollectionScanScheduleMaterialized { .. }
    )
}

/// Whether an event changes governance decisions.
fn is_governance_change(e: &DurableEvent) -> (r: bool)
    ensures
        r == governance_change(*e),
{
    matches!(
        e,
        DurableEvent::FindingRiskAccepted { .. } | DurableEvent::FindingsRiskAccepted { .. }
            | DurableEvent::FindingSuppressed { .. } | DurableEvent::FindingsSuppressed { .. }
            | DurableEvent::FindingReopened { .. } | DurableEvent::FindingsReopened { .. }
    )
}

/// Replaying the event that a publication recorded, on any state with the
/// domain the publication started from, removes the same pending event and
/// changes nothing else of the domain, as the publication did.
pub proof fn lemma_replayed_publication_matches(a: DurableState, b: DurableState, e: DurableEvent)
    requires
        e matches DurableEvent::IntegrationEventPublished { event_id, .. } && publication_recorded(
            a,
            b,
            event_id@,
        ),
    ensures
        replays_to(a, e, b),
{
    assert forall|a2: DurableState, c: DurableState, line: usize, r: Result<(), DurableStateError>|
        same_domain(a, a2) && a2.wf() && c.wf() && #[trigger] event_replayed(a2, c, e, line, r)
            implies r is Ok && same_domain(b, c) by {
    }
}

/// Replaying the event that a failed publication recorded, on any state
/// with the domain it started from, changes nothing of the domain, as the
/// failure did.
pub proof fn lemma_replayed_failure_matches(a: DurableState, b: DurableState, e: DurableEvent)
    requires
        e is IntegrationEventPublicationFailed,
        same_domain(a, b),
    ensures
        replays_to(a, e, b),
{
    assert forall|a2: DurableState, c: DurableState, line: usize, r: Result<(), DurableStateError>|
        same_domain(a, a2) && a2.wf() && c.wf() && #[trigger] event_replayed(a2, c, e, line, r)
            implies r is Ok && same_domain(b, c) by {
    }
}

/// What the clock error reads when the clock is before the Unix epoch.
pub const CLOCK_BEFORE_EPOCH: &'static str = "second time provided was later than self";

/// What the clock error reads when a timestamp does not fit its integer.
pub const TIMESTAMP_OUT_OF_RANGE: &'static str = "timestamp out of range";

/// Whether two integration runtime configurations say the same.
fn same_config_as(a: &IntegrationRuntimeConfig, b: &IntegrationRuntimeConfig) -> (r: bool)
    ensures
        r == same_config(*a, *b),
{
    match (a, b) {
        (IntegrationRuntimeConfig::Fixture, IntegrationRuntimeConfig::Fixture) => true,
        (
            IntegrationRuntimeConfig::Http { endpoint_url: u, timeout_ms: t },
            IntegrationRuntimeConfig::Http { endpoint_url: v, timeout_ms: w },
        ) => text_eq(u.as_str(), v.as_str()) && *t == *w,
        _ => false,
    }
}

/// The milliseconds that one reading of the clock gives: the whole
/// milliseconds in its nanoseconds since the Unix epoch, or a time error when
/// the clock read a time before the epoch or the milliseconds overflow a
/// `u64`.
pub open spec fn millis_from_clock(nanos: Option<u128>, r: Result<u64, DurableStateError>) -> bool {
    match nanos {
        Some(n) => if n / 1_000_000 > u64::MAX {
            r matches Err(DurableStateError::Time(m)) && m@ == TIMESTAMP_OUT_OF_RANGE@
        } else {
            r == Ok::<u64, DurableStateError>((n / 1_000_000) as u64)
        },
        None => r matches Err(DurableStateError::Time(m)) && m@ == CLOCK_BEFORE_EPOCH@,
    }
}

/// Milliseconds from the Unix epoch to now.
fn now_unix_millis() -> (r: Result<u64, DurableStateError>)
    ensures
        r matches Err(e) ==> e is Time,
        exists|nanos: Option<u128>| #[trigger] millis_from_clock(nanos, r),
{
    let reading = unix_nanos_now();
    let r = match reading {
        Some(nanos) => {
            let millis = nanos / 1_000_000;
            if millis > u64::MAX as u128 {
                Err(DurableStateError::Time(owned(TIMESTAMP_OUT_OF_RANGE)))
            } else {
                Ok(millis as u64)
            }
        },
        None => Err(DurableStateError::Time(owned(CLOCK_BEFORE_EPOCH))),
    };
    assert(millis_from_clock(reading, r));
    r
}

/// One system event of a governance change.
fn governance_event(
    id: String,
    t: u64,
    kind: SystemEventKind,
    collection_key: Option<String>,
    component_key: Option<String>,
    count: Option<u32>,
    detail: Option<String>,
) -> (r: SystemEvent)
    ensures
        is_governance_event(
            r,
            id@,
            t,
            kind,
            opt_text(collection_key),
            opt_text(component_key),
            count,
            opt_text(detail),
        ),
{
    SystemEvent {
        event_id: id,
        occurred_at_unix_ms: t,
        kind,
        collection_key,
        component_key,
        command_id: None,
        integration_event_id: None,
        finding_count: count,
        retryable: None,
        detail,
    }
}

/// The system event of one scheduler pass over a collection.
fn scheduler_event(
    id: String,
    collection_key: &str,
    next_due_at_unix_ms: u64,
    materialized_at_unix_ms: u64,
    enqueued_commands: u32,
) -> (r: SystemEvent)
    ensures
        is_scheduler_event(
            r,
            id@,
            collection_key@,
            next_due_at_unix_ms,
            materialized_at_unix_ms,
            enqueued_commands,
        ),
{
    let detail = owned("next due ").concat(decimal_text(next_due_at_unix_ms as u128).as_str()).concat(
        ", enqueued ",
    ).concat(decimal_text(enqueued_commands as u128).as_str());
    SystemEvent {
        event_id: id,
        occurred_at_unix_ms: materialized_at_unix_ms,
        kind: SystemEventKind::CollectionScanMaterialized,
        collection_key: Some(owned(collection_key)),
        component_key: None,
        command_id: None,
        integration_event_id: None,
        finding_count: Some(enqueued_commands),
        retryable: None,
        detail: Some(detail),
    }
}

} // verus!
