//! The scan command queue: commands queued in order, each with a status
//! that moves from pending (through applying) to one terminal status, the
//! integration events still to publish, and a trace of system events.
//!
//! Every change here is the in-memory half of one history event; the
//! caller persists the event and replays the history through the same
//! transitions.

use crate::collections::OrderedMap;
use crate::findings::finding_ingestion::FindingIngestionError;
use crate::findings::finding_provider::{FindingProviderError, ProviderScanReport, ScanRequest};
use crate::findings::finding_provider_contract::{
    contract_violation, validate_provider_scan_report, violation_message,
};
use crate::integration::integration_events::{
    batch_advanced, batch_open, IntegrationEventPublicationFailure, IntegrationEventPublishError,
    PublishIntegrationEventsResult,
};
use crate::findings::finding_tracker::FindingChangeSet;
use crate::integration::integration_events::{decimal, decimal_text, PendingIntegrationEvent};
use crate::operations::system_event_trace::{
    copy_events, query_system_events, SystemEvent, SystemEventKind, SystemEventsPage, SystemEventsQuery,
};
use crate::order::{copy_opt, opt_text, owned, text_eq};
use crate::scanning::scan_planning::RequestView;
use vstd::prelude::*;

verus! {

/// Stable observable status of one durable scan command.
#[derive(Debug, Clone, Copy, PartialEq, Eq, Structural)]
pub enum ScanCommandStatus {
    Pending,
    Applying,
    Completed,
    Failed,
}

/// Whether a status is final.
pub open spec fn terminal(s: ScanCommandStatus) -> bool {
    s == ScanCommandStatus::Completed || s == ScanCommandStatus::Failed
}

impl ScanCommandStatus {
    pub fn as_str(self) -> (r: &'static str)
        ensures
            r@ == (match self {
                Self::Pending => "pending"@,
                Self::Applying => "applying"@,
                Self::Completed => "completed"@,
                Self::Failed => "failed"@,
            }),
    {
        match self {
            Self::Pending => "pending",
            Self::Applying => "applying",
            Self::Completed => "completed",
            Self::Failed => "failed",
        }
    }

    pub fn is_terminal(self) -> (r: bool)
        ensures
            r == terminal(self),
    {
        match self {
            Self::Completed | Self::Failed => true,
            _ => false,
        }
    }
}

/// The collection schedule pass that enqueued a command.
#[derive(Debug, PartialEq, Eq)]
pub struct CollectionScheduleOrigin {
    pub collection_key: String,
    pub due_at_unix_ms: u64,
}

impl View for CollectionScheduleOrigin {
    type V = (Seq<char>, u64);

    open spec fn view(&self) -> (Seq<char>, u64) {
        (self.collection_key@, self.due_at_unix_ms)
    }
}

impl Clone for CollectionScheduleOrigin {
    fn clone(&self) -> (r: Self)
        ensures
            r == *self,
    {
        CollectionScheduleOrigin {
            collection_key: self.collection_key.clone(),
            due_at_unix_ms: self.due_at_unix_ms,
        }
    }
}

/// The view of an optional origin.
pub open spec fn origin_view(o: Option<CollectionScheduleOrigin>) -> Option<(Seq<char>, u64)> {
    match o {
        Some(x) => Some(x@),
        None => None,
    }
}

fn copy_origin(o: &Option<CollectionScheduleOrigin>) -> (r: Option<CollectionScheduleOrigin>)
    ensures
        r == *o,
{
    match o {
        Some(x) => Some(x.clone()),
        None => None,
    }
}

/// One command as written to the queue history.
#[derive(Debug, PartialEq, Eq)]
pub struct EnqueuedCommand {
    pub command_id: String,
    pub request: ScanRequest,
    pub collection_schedule_origin: Option<CollectionScheduleOrigin>,
}

/// Observable result of enqueuing one durable scan command.
#[derive(Debug, Clone, PartialEq, Eq)]
pub struct EnqueueScanResult {
    pub command_id: String,
}

/// Completed durable scan command with its applied business result.
#[derive(Debug, PartialEq, Eq)]
pub struct CompletedScanCommand {
    pub command_id: String,
    pub provider_key: String,
    pub findings_reported: usize,
    pub change_set: FindingChangeSet,
}

/// Failed durable scan command with an explicit terminal error.
#[derive(Debug, PartialEq, Eq)]
pub struct FailedScanCommand {
    pub command_id: String,
    pub error_code: String,
    pub retryable: bool,
    pub detail: String,
}

/// Observable outcome of attempting to run the next queued scan command.
#[derive(Debug, PartialEq, Eq)]
pub enum RunNextScanResult {
    Idle,
    Completed(CompletedScanCommand),
    Failed(FailedScanCommand),
}

/// One event of the scan queue's history.
#[derive(Debug)]
pub enum ScanQueueEvent {
    BatchEnqueued { commands: Vec<EnqueuedCommand>, occurred_at_unix_ms: u64 },
    Enqueued { command: EnqueuedCommand, occurred_at_unix_ms: u64 },
    ReportCaptured { command_id: String, report: ProviderScanReport },
    Completed {
        command_id: String,
        findings_reported: usize,
        change_set: FindingChangeSet,
        occurred_at_unix_ms: u64,
        pending_integration_event: Option<PendingIntegrationEvent>,
    },
    Failed { command_id: String, occurred_at_unix_ms: u64, retryable: bool, detail: String },
    IntegrationEventPublished { event_id: String, occurred_at_unix_ms: u64 },
    IntegrationEventPublicationFailed {
        event_id: String,
        occurred_at_unix_ms: u64,
        retryable: bool,
        detail: String,
    },
}

/// What replaying one history event does to the queued commands `a`,
/// leaving `b`, and whether it is accepted: an enqueue is refused when an id
/// is already queued, and else queues its commands as pending; a captured
/// report is accepted only for a pending command, which turns applying; a
/// completion or failure is accepted only for a queued command that is not
/// terminal, which turns completed or failed with its captured report
/// dropped; a publication outcome leaves the commands alone.
pub open spec fn queue_event_replayed(
    a: Map<Seq<char>, CommandModel>,
    b: Map<Seq<char>, CommandModel>,
    event: ScanQueueEvent,
    accepted: bool,
) -> bool {
    match event {
        ScanQueueEvent::BatchEnqueued { commands, .. } => {
            &&& accepted == fresh_batch(a, commands@)
            &&& b == if accepted {
                with_batch(a, commands@)
            } else {
                a
            }
        },
        ScanQueueEvent::Enqueued { command, .. } => {
            &&& accepted == !a.contains_key(command.command_id@)
            &&& b == if accepted {
                a.insert(command.command_id@, enqueued_model(command))
            } else {
                a
            }
        },
        ScanQueueEvent::ReportCaptured { command_id, report } => {
            &&& accepted == (a.contains_key(command_id@) && a[command_id@].status
                == ScanCommandStatus::Pending)
            &&& b == if accepted {
                a.insert(
                    command_id@,
                    CommandModel {
                        request: a[command_id@].request,
                        status: ScanCommandStatus::Applying,
                        origin: a[command_id@].origin,
                        captured: Some(report),
                    },
                )
            } else {
                a
            }
        },
        ScanQueueEvent::Completed { command_id, .. } => {
            &&& accepted == (terminal_refusal(a, command_id@) is None)
            &&& b == if accepted {
                with_status(a, command_id@, ScanCommandStatus::Completed, true)
            } else {
                a
            }
        },
        ScanQueueEvent::Failed { command_id, .. } => {
            &&& accepted == (terminal_refusal(a, command_id@) is None)
            &&& b == if accepted {
                with_status(a, command_id@, ScanCommandStatus::Failed, true)
            } else {
                a
            }
        },
        _ => accepted && b == a,
    }
}

/// A history that cannot be replayed: the line and why.
#[derive(Debug, PartialEq, Eq)]
pub struct CorruptHistory {
    pub line: usize,
    pub reason: String,
}

/// The model of one queued command.
pub struct CommandModel {
    pub request: RequestView,
    pub status: ScanCommandStatus,
    pub origin: Option<(Seq<char>, u64)>,
    pub captured: Option<ProviderScanReport>,
}

struct ScanCommandRecord {
    request: ScanRequest,
    status: ScanCommandStatus,
    collection_schedule_origin: Option<CollectionScheduleOrigin>,
    captured_report: Option<ProviderScanReport>,
}

impl View for ScanCommandRecord {
    type V = CommandModel;

    closed spec fn view(&self) -> CommandModel {
        CommandModel {
            request: self.request@,
            status: self.status,
            origin: origin_view(self.collection_schedule_origin),
            captured: self.captured_report,
        }
    }
}

/// In-memory state of the durable scan queue.
pub struct ScanCommandQueue {
    commands: OrderedMap<String, ScanCommandRecord>,
    order: Vec<String>,
    pending_integration_events: Vec<PendingIntegrationEvent>,
    system_events: Vec<SystemEvent>,
}

/// Number of commands whose status is not terminal, over keys `ks`.
pub open spec fn pending_over(m: Map<Seq<char>, CommandModel>, ks: Seq<Seq<char>>) -> nat
    decreases ks.len(),
{
    if ks.len() == 0 {
        0
    } else {
        pending_over(m, ks.drop_last()) + if !terminal(m[ks.last()].status) {
            1nat
        } else {
            0nat
        }
    }
}

/// The first queued command, in enqueue order, that is not terminal.
pub open spec fn first_pending(m: Map<Seq<char>, CommandModel>, order: Seq<Seq<char>>) -> Option<
    Seq<char>,
>
    decreases order.len(),
{
    if order.len() == 0 {
        None
    } else if m.contains_key(order[0]) && !terminal(m[order[0]].status) {
        Some(order[0])
    } else {
        first_pending(m, order.drop_first())
    }
}

/// The queued commands, in enqueue order, that one collection schedule pass enqueued.
pub open spec fn batch_of(
    m: Map<Seq<char>, CommandModel>,
    order: Seq<Seq<char>>,
    origin: (Seq<char>, u64),
) -> Seq<Seq<char>>
    decreases order.len(),
{
    if order.len() == 0 {
        seq![]
    } else {
        let rest = batch_of(m, order.drop_last(), origin);
        let id = order.last();
        if m.contains_key(id) && m[id].origin == Some(origin) {
            rest.push(id)
        } else {
            rest
        }
    }
}

impl ScanCommandQueue {
    /// The queued commands by id.
    pub closed spec fn commands_view(&self) -> Map<Seq<char>, CommandModel> {
        self.commands@.map_values(|r: ScanCommandRecord| r@)
    }

    /// The command ids in increasing text order.
    pub closed spec fn ids_by_key(&self) -> Seq<Seq<char>> {
        self.commands.key_seq()
    }

    /// The command ids in enqueue order.
    pub closed spec fn order_view(&self) -> Seq<Seq<char>> {
        crate::order::texts(self.order@)
    }

    /// The integration events still to publish, oldest first.
    pub closed spec fn pending_events(&self) -> Seq<PendingIntegrationEvent> {
        self.pending_integration_events@
    }

    /// The trace of system events, newest first.
    pub closed spec fn trace(&self) -> Seq<SystemEvent> {
        self.system_events@
    }

    pub closed spec fn wf(&self) -> bool {
        &&& self.commands.wf()
        &&& self.order_view().to_set() == self.commands@.dom()
    }

    proof fn lemma_view(&self)
        ensures
            self.commands_view().dom() == self.commands@.dom(),
            forall|k: Seq<char>|
                #[trigger] self.commands@.contains_key(k) ==> self.commands_view()[k]
                    == self.commands@[k]@,
    {
        assert(self.commands_view().dom() =~= self.commands@.dom());
    }

    pub fn new() -> (r: Self)
        ensures
            r.wf(),
            r.commands_view().is_empty(),
            r.order_view().len() == 0,
            r.pending_events().len() == 0,
            r.trace().len() == 0,
    {
        let r = ScanCommandQueue {
            commands: OrderedMap::new(),
            order: Vec::new(),
            pending_integration_events: Vec::new(),
            system_events: Vec::new(),
        };
        proof {
            assert(r.commands_view() =~= Map::empty());
            assert(r.order_view() =~= Seq::empty());
            assert(r.order_view().to_set() =~= r.commands@.dom());
        }
        r
    }

    /// Number of queued commands that are not terminal.
    pub fn pending_commands(&self) -> (r: usize)
        requires
            self.wf(),
        ensures
            r == pending_over(self.commands_view(), self.ids_by_key()),
    {
        proof {
            self.lemma_view();
            self.commands.lemma_keys();
        }
        let n = self.commands.len();
        let mut count: usize = 0;
        let mut i: usize = 0;
        while i < n
            invariant
                self.wf(),
                n == self.commands.key_seq().len(),
                i <= n,
                count <= i,
                count == pending_over(self.commands_view(), self.commands.key_seq().take(i as int)),
            decreases n - i,
        {
            proof {
                self.commands.lemma_keys();
                self.lemma_view();
                assert(self.commands.key_seq().take(i + 1).drop_last() =~= self.commands.key_seq().take(
                    i as int,
                ));
            }
            if !self.commands.value_at(i).status.is_terminal() {
                count = count + 1;
            }
            i = i + 1;
        }
        assert(self.commands.key_seq().take(n as int) =~= self.commands.key_seq());
        count
    }

    pub fn command_status(&self, command_id: &str) -> (r: Option<ScanCommandStatus>)
        requires
            self.wf(),
        ensures
            r == (if self.commands_view().contains_key(command_id@) {
                Some(self.commands_view()[command_id@].status)
            } else {
                None
            }),
    {
        proof {
            self.lemma_view();
        }
        match self.commands.get(&owned(command_id)) {
            Some(record) => Some(record.status),
            None => None,
        }
    }

    /// The status of every command, by command id.
    pub fn command_statuses_snapshot(&self) -> (r: Vec<(String, ScanCommandStatus)>)
        requires
            self.wf(),
        ensures
            r@.len() == self.ids_by_key().len(),
            forall|i: int|
                0 <= i < r@.len() ==> (#[trigger] r@[i]).0@ == self.ids_by_key()[i]
                    && r@[i].1 == self.commands_view()[self.ids_by_key()[i]].status,
            crate::collections::views_sorted::<String>(self.ids_by_key()),
            self.ids_by_key().to_set() == self.commands_view().dom(),
    {
        proof {
            self.lemma_view();
            self.commands.lemma_keys();
        }
        let n = self.commands.len();
        let mut out: Vec<(String, ScanCommandStatus)> = Vec::new();
        let mut i: usize = 0;
        while i < n
            invariant
                self.wf(),
                n == self.commands.key_seq().len(),
                i <= n,
                out@.len() == i,
                forall|j: int|
                    0 <= j < i ==> (#[trigger] out@[j]).0@ == self.commands.key_seq()[j]
                        && out@[j].1 == self.commands_view()[self.commands.key_seq()[j]].status,
            decreases n - i,
        {
            proof {
                self.commands.lemma_keys();
                self.lemma_view();
            }
            let id = self.commands.key_at(i).clone();
            out.push((id, self.commands.value_at(i).status));
            i = i + 1;
        }
        out
    }

    /// The status of every queued command, by increasing id, shared.
    pub fn command_statuses_snapshot_arc(&self) -> (r: std::sync::Arc<Vec<(String, ScanCommandStatus)>>)
        requires
            self.wf(),
        ensures
            (*r)@.len() == self.ids_by_key().len(),
            forall|i: int|
                0 <= i < (*r)@.len() ==> (#[trigger] (*r)@[i]).0@ == self.ids_by_key()[i]
                    && (*r)@[i].1 == self.commands_view()[self.ids_by_key()[i]].status,
    {
        std::sync::Arc::new(self.command_statuses_snapshot())
    }

    /// The trace of system events, newest first, shared.
    pub fn system_events_snapshot_arc(&self) -> (r: std::sync::Arc<Vec<SystemEvent>>)
        ensures
            (*r)@ == self.trace(),
    {
        std::sync::Arc::new(copy_events(&self.system_events))
    }

    /// The id of the first queued command, in enqueue order, that is not terminal.
    pub fn next_pending_command(&self) -> (r: Option<String>)
        requires
            self.wf(),
        ensures
            opt_text(r) == first_pending(self.commands_view(), self.order_view()),
    {
        proof {
            self.lemma_view();
        }
        let ghost ov = self.order_view();
        let mut i: usize = 0;
        assert(ov.skip(0) =~= ov);
        while i < self.order.len()
            invariant
                self.wf(),
                ov == self.order_view(),
                ov.len() == self.order@.len(),
                i <= ov.len(),
                first_pending(self.commands_view(), ov) == first_pending(
                    self.commands_view(),
                    ov.skip(i as int),
                ),
            decreases self.order.len() - i,
        {
            proof {
                self.lemma_view();
                assert(ov.skip(i as int)[0] == ov[i as int]);
                assert(ov[i as int] == self.order@[i as int]@);
                assert(ov.skip(i as int).drop_first() =~= ov.skip(i + 1));
            }
            match self.commands.get(&self.order[i]) {
                Some(record) => {
                    if !record.status.is_terminal() {
                        return Some(self.order[i].clone());
                    }
                },
                None => {},
            }
            i = i + 1;
        }
        None
    }

    /// The component of the first queued command that is not terminal.
    pub fn next_pending_component_key(&self) -> (r: Option<String>)
        requires
            self.wf(),
        ensures
            match first_pending(self.commands_view(), self.order_view()) {
                Some(id) => opt_text(r) == Some(self.commands_view()[id].request.0),
                None => r is None,
            },
    {
        proof {
            self.lemma_view();
        }
        match self.next_pending_command() {
            Some(id) => match self.commands.get(&id) {
                Some(record) => Some(record.request.component_key.clone()),
                None => {
                    proof {
                        let ov = self.order_view();
                        lemma_first_pending_member(self.commands_view(), ov);
                    }
                    None
                },
            },
            None => None,
        }
    }

    /// The commands that one collection schedule pass already enqueued, in
    /// enqueue order; none when it enqueued nothing.
    pub fn find_collection_batch(&self, collection_key: &str, due_at_unix_ms: u64) -> (r: Option<
        Vec<String>,
    >)
        requires
            self.wf(),
        ensures
            ({
                let b = batch_of(
                    self.commands_view(),
                    self.order_view(),
                    (collection_key@, due_at_unix_ms),
                );
                &&& (r is Some <==> b.len() > 0)
                &&& r matches Some(v) ==> crate::order::texts(v@) == b
            }),
    {
        proof {
            self.lemma_view();
        }
        let ghost ov = self.order_view();
        let ghost origin = (collection_key@, due_at_unix_ms);
        let mut out: Vec<String> = Vec::new();
        let mut i: usize = 0;
        while i < self.order.len()
            invariant
                self.wf(),
                ov == self.order_view(),
                ov.len() == self.order@.len(),
                origin == (collection_key@, due_at_unix_ms),
                i <= ov.len(),
                crate::order::texts(out@) == batch_of(self.commands_view(), ov.take(i as int), origin),
            decreases self.order.len() - i,
        {
            proof {
                self.lemma_view();
                assert(ov.take(i + 1).drop_last() =~= ov.take(i as int));
                assert(ov.take(i + 1).last() == self.order@[i as int]@);
            }
            match self.commands.get(&self.order[i]) {
                Some(record) => match &record.collection_schedule_origin {
                    Some(o) => {
                        if text_eq(o.collection_key.as_str(), collection_key) && o.due_at_unix_ms
                            == due_at_unix_ms {
                            let ghost before = out@;
                            out.push(self.order[i].clone());
                            assert(crate::order::texts(out@) =~= crate::order::texts(before).push(
                                self.order@[i as int]@,
                            ));
                        }
                    },
                    None => {},
                },
                None => {},
            }
            i = i + 1;
        }
        assert(ov.take(i as int) =~= ov);
        if out.len() == 0 {
            None
        } else {
            Some(out)
        }
    }

    pub fn pending_integration_events(&self) -> (r: &Vec<PendingIntegrationEvent>)
        ensures
            r@ == self.pending_events(),
    {
        &self.pending_integration_events
    }

    pub fn system_events(&self) -> (r: &Vec<SystemEvent>)
        ensures
            r@ == self.trace(),
    {
        &self.system_events
    }

    pub fn query_system_events(&self, query: &SystemEventsQuery) -> (r: SystemEventsPage)
        ensures
            r.limit == crate::operations::system_event_trace::clamped_limit(query.limit),
            r.total == crate::operations::system_event_trace::events_page(self.trace(), *query).0,
            crate::operations::system_event_trace::shared_events(r.events@)
                == crate::operations::system_event_trace::events_page(self.trace(), *query).1,
            r.returned == r.events@.len(),
    {
        query_system_events(self.system_events.as_slice(), query)
    }
}


/// Whether `e` is the system event with these fields.
pub open spec fn event_is(
    e: SystemEvent,
    id: Seq<char>,
    at: u64,
    kind: SystemEventKind,
    collection: Option<Seq<char>>,
    component: Option<Seq<char>>,
    command: Option<Seq<char>>,
    integration: Option<Seq<char>>,
    count: Option<u32>,
    retryable: Option<bool>,
    detail: Option<Seq<char>>,
) -> bool {
    &&& e.event_id@ == id
    &&& e.occurred_at_unix_ms == at
    &&& e.kind == kind
    &&& opt_text(e.collection_key) == collection
    &&& opt_text(e.component_key) == component
    &&& opt_text(e.command_id) == command
    &&& opt_text(e.integration_event_id) == integration
    &&& e.finding_count == count
    &&& e.retryable == retryable
    &&& opt_text(e.detail) == detail
}

/// Whether `after` is `before` with one event pushed in front.
pub open spec fn pushed_one(after: Seq<SystemEvent>, before: Seq<SystemEvent>) -> bool {
    after.len() == before.len() + 1 && after.drop_first() == before
}

/// The model of a freshly enqueued command.
pub open spec fn enqueued_model(c: EnqueuedCommand) -> CommandModel {
    CommandModel {
        request: c.request@,
        status: ScanCommandStatus::Pending,
        origin: origin_view(c.collection_schedule_origin),
        captured: None,
    }
}

/// The commands after enqueuing a batch; a later entry for an id replaces an earlier one.
pub open spec fn with_batch(m: Map<Seq<char>, CommandModel>, cs: Seq<EnqueuedCommand>) -> Map<
    Seq<char>,
    CommandModel,
>
    decreases cs.len(),
{
    if cs.len() == 0 {
        m
    } else {
        with_batch(m, cs.drop_last()).insert(cs.last().command_id@, enqueued_model(cs.last()))
    }
}

/// The ids of a batch, in order.
pub open spec fn batch_ids(cs: Seq<EnqueuedCommand>) -> Seq<Seq<char>> {
    cs.map_values(|c: EnqueuedCommand| c.command_id@)
}

/// Id of the system event for the `index`-th command of a batch: replayed
/// from history line `line`, or enqueued live.
pub open spec fn enqueue_event_id(c: EnqueuedCommand, line: Option<usize>, index: nat) -> Seq<char> {
    match line {
        Some(l) => "scan-command-enqueued-"@ + decimal(l as nat) + "-"@ + decimal(index),
        None => "scan-command-enqueued-live-"@ + c.command_id@,
    }
}

/// Whether `e` is the system event recording that `c` was enqueued.
pub open spec fn enqueue_event_is(e: SystemEvent, c: EnqueuedCommand, id: Seq<char>, at: u64) -> bool {
    event_is(
        e,
        id,
        at,
        SystemEventKind::ScanCommandEnqueued,
        match c.collection_schedule_origin {
            Some(o) => Some(o.collection_key@),
            None => None,
        },
        Some(c.request.component_key@),
        Some(c.command_id@),
        None,
        None,
        None,
        None,
    )
}

/// Whether the trace after a batch holds one enqueue event per command, the
/// last command's newest, in front of the trace before.
pub open spec fn batch_traced(
    after: Seq<SystemEvent>,
    before: Seq<SystemEvent>,
    cs: Seq<EnqueuedCommand>,
    line: Option<usize>,
    at: u64,
) -> bool {
    &&& after.len() == before.len() + cs.len()
    &&& after.skip(cs.len() as int) == before
    &&& forall|i: int|
        0 <= i < cs.len() ==> enqueue_event_is(
            #[trigger] after[cs.len() - 1 - i],
            cs[i],
            enqueue_event_id(cs[i], line, i as nat),
            at,
        )
}

/// The detail text of a completion: the four counts of the change set.
pub open spec fn change_detail(c: FindingChangeSet) -> Seq<char> {
    "discovered "@ + decimal(c.discovered as nat) + ", repeated "@ + decimal(c.repeated as nat)
        + ", withdrawn "@ + decimal(c.withdrawn as nat) + ", active "@ + decimal(c.active as nat)
}

/// A count as reported in a system event, when it fits in a `u32`.
pub open spec fn count_u32(n: usize) -> Option<u32> {
    if n <= u32::MAX {
        Some(n as u32)
    } else {
        None
    }
}

fn change_detail_text(c: &FindingChangeSet) -> (r: String)
    ensures
        r@ == change_detail(*c),
{
    owned("discovered ").concat(decimal_text(c.discovered as u128).as_str()).concat(", repeated ").concat(
        decimal_text(c.repeated as u128).as_str(),
    ).concat(", withdrawn ").concat(decimal_text(c.withdrawn as u128).as_str()).concat(
        ", active ",
    ).concat(decimal_text(c.active as u128).as_str())
}

fn finding_count(n: usize) -> (r: Option<u32>)
    ensures
        r == count_u32(n),
{
    if n <= u32::MAX as usize {
        Some(n as u32)
    } else {
        None
    }
}

fn corrupt(line: usize, reason: &str) -> (r: CorruptHistory)
    ensures
        r.line == line,
        r.reason@ == reason@,
{
    CorruptHistory { line, reason: owned(reason) }
}

impl ScanCommandQueue {
    fn push_system_event(&mut self, event: SystemEvent)
        ensures
            final(self).trace() == seq![event] + old(self).trace(),
            final(self).commands == old(self).commands,
            final(self).order == old(self).order,
            final(self).pending_integration_events == old(self).pending_integration_events,
    {
        self.system_events.insert(0, event);
        assert(self.system_events@ =~= seq![event] + old(self).system_events@);
    }

    /// Insert a batch of commands and trace one enqueue event per command.
    fn insert_batch(&mut self, commands: &Vec<EnqueuedCommand>, occurred_at_unix_ms: u64, line: Option<
        usize,
    >)
        requires
            old(self).wf(),
        ensures
            final(self).wf(),
            final(self).commands_view() == with_batch(old(self).commands_view(), commands@),
            final(self).order_view() == old(self).order_view() + batch_ids(commands@),
            final(self).pending_events() == old(self).pending_events(),
            batch_traced(final(self).trace(), old(self).trace(), commands@, line, occurred_at_unix_ms),
    {
        let ghost cs = commands@;
        let mut i: usize = 0;
        proof {
            assert(batch_ids(cs.take(0)) =~= Seq::<Seq<char>>::empty());
            assert(self.order_view() + batch_ids(cs.take(0)) =~= self.order_view());
            assert(self.trace().skip(0) =~= self.trace());
        }
        while i < commands.len()
            invariant
                cs == commands@,
                i <= cs.len(),
                self.wf(),
                self.commands_view() == with_batch(old(self).commands_view(), cs.take(i as int)),
                self.order_view() == old(self).order_view() + batch_ids(cs.take(i as int)),
                self.pending_events() == old(self).pending_events(),
                batch_traced(self.trace(), old(self).trace(), cs.take(i as int), line, occurred_at_unix_ms),
            decreases commands.len() - i,
        {
            let c = &commands[i];
            let record = ScanCommandRecord {
                request: c.request.clone(),
                status: ScanCommandStatus::Pending,
                collection_schedule_origin: copy_origin(&c.collection_schedule_origin),
                captured_report: None,
            };
            let ghost before = *self;
            let id_copy = c.command_id.clone();
            self.order.push(id_copy);
            assert(self.order@ =~= before.order@.push(c.command_id));
            self.commands.insert(c.command_id.clone(), record);
            let collection_key = match &c.collection_schedule_origin {
                Some(o) => Some(o.collection_key.clone()),
                None => None,
            };
            let event_id = match line {
                Some(l) => owned("scan-command-enqueued-").concat(decimal_text(l as u128).as_str()).concat(
                    "-",
                ).concat(decimal_text(i as u128).as_str()),
                None => owned("scan-command-enqueued-live-").concat(c.command_id.as_str()),
            };
            let ghost mid = self.trace();
            self.push_system_event(
                SystemEvent {
                    event_id,
                    occurred_at_unix_ms,
                    kind: SystemEventKind::ScanCommandEnqueued,
                    collection_key,
                    component_key: Some(c.request.component_key.clone()),
                    command_id: Some(c.command_id.clone()),
                    integration_event_id: None,
                    finding_count: None,
                    retryable: None,
                    detail: None,
                },
            );
            proof {
                let ct = cs.take(i + 1);
                assert(ct.drop_last() =~= cs.take(i as int));
                assert(ct.last() == *c);
                assert(record@ == enqueued_model(*c));
                assert(self.commands_view() =~= with_batch(old(self).commands_view(), ct)) by {
                    before.lemma_view();
                    self.lemma_view();
                }
                assert(batch_ids(ct) =~= batch_ids(cs.take(i as int)).push(c.command_id@));
                assert(self.order_view() =~= before.order_view().push(c.command_id@));
                assert(self.order_view() =~= old(self).order_view() + batch_ids(ct));
                assert(self.order_view().to_set() =~= self.commands@.dom()) by {
                    assert(self.order_view() =~= before.order_view().push(c.command_id@));
                    before.order_view().lemma_push_to_set_commute(c.command_id@);
                    assert(self.commands@.dom() =~= before.commands@.dom().insert(c.command_id@));
                }
                let t = self.trace();
                let o = old(self).trace();
                assert(t.skip(ct.len() as int) =~= o) by {
                    assert(t.skip(ct.len() as int) =~= mid.skip(i as int));
                }
                assert forall|j: int| 0 <= j < ct.len() implies enqueue_event_is(
                    #[trigger] t[ct.len() - 1 - j],
                    ct[j],
                    enqueue_event_id(ct[j], line, j as nat),
                    occurred_at_unix_ms,
                ) by {
                    if j < i {
                        assert(t[ct.len() - 1 - j] == mid[i - 1 - j]);
                        assert(ct[j] == cs.take(i as int)[j]);
                    }
                }
            }
            i = i + 1;
        }
        proof {
            assert(cs.take(i as int) =~= cs);
        }
    }

    /// Enqueue a batch of commands under their ids, in order; returns the
    /// ids. A command whose id is already queued is replaced, so the caller
    /// gives fresh ids; then every queued command stays as it was.
    pub fn enqueue_batch(&mut self, commands: Vec<EnqueuedCommand>, occurred_at_unix_ms: u64) -> (r: Vec<
        String,
    >)
        requires
            old(self).wf(),
        ensures
            final(self).wf(),
            crate::order::texts(r@) == batch_ids(commands@),
            final(self).commands_view() == with_batch(old(self).commands_view(), commands@),
            final(self).order_view() == old(self).order_view() + batch_ids(commands@),
            final(self).pending_events() == old(self).pending_events(),
            batch_traced(final(self).trace(), old(self).trace(), commands@, None, occurred_at_unix_ms),
            fresh_batch(old(self).commands_view(), commands@) ==> keeps_settled(
                old(self).commands_view(),
                final(self).commands_view(),
            ),
            fresh_batch(old(self).commands_view(), commands@) ==> queue_replays_to(
                *old(self),
                (ScanQueueEvent::BatchEnqueued { commands, occurred_at_unix_ms }),
                *final(self),
            ),
    {
        self.insert_batch(&commands, occurred_at_unix_ms, None);
        let mut ids: Vec<String> = Vec::new();
        let mut i: usize = 0;
        while i < commands.len()
            invariant
                i <= commands@.len(),
                crate::order::texts(ids@) == batch_ids(commands@.take(i as int)),
            decreases commands.len() - i,
        {
            let ghost before = ids@;
            ids.push(commands[i].command_id.clone());
            assert(ids@ =~= before.push(commands@[i as int].command_id));
            assert(crate::order::texts(ids@) =~= crate::order::texts(before).push(
                commands@[i as int].command_id@,
            ));
            assert(commands@.take(i + 1) =~= commands@.take(i as int).push(commands@[i as int]));
            assert(batch_ids(commands@.take(i + 1)) =~= batch_ids(commands@.take(i as int)).push(
                commands@[i as int].command_id@,
            ));
            assert(crate::order::texts(ids@) =~= batch_ids(commands@.take(i + 1)));
            i = i + 1;
        }
        assert(commands@.take(i as int) =~= commands@);
        proof {
            if fresh_batch(old(self).commands_view(), commands@) {
                lemma_fresh_batch_keeps(old(self).commands_view(), commands@);
                lemma_batch_replays(*old(self), *self, commands, occurred_at_unix_ms);
            }
        }
        ids
    }

    /// Enqueue one command.
    pub fn enqueue(&mut self, command_id: String, request: ScanRequest, occurred_at_unix_ms: u64) -> (r:
        EnqueueScanResult)
        requires
            old(self).wf(),
        ensures
            final(self).wf(),
            r.command_id@ == command_id@,
            ({
                let c = EnqueuedCommand {
                    command_id,
                    request,
                    collection_schedule_origin: None,
                };
                &&& final(self).commands_view() == old(self).commands_view().insert(
                    command_id@,
                    enqueued_model(c),
                )
                &&& final(self).order_view() == old(self).order_view().push(command_id@)
                &&& batch_traced(final(self).trace(), old(self).trace(), seq![c], None, occurred_at_unix_ms)
            }),
            final(self).pending_events() == old(self).pending_events(),
            !old(self).commands_view().contains_key(command_id@) ==> keeps_settled(
                old(self).commands_view(),
                final(self).commands_view(),
            ),
            !old(self).commands_view().contains_key(command_id@) ==> queue_replays_to(
                *old(self),
                (ScanQueueEvent::Enqueued {
                    command: EnqueuedCommand { command_id, request, collection_schedule_origin: None },
                    occurred_at_unix_ms,
                }),
                *final(self),
            ),
    {
        let ghost c = EnqueuedCommand {
            command_id,
            request,
            collection_schedule_origin: None,
        };
        let id = command_id.clone();
        let commands = vec![EnqueuedCommand { command_id, request, collection_schedule_origin: None }];
        assert(commands@ =~= seq![c]);
        self.enqueue_batch(commands, occurred_at_unix_ms);
        proof {
            assert(seq![c].drop_last() =~= Seq::<EnqueuedCommand>::empty());
            assert(seq![c].last() == c);
            assert(with_batch(old(self).commands_view(), seq![c].drop_last()) == old(self).commands_view());
            assert(with_batch(old(self).commands_view(), seq![c]) == old(self).commands_view().insert(
                command_id@,
                enqueued_model(c),
            ));
            assert(batch_ids(seq![c]) =~= seq![command_id@]);
            assert(old(self).order_view() + seq![command_id@] =~= old(self).order_view().push(command_id@));
            if !old(self).commands_view().contains_key(command_id@) {
                lemma_enqueue_replays(*old(self), *self, c, occurred_at_unix_ms);
            }
        }
        EnqueueScanResult { command_id: id }
    }

    /// Enqueue the batch of one collection schedule pass, at most once: when
    /// the pass already enqueued commands, their ids come back and nothing changes.
    pub fn enqueue_collection_batch(
        &mut self,
        collection_key: &str,
        due_at_unix_ms: u64,
        command_ids: Vec<String>,
        requests: Vec<ScanRequest>,
        occurred_at_unix_ms: u64,
    ) -> (r: Vec<String>)
        requires
            old(self).wf(),
            command_ids@.len() == requests@.len(),
        ensures
            final(self).wf(),
            ({
                let existing = batch_of(
                    old(self).commands_view(),
                    old(self).order_view(),
                    (collection_key@, due_at_unix_ms),
                );
                if existing.len() > 0 {
                    &&& *final(self) == *old(self)
                    &&& crate::order::texts(r@) == existing
                } else {
                    exists|cs: Seq<EnqueuedCommand>|
                        {
                            &&& cs.len() == requests@.len()
                            &&& forall|i: int|
                                0 <= i < cs.len() ==> (#[trigger] cs[i]).command_id@ == command_ids@[i]@
                                    && cs[i].request == requests@[i]
                                    && origin_view(cs[i].collection_schedule_origin) == Some(
                                    (collection_key@, due_at_unix_ms),
                                )
                            &&& crate::order::texts(r@) == batch_ids(cs)
                            &&& final(self).commands_view() == with_batch(old(self).commands_view(), cs)
                            &&& final(self).order_view() == old(self).order_view() + batch_ids(cs)
                            &&& final(self).pending_events() == old(self).pending_events()
                            &&& batch_traced(final(self).trace(), old(self).trace(), cs, None, occurred_at_unix_ms)
                        }
                }
            }),
            (forall|i: int|
                0 <= i < command_ids@.len() ==> !old(self).commands_view().contains_key(
                    #[trigger] command_ids@[i]@,
                )) ==> keeps_settled(old(self).commands_view(), final(self).commands_view()),
    {
        match self.find_collection_batch(collection_key, due_at_unix_ms) {
            Some(existing) => {
                return existing;
            },
            None => {},
        }
        let mut commands: Vec<EnqueuedCommand> = Vec::new();
        let mut ids = command_ids;
        let mut reqs = requests;
        let ghost all_ids = ids@;
        let ghost all_reqs = reqs@;
        let mut i: usize = 0;
        let n = reqs.len();
        while i < n
            invariant
                n == all_reqs.len(),
                all_ids.len() == all_reqs.len(),
                i <= n,
                ids@ == all_ids.skip(i as int),
                reqs@ == all_reqs.skip(i as int),
                commands@.len() == i,
                forall|j: int|
                    0 <= j < i ==> (#[trigger] commands@[j]).command_id@ == all_ids[j]@
                        && commands@[j].request == all_reqs[j] && origin_view(
                        commands@[j].collection_schedule_origin,
                    ) == Some((collection_key@, due_at_unix_ms)),
            decreases n - i,
        {
            let id = ids.remove(0);
            let request = reqs.remove(0);
            proof {
                assert(id == all_ids[i as int]);
                assert(request == all_reqs[i as int]);
                assert(ids@ =~= all_ids.skip(i + 1));
                assert(reqs@ =~= all_reqs.skip(i + 1));
            }
            commands.push(
                EnqueuedCommand {
                    command_id: id,
                    request,
                    collection_schedule_origin: Some(
                        CollectionScheduleOrigin {
                            collection_key: owned(collection_key),
                            due_at_unix_ms,
                        },
                    ),
                },
            );
            i = i + 1;
        }
        self.enqueue_batch(commands, occurred_at_unix_ms)
    }
}

/// The command `id` with a new status; its captured report dropped when `clear`.
pub open spec fn with_status(
    m: Map<Seq<char>, CommandModel>,
    id: Seq<char>,
    status: ScanCommandStatus,
    clear: bool,
) -> Map<Seq<char>, CommandModel> {
    m.insert(
        id,
        CommandModel {
            request: m[id].request,
            status,
            origin: m[id].origin,
            captured: if clear {
                None
            } else {
                m[id].captured
            },
        },
    )
}

/// Every command of `a` is still queued in `b`, and every command of `a`
/// with a terminal status is in `b` exactly as it was.
pub open spec fn keeps_settled(a: Map<Seq<char>, CommandModel>, b: Map<Seq<char>, CommandModel>) -> bool {
    forall|k: Seq<char>|
        #[trigger] a.contains_key(k) ==> b.contains_key(k) && (terminal(a[k].status) ==> b[k] == a[k])
}

/// No command of the batch is queued yet.
pub open spec fn fresh_batch(m: Map<Seq<char>, CommandModel>, cs: Seq<EnqueuedCommand>) -> bool {
    forall|i: int| 0 <= i < cs.len() ==> !m.contains_key(#[trigger] cs[i].command_id@)
}

/// The command is not queued with a terminal status.
pub open spec fn unsettled(m: Map<Seq<char>, CommandModel>, id: Seq<char>) -> bool {
    m.contains_key(id) ==> !terminal(m[id].status)
}

/// Queuing a batch of fresh commands keeps every queued command as it was.
pub proof fn lemma_fresh_batch_keeps(m: Map<Seq<char>, CommandModel>, cs: Seq<EnqueuedCommand>)
    requires
        fresh_batch(m, cs),
    ensures
        forall|k: Seq<char>|
            #[trigger] m.contains_key(k) ==> with_batch(m, cs).contains_key(k) && with_batch(m, cs)[k]
                == m[k],
    decreases cs.len(),
{
    if cs.len() > 0 {
        let init = cs.drop_last();
        assert forall|i: int| 0 <= i < init.len() implies !m.contains_key(
            #[trigger] init[i].command_id@,
        ) by {
            assert(init[i] == cs[i]);
        }
        lemma_fresh_batch_keeps(m, init);
        assert(!m.contains_key(cs[cs.len() - 1].command_id@));
    }
}

/// Keeping settled commands composes: over any sequence of queue states in
/// which each step keeps the settled commands of the one before, a command
/// queued with a terminal status at the start is still queued, exactly as
/// it was, at the end.
pub proof fn lemma_settled_stays_settled(ms: Seq<Map<Seq<char>, CommandModel>>)
    requires
        ms.len() >= 1,
        forall|i: int| 0 <= i < ms.len() - 1 ==> keeps_settled(#[trigger] ms[i], ms[i + 1]),
    ensures
        keeps_settled(ms[0], ms.last()),
    decreases ms.len(),
{
    if ms.len() > 1 {
        let init = ms.drop_last();
        assert forall|i: int| 0 <= i < init.len() - 1 implies keeps_settled(
            #[trigger] init[i],
            init[i + 1],
        ) by {
            assert(keeps_settled(ms[i], ms[i + 1]));
        }
        lemma_settled_stays_settled(init);
        assert(keeps_settled(ms[ms.len() - 2], ms[ms.len() - 1]));
    }
}

/// The pending events without the first one that has the given id.
pub open spec fn without_event(s: Seq<PendingIntegrationEvent>, id: Seq<char>) -> Seq<
    PendingIntegrationEvent,
>
    decreases s.len(),
{
    if s.len() == 0 {
        s
    } else if s[0].event_id@ == id {
        s.drop_first()
    } else {
        seq![s[0]] + without_event(s.drop_first(), id)
    }
}

/// The component of a command, when it is queued.
pub open spec fn component_of(m: Map<Seq<char>, CommandModel>, id: Seq<char>) -> Option<Seq<char>> {
    if m.contains_key(id) {
        Some(m[id].request.0)
    } else {
        None
    }
}

/// Whether a history event that moves a command to a terminal state is
/// refused: the command is unknown, or already terminal.
pub open spec fn terminal_refusal(m: Map<Seq<char>, CommandModel>, id: Seq<char>) -> Option<Seq<char>> {
    if !m.contains_key(id) {
        Some("terminal event without prior enqueue"@)
    } else if terminal(m[id].status) {
        Some("duplicate terminal state for scan command"@)
    } else {
        None
    }
}

impl ScanCommandQueue {
    /// Change the status of a queued command.
    fn set_status(&mut self, command_id: &str, status: ScanCommandStatus, clear: bool)
        requires
            old(self).wf(),
            old(self).commands_view().contains_key(command_id@),
        ensures
            final(self).wf(),
            final(self).commands_view() == with_status(old(self).commands_view(), command_id@, status, clear),
            final(self).order_view() == old(self).order_view(),
            final(self).pending_events() == old(self).pending_events(),
            final(self).trace() == old(self).trace(),
    {
        proof {
            self.lemma_view();
        }
        let key = owned(command_id);
        let ghost before = *self;
        match self.commands.remove(&key) {
            Some(record) => {
                let updated = ScanCommandRecord {
                    request: record.request,
                    status,
                    collection_schedule_origin: record.collection_schedule_origin,
                    captured_report: if clear {
                        None
                    } else {
                        record.captured_report
                    },
                };
                self.commands.insert(key, updated);
                proof {
                    self.lemma_view();
                    before.lemma_view();
                    assert(self.commands@.dom() =~= before.commands@.dom());
                    assert(self.commands_view() =~= with_status(before.commands_view(), command_id@, status, clear));
                }
            },
            None => {},
        }
    }

    /// Store the report a provider returned for a command and mark it applying.
    fn store_capture(&mut self, command_id: &str, report: ProviderScanReport)
        requires
            old(self).wf(),
            old(self).commands_view().contains_key(command_id@),
        ensures
            final(self).wf(),
            final(self).commands_view() == old(self).commands_view().insert(
                command_id@,
                CommandModel {
                    request: old(self).commands_view()[command_id@].request,
                    status: ScanCommandStatus::Applying,
                    origin: old(self).commands_view()[command_id@].origin,
                    captured: Some(report),
                },
            ),
            final(self).order_view() == old(self).order_view(),
            final(self).pending_events() == old(self).pending_events(),
            final(self).trace() == old(self).trace(),
    {
        proof {
            self.lemma_view();
        }
        let key = owned(command_id);
        let ghost before = *self;
        match self.commands.remove(&key) {
            Some(record) => {
                let updated = ScanCommandRecord {
                    request: record.request,
                    status: ScanCommandStatus::Applying,
                    collection_schedule_origin: record.collection_schedule_origin,
                    captured_report: Some(report),
                };
                self.commands.insert(key, updated);
                proof {
                    self.lemma_view();
                    before.lemma_view();
                    assert(self.commands@.dom() =~= before.commands@.dom());
                }
            },
            None => {},
        }
    }

    /// The report captured for a command, if any.
    pub fn captured_report(&self, command_id: &str) -> (r: Option<&ProviderScanReport>)
        requires
            self.wf(),
        ensures
            match r {
                Some(x) => self.commands_view().contains_key(command_id@)
                    && self.commands_view()[command_id@].captured == Some(*x),
                None => !self.commands_view().contains_key(command_id@)
                    || self.commands_view()[command_id@].captured is None,
            },
    {
        proof {
            self.lemma_view();
        }
        match self.commands.get(&owned(command_id)) {
            Some(record) => match &record.captured_report {
                Some(report) => Some(report),
                None => None,
            },
            None => None,
        }
    }

    /// The request of a queued command, if any.
    pub fn command_request(&self, command_id: &str) -> (r: Option<&ScanRequest>)
        requires
            self.wf(),
        ensures
            match r {
                Some(x) => self.commands_view().contains_key(command_id@)
                    && self.commands_view()[command_id@].request == x@,
                None => !self.commands_view().contains_key(command_id@),
            },
    {
        proof {
            self.lemma_view();
        }
        match self.commands.get(&owned(command_id)) {
            Some(record) => Some(&record.request),
            None => None,
        }
    }

    fn component_key_of(&self, command_id: &str) -> (r: Option<String>)
        requires
            self.wf(),
        ensures
            opt_text(r) == component_of(self.commands_view(), command_id@),
    {
        proof {
            self.lemma_view();
        }
        match self.commands.get(&owned(command_id)) {
            Some(record) => Some(record.request.component_key.clone()),
            None => None,
        }
    }

    /// Move a command to a terminal status, as a history event demands.
    pub fn mark_terminal(&mut self, line: usize, command_id: &str, status: ScanCommandStatus) -> (r:
        Result<(), CorruptHistory>)
        requires
            old(self).wf(),
        ensures
            final(self).wf(),
            match terminal_refusal(old(self).commands_view(), command_id@) {
                Some(reason) => *final(self) == *old(self) && (r matches Err(e) && e.line == line
                    && e.reason@ == reason),
                None => r is Ok && final(self).commands_view() == with_status(
                    old(self).commands_view(),
                    command_id@,
                    status,
                    false,
                ) && final(self).order_view() == old(self).order_view()
                    && final(self).pending_events() == old(self).pending_events()
                    && final(self).trace() == old(self).trace(),
            },
            keeps_settled(old(self).commands_view(), final(self).commands_view()),
    {
        proof {
            self.lemma_view();
        }
        let current = match self.commands.get(&owned(command_id)) {
            Some(record) => record.status,
            None => {
                return Err(corrupt(line, "terminal event without prior enqueue"));
            },
        };
        if current.is_terminal() {
            return Err(corrupt(line, "duplicate terminal state for scan command"));
        }
        self.set_status(command_id, status, false);
        Ok(())
    }

    /// Replay a batch of enqueued commands; refused when one of their ids is
    /// already queued.
    pub fn apply_batch_enqueued_event(
        &mut self,
        commands: Vec<EnqueuedCommand>,
        occurred_at_unix_ms: u64,
        line: usize,
    ) -> (r: Result<(), CorruptHistory>)
        requires
            old(self).wf(),
        ensures
            final(self).wf(),
            (r is Err) == (exists|i: int|
                0 <= i < commands@.len() && old(self).commands_view().contains_key(
                    #[trigger] commands@[i].command_id@,
                )),
            r matches Err(e) ==> (*final(self) == *old(self) && e.line == line && e.reason@
                == "duplicate scan command id"@),
            r is Ok ==> {
                &&& final(self).commands_view() == with_batch(old(self).commands_view(), commands@)
                &&& final(self).order_view() == old(self).order_view() + batch_ids(commands@)
                &&& final(self).pending_events() == old(self).pending_events()
                &&& batch_traced(final(self).trace(), old(self).trace(), commands@, Some(line), occurred_at_unix_ms)
            },
            keeps_settled(old(self).commands_view(), final(self).commands_view()),
    {
        proof {
            self.lemma_view();
        }
        let mut i: usize = 0;
        while i < commands.len()
            invariant
                self.wf(),
                *self == *old(self),
                i <= commands@.len(),
                forall|j: int| 0 <= j < i ==> !self.commands_view().contains_key(#[trigger] commands@[j].command_id@),
            decreases commands.len() - i,
        {
            proof {
                self.lemma_view();
            }
            if self.commands.contains_key(&commands[i].command_id) {
                return Err(corrupt(line, "duplicate scan command id"));
            }
            i = i + 1;
        }
        proof {
            lemma_fresh_batch_keeps(old(self).commands_view(), commands@);
        }
        self.insert_batch(&commands, occurred_at_unix_ms, Some(line));
        Ok(())
    }

    /// Replay one enqueued command; refused when its id is already queued.
    pub fn apply_enqueued_event(&mut self, command: EnqueuedCommand, occurred_at_unix_ms: u64, line: usize) -> (r:
        Result<(), CorruptHistory>)
        requires
            old(self).wf(),
        ensures
            final(self).wf(),
            (r is Err) == old(self).commands_view().contains_key(command.command_id@),
            r matches Err(e) ==> (*final(self) == *old(self) && e.line == line && e.reason@
                == "duplicate scan command id"@),
            r is Ok ==> {
                &&& final(self).commands_view() == old(self).commands_view().insert(
                    command.command_id@,
                    enqueued_model(command),
                )
                &&& final(self).order_view() == old(self).order_view().push(command.command_id@)
                &&& final(self).pending_events() == old(self).pending_events()
                &&& pushed_one(final(self).trace(), old(self).trace())
                &&& enqueue_event_is(
                    final(self).trace()[0],
                    command,
                    "scan-command-enqueued-"@ + decimal(line as nat),
                    occurred_at_unix_ms,
                )
            },
            keeps_settled(old(self).commands_view(), final(self).commands_view()),
    {
        proof {
            self.lemma_view();
        }
        if self.commands.contains_key(&command.command_id) {
            return Err(corrupt(line, "duplicate scan command id"));
        }
        let event_id = owned("scan-command-enqueued-").concat(decimal_text(line as u128).as_str());
        let ghost c = command;
        let mut batch: Vec<EnqueuedCommand> = Vec::new();
        let collection_key = match &command.collection_schedule_origin {
            Some(o) => Some(o.collection_key.clone()),
            None => None,
        };
        let component_key = command.request.component_key.clone();
        let command_id = command.command_id.clone();
        batch.push(command);
        assert(batch@ =~= seq![c]);
        let ghost before = *self;
        self.insert_batch_quiet(&batch);
        self.push_system_event(
            SystemEvent {
                event_id,
                occurred_at_unix_ms,
                kind: SystemEventKind::ScanCommandEnqueued,
                collection_key,
                component_key: Some(component_key),
                command_id: Some(command_id),
                integration_event_id: None,
                finding_count: None,
                retryable: None,
                detail: None,
            },
        );
        proof {
            assert(seq![c].drop_last() =~= Seq::<EnqueuedCommand>::empty());
            assert(with_batch(before.commands_view(), seq![c].drop_last()) == before.commands_view());
            assert(batch_ids(seq![c]) =~= seq![c.command_id@]);
            assert(before.order_view() + seq![c.command_id@] =~= before.order_view().push(c.command_id@));
            assert(self.trace().drop_first() =~= before.trace());
        }
        Ok(())
    }

    /// Insert commands without tracing them.
    fn insert_batch_quiet(&mut self, commands: &Vec<EnqueuedCommand>)
        requires
            old(self).wf(),
        ensures
            final(self).wf(),
            final(self).commands_view() == with_batch(old(self).commands_view(), commands@),
            final(self).order_view() == old(self).order_view() + batch_ids(commands@),
            final(self).pending_events() == old(self).pending_events(),
            final(self).trace() == old(self).trace(),
    {
        let ghost cs = commands@;
        let mut i: usize = 0;
        assert(old(self).order_view() + batch_ids(cs.take(0)) =~= old(self).order_view());
        while i < commands.len()
            invariant
                cs == commands@,
                i <= cs.len(),
                self.wf(),
                self.commands_view() == with_batch(old(self).commands_view(), cs.take(i as int)),
                self.order_view() == old(self).order_view() + batch_ids(cs.take(i as int)),
                self.pending_events() == old(self).pending_events(),
                self.trace() == old(self).trace(),
            decreases commands.len() - i,
        {
            let c = &commands[i];
            let record = ScanCommandRecord {
                request: c.request.clone(),
                status: ScanCommandStatus::Pending,
                collection_schedule_origin: copy_origin(&c.collection_schedule_origin),
                captured_report: None,
            };
            let ghost before = *self;
            let id_copy = c.command_id.clone();
            self.order.push(id_copy);
            assert(self.order@ =~= before.order@.push(c.command_id));
            self.commands.insert(c.command_id.clone(), record);
            proof {
                let ct = cs.take(i + 1);
                assert(ct.drop_last() =~= cs.take(i as int));
                assert(ct.last() == *c);
                assert(record@ == enqueued_model(*c));
                assert(self.commands_view() =~= with_batch(old(self).commands_view(), ct)) by {
                    before.lemma_view();
                    self.lemma_view();
                }
                assert(batch_ids(ct) =~= batch_ids(cs.take(i as int)).push(c.command_id@));
                assert(self.order_view() =~= before.order_view().push(c.command_id@));
                assert(self.order_view() =~= old(self).order_view() + batch_ids(ct));
                assert(self.order_view().to_set() =~= self.commands@.dom()) by {
                    before.order_view().lemma_push_to_set_commute(c.command_id@);
                    assert(self.commands@.dom() =~= before.commands@.dom().insert(c.command_id@));
                }
            }
            i = i + 1;
        }
        proof {
            assert(cs.take(i as int) =~= cs);
        }
    }
}

impl ScanCommandQueue {
    /// Remove the first pending integration event with the given id.
    pub fn remove_pending_integration_event(&mut self, event_id: &str)
        requires
            old(self).wf(),
        ensures
            final(self).wf(),
            final(self).pending_events() == without_event(old(self).pending_events(), event_id@),
            final(self).commands_view() == old(self).commands_view(),
            final(self).order_view() == old(self).order_view(),
            final(self).trace() == old(self).trace(),
            keeps_settled(old(self).commands_view(), final(self).commands_view()),
    {
        let ghost s = self.pending_integration_events@;
        let mut i: usize = 0;
        assert(s.take(0) =~= Seq::<PendingIntegrationEvent>::empty());
        assert(s.skip(0) =~= s);
        assert(s.take(0) + without_event(s.skip(0), event_id@) =~= without_event(s, event_id@));
        while i < self.pending_integration_events.len()
            invariant
                *self == *old(self),
                old(self).wf(),
                s == self.pending_integration_events@,
                i <= s.len(),
                without_event(s, event_id@) == s.take(i as int) + without_event(s.skip(i as int), event_id@),
                forall|j: int| 0 <= j < i ==> s[j].event_id@ != event_id@,
            decreases s.len() - i,
        {
            proof {
                assert(s.skip(i as int)[0] == s[i as int]);
                assert(s.skip(i as int).drop_first() =~= s.skip(i + 1));
                assert(s.take(i + 1) =~= s.take(i as int).push(s[i as int]));
            }
            if text_eq(self.pending_integration_events[i].event_id.as_str(), event_id) {
                self.pending_integration_events.remove(i);
                proof {
                    assert(self.pending_integration_events@ =~= s.take(i as int) + s.skip(i + 1));
                    assert(without_event(s.skip(i as int), event_id@) == s.skip(i as int).drop_first());
                }
                return;
            }
            proof {
                assert(s.take(i as int) + (seq![s[i as int]] + without_event(s.skip(i + 1), event_id@))
                    =~= s.take(i + 1) + without_event(s.skip(i + 1), event_id@));
            }
            i = i + 1;
        }
        proof {
            assert(s.skip(i as int) =~= Seq::<PendingIntegrationEvent>::empty());
            assert(s.take(i as int) =~= s);
        }
    }

    /// Replay a captured provider report: the command must be pending.
    pub fn apply_report_captured_event(&mut self, command_id: &str, report: ProviderScanReport, line: usize) -> (r:
        Result<(), CorruptHistory>)
        requires
            old(self).wf(),
        ensures
            final(self).wf(),
            !old(self).commands_view().contains_key(command_id@) ==> *final(self) == *old(self) && (
            r matches Err(e) && e.line == line && e.reason@ == "captured report without prior enqueue"@),
            old(self).commands_view().contains_key(command_id@) && old(self).commands_view()[command_id@].status
                != ScanCommandStatus::Pending ==> *final(self) == *old(self) && (r matches Err(e)
                && e.line == line && e.reason@ == "captured report for non-pending scan command"@),
            old(self).commands_view().contains_key(command_id@) && old(self).commands_view()[command_id@].status
                == ScanCommandStatus::Pending ==> r is Ok && final(self).commands_view() == old(
                self,
            ).commands_view().insert(
                command_id@,
                CommandModel {
                    request: old(self).commands_view()[command_id@].request,
                    status: ScanCommandStatus::Applying,
                    origin: old(self).commands_view()[command_id@].origin,
                    captured: Some(report),
                },
            ) && final(self).order_view() == old(self).order_view() && final(self).pending_events()
                == old(self).pending_events() && final(self).trace() == old(self).trace(),
            keeps_settled(old(self).commands_view(), final(self).commands_view()),
    {
        let status = match self.command_status(command_id) {
            Some(s) => s,
            None => {
                return Err(corrupt(line, "captured report without prior enqueue"));
            },
        };
        if status != ScanCommandStatus::Pending {
            return Err(corrupt(line, "captured report for non-pending scan command"));
        }
        self.store_capture(command_id, report);
        Ok(())
    }

    /// Store a report that a provider just returned for a queued command.
    pub fn capture_report(&mut self, command_id: &str, report: ProviderScanReport) -> (r: Result<
        (),
        CorruptHistory,
    >)
        requires
            old(self).wf(),
        ensures
            final(self).wf(),
            !old(self).commands_view().contains_key(command_id@) ==> *final(self) == *old(self) && (
            r matches Err(e) && e.line == 0 && e.reason@
                == "captured scan command missing from in-memory queue"@),
            old(self).commands_view().contains_key(command_id@) ==> r is Ok && final(self).commands_view()
                == old(self).commands_view().insert(
                command_id@,
                CommandModel {
                    request: old(self).commands_view()[command_id@].request,
                    status: ScanCommandStatus::Applying,
                    origin: old(self).commands_view()[command_id@].origin,
                    captured: Some(report),
                },
            ) && final(self).order_view() == old(self).order_view() && final(self).pending_events()
                == old(self).pending_events() && final(self).trace() == old(self).trace(),
            unsettled(old(self).commands_view(), command_id@) ==> keeps_settled(
                old(self).commands_view(),
                final(self).commands_view(),
            ),
            old(self).commands_view().contains_key(command_id@) && old(self).commands_view()[command_id@].status
                == ScanCommandStatus::Pending ==> forall|c: String|
                c@ == command_id@ ==> #[trigger] queue_replays_to(
                    *old(self),
                    (ScanQueueEvent::ReportCaptured { command_id: c, report }),
                    *final(self),
                ),
    {
        let ghost captured = report;
        match self.command_status(command_id) {
            Some(_) => {
                self.store_capture(command_id, report);
                proof {
                    if old(self).commands_view()[command_id@].status == ScanCommandStatus::Pending {
                        lemma_capture_replays(*old(self), *self, command_id@, captured);
                    }
                }
                Ok(())
            },
            None => Err(corrupt(0, "captured scan command missing from in-memory queue")),
        }
    }

    /// Replay the completion of a command: its integration event, when the
    /// history holds one, joins the pending events, then the command turns
    /// completed and its captured report is dropped.
    pub fn apply_completed_event(
        &mut self,
        command_id: &str,
        findings_reported: usize,
        change_set: &FindingChangeSet,
        occurred_at_unix_ms: u64,
        pending_integration_event: Option<PendingIntegrationEvent>,
        line: usize,
    ) -> (r: Result<(), CorruptHistory>)
        requires
            old(self).wf(),
        ensures
            final(self).wf(),
            final(self).pending_events() == match pending_integration_event {
                Some(e) => old(self).pending_events().push(e),
                None => old(self).pending_events(),
            },
            final(self).order_view() == old(self).order_view(),
            match terminal_refusal(old(self).commands_view(), command_id@) {
                Some(reason) => final(self).commands_view() == old(self).commands_view()
                    && final(self).trace() == old(self).trace() && (r matches Err(e) && e.line
                    == line && e.reason@ == reason),
                None => r is Ok && final(self).commands_view() == with_status(
                    old(self).commands_view(),
                    command_id@,
                    ScanCommandStatus::Completed,
                    true,
                ) && pushed_one(final(self).trace(), old(self).trace()) && event_is(
                    final(self).trace()[0],
                    "scan-command-completed-"@ + decimal(line as nat),
                    occurred_at_unix_ms,
                    SystemEventKind::ScanCommandCompleted,
                    None,
                    component_of(old(self).commands_view(), command_id@),
                    Some(command_id@),
                    None,
                    count_u32(findings_reported),
                    None,
                    Some(change_detail(*change_set)),
                ),
            },
            keeps_settled(old(self).commands_view(), final(self).commands_view()),
    {
        let component_key = self.component_key_of(command_id);
        match pending_integration_event {
            Some(e) => {
                self.pending_integration_events.push(e);
            },
            None => {},
        }
        let ghost before = *self;
        match self.mark_terminal(line, command_id, ScanCommandStatus::Completed) {
            Ok(()) => {},
            Err(e) => {
                return Err(e);
            },
        }
        self.set_status(command_id, ScanCommandStatus::Completed, true);
        proof {
            assert(with_status(
                with_status(before.commands_view(), command_id@, ScanCommandStatus::Completed, false),
                command_id@,
                ScanCommandStatus::Completed,
                true,
            ) =~= with_status(before.commands_view(), command_id@, ScanCommandStatus::Completed, true));
        }
        let detail = change_detail_text(change_set);
        let ghost mid = self.trace();
        self.push_system_event(
            SystemEvent {
                event_id: owned("scan-command-completed-").concat(decimal_text(line as u128).as_str()),
                occurred_at_unix_ms,
                kind: SystemEventKind::ScanCommandCompleted,
                collection_key: None,
                component_key,
                command_id: Some(owned(command_id)),
                integration_event_id: None,
                finding_count: finding_count(findings_reported),
                retryable: None,
                detail: Some(detail),
            },
        );
        assert(self.trace().drop_first() =~= mid);
        Ok(())
    }

    /// Replay the failure of a command: it turns failed and its captured
    /// report is dropped.
    pub fn apply_failed_event(
        &mut self,
        command_id: &str,
        occurred_at_unix_ms: u64,
        retryable: bool,
        detail: &str,
        line: usize,
    ) -> (r: Result<(), CorruptHistory>)
        requires
            old(self).wf(),
        ensures
            final(self).wf(),
            final(self).pending_events() == old(self).pending_events(),
            final(self).order_view() == old(self).order_view(),
            match terminal_refusal(old(self).commands_view(), command_id@) {
                Some(reason) => *final(self) == *old(self) && (r matches Err(e) && e.line == line
                    && e.reason@ == reason),
                None => r is Ok && final(self).commands_view() == with_status(
                    old(self).commands_view(),
                    command_id@,
                    ScanCommandStatus::Failed,
                    true,
                ) && pushed_one(final(self).trace(), old(self).trace()) && event_is(
                    final(self).trace()[0],
                    "scan-command-failed-"@ + decimal(line as nat),
                    occurred_at_unix_ms,
                    SystemEventKind::ScanCommandFailed,
                    None,
                    component_of(old(self).commands_view(), command_id@),
                    Some(command_id@),
                    None,
                    None,
                    Some(retryable),
                    Some(detail@),
                ),
            },
            keeps_settled(old(self).commands_view(), final(self).commands_view()),
    {
        let component_key = self.component_key_of(command_id);
        let ghost before = *self;
        match self.mark_terminal(line, command_id, ScanCommandStatus::Failed) {
            Ok(()) => {},
            Err(e) => {
                return Err(e);
            },
        }
        self.set_status(command_id, ScanCommandStatus::Failed, true);
        proof {
            assert(with_status(
                with_status(before.commands_view(), command_id@, ScanCommandStatus::Failed, false),
                command_id@,
                ScanCommandStatus::Failed,
                true,
            ) =~= with_status(before.commands_view(), command_id@, ScanCommandStatus::Failed, true));
        }
        let ghost mid = self.trace();
        self.push_system_event(
            SystemEvent {
                event_id: owned("scan-command-failed-").concat(decimal_text(line as u128).as_str()),
                occurred_at_unix_ms,
                kind: SystemEventKind::ScanCommandFailed,
                collection_key: None,
                component_key,
                command_id: Some(owned(command_id)),
                integration_event_id: None,
                finding_count: None,
                retryable: Some(retryable),
                detail: Some(owned(detail)),
            },
        );
        assert(self.trace().drop_first() =~= mid);
        Ok(())
    }

    /// Replay a publication: the event leaves the pending events.
    pub fn apply_published_event(&mut self, event_id: &str, occurred_at_unix_ms: u64, line: usize)
        requires
            old(self).wf(),
        ensures
            final(self).wf(),
            final(self).pending_events() == without_event(old(self).pending_events(), event_id@),
            final(self).commands_view() == old(self).commands_view(),
            final(self).order_view() == old(self).order_view(),
            pushed_one(final(self).trace(), old(self).trace()),
            event_is(
                final(self).trace()[0],
                "scan-runtime-published-"@ + decimal(line as nat),
                occurred_at_unix_ms,
                SystemEventKind::IntegrationEventPublished,
                None,
                None,
                None,
                Some(event_id@),
                None,
                None,
                None,
            ),
            keeps_settled(old(self).commands_view(), final(self).commands_view()),
    {
        self.remove_pending_integration_event(event_id);
        let ghost mid = self.trace();
        self.push_system_event(
            SystemEvent {
                event_id: owned("scan-runtime-published-").concat(decimal_text(line as u128).as_str()),
                occurred_at_unix_ms,
                kind: SystemEventKind::IntegrationEventPublished,
                collection_key: None,
                component_key: None,
                command_id: None,
                integration_event_id: Some(owned(event_id)),
                finding_count: None,
                retryable: None,
                detail: None,
            },
        );
        assert(self.trace().drop_first() =~= mid);
    }

    /// Replay a failed publication: only the trace changes.
    pub fn apply_publish_failed_event(
        &mut self,
        event_id: &str,
        occurred_at_unix_ms: u64,
        retryable: bool,
        detail: &str,
        line: usize,
    )
        requires
            old(self).wf(),
        ensures
            final(self).wf(),
            final(self).pending_events() == old(self).pending_events(),
            final(self).commands_view() == old(self).commands_view(),
            final(self).order_view() == old(self).order_view(),
            pushed_one(final(self).trace(), old(self).trace()),
            event_is(
                final(self).trace()[0],
                "scan-runtime-publish-failed-"@ + decimal(line as nat),
                occurred_at_unix_ms,
                SystemEventKind::IntegrationEventPublicationFailed,
                None,
                None,
                None,
                Some(event_id@),
                None,
                Some(retryable),
                Some(detail@),
            ),
            keeps_settled(old(self).commands_view(), final(self).commands_view()),
    {
        let ghost mid = self.trace();
        self.push_system_event(
            SystemEvent {
                event_id: owned("scan-runtime-publish-failed-").concat(decimal_text(line as u128).as_str()),
                occurred_at_unix_ms,
                kind: SystemEventKind::IntegrationEventPublicationFailed,
                collection_key: None,
                component_key: None,
                command_id: None,
                integration_event_id: Some(owned(event_id)),
                finding_count: None,
                retryable: Some(retryable),
                detail: Some(owned(detail)),
            },
        );
        assert(self.trace().drop_first() =~= mid);
    }

    /// Replay one event of the history, found at `line`. A refused event
    /// leaves the queued commands as they were; no event changes a command
    /// that is terminal.
    pub fn apply_event(&mut self, event: ScanQueueEvent, line: usize) -> (r: Result<(), CorruptHistory>)
        requires
            old(self).wf(),
        ensures
            final(self).wf(),
            queue_event_replayed(old(self).commands_view(), final(self).commands_view(), event, r is Ok),
            queue_replayed(*old(self), *final(self), event, line, r),
            r matches Err(e) ==> e.line == line,
            keeps_settled(old(self).commands_view(), final(self).commands_view()),
    {
        match event {
            ScanQueueEvent::BatchEnqueued { commands, occurred_at_unix_ms } => {
                self.apply_batch_enqueued_event(commands, occurred_at_unix_ms, line)
            },
            ScanQueueEvent::Enqueued { command, occurred_at_unix_ms } => {
                self.apply_enqueued_event(command, occurred_at_unix_ms, line)
            },
            ScanQueueEvent::ReportCaptured { command_id, report } => {
                self.apply_report_captured_event(command_id.as_str(), report, line)
            },
            ScanQueueEvent::Completed {
                command_id,
                findings_reported,
                change_set,
                occurred_at_unix_ms,
                pending_integration_event,
            } => self.apply_completed_event(
                command_id.as_str(),
                findings_reported,
                &change_set,
                occurred_at_unix_ms,
                pending_integration_event,
                line,
            ),
            ScanQueueEvent::Failed { command_id, occurred_at_unix_ms, retryable, detail } => {
                self.apply_failed_event(
                    command_id.as_str(),
                    occurred_at_unix_ms,
                    retryable,
                    detail.as_str(),
                    line,
                )
            },
            ScanQueueEvent::IntegrationEventPublished { event_id, occurred_at_unix_ms } => {
                self.apply_published_event(event_id.as_str(), occurred_at_unix_ms, line);
                Ok(())
            },
            ScanQueueEvent::IntegrationEventPublicationFailed {
                event_id,
                occurred_at_unix_ms,
                retryable,
                detail,
            } => {
                self.apply_publish_failed_event(
                    event_id.as_str(),
                    occurred_at_unix_ms,
                    retryable,
                    detail.as_str(),
                    line,
                );
                Ok(())
            },
        }
    }
}

/// What running a command makes of the provider's answer: a valid report
/// goes on to be captured and applied; a provider error, or a report that
/// breaks the provider contract, fails the command.
pub fn provider_answer_outcome(
    command_id: &str,
    provider_key: &str,
    request: &ScanRequest,
    answer: Result<ProviderScanReport, FindingProviderError>,
) -> (r: Result<ProviderScanReport, FailedScanCommand>)
    ensures
        match answer {
            Err(e) => r matches Err(f) && f.command_id@ == command_id@ && f.error_code@
                == "provider-error"@ && f.retryable == e.retryable && f.detail@ == e.message@,
            Ok(report) => match contract_violation(provider_key@, *request, report) {
                Some(v) => r matches Err(f) && f.command_id@ == command_id@ && f.error_code@
                    == "provider-error"@ && !f.retryable && f.detail@ == violation_message(v),
                None => r == Ok::<ProviderScanReport, FailedScanCommand>(report),
            },
        },
{
    match answer {
        Err(e) => Err(
            FailedScanCommand {
                command_id: owned(command_id),
                error_code: owned("provider-error"),
                retryable: e.retryable,
                detail: e.message,
            },
        ),
        Ok(report) => match validate_provider_scan_report(provider_key, request, &report) {
            Ok(()) => Ok(report),
            Err(v) => Err(
                FailedScanCommand {
                    command_id: owned(command_id),
                    error_code: owned("provider-error"),
                    retryable: false,
                    detail: owned(v.message()),
                },
            ),
        },
    }
}

/// The outcome of applying a captured report: completed with its change
/// set, or failed when the report does not fit managed ownership.
pub fn applied_outcome(
    command_id: &str,
    provider_key: &str,
    findings_reported: usize,
    applied: Result<FindingChangeSet, FindingIngestionError>,
) -> (r: RunNextScanResult)
    ensures
        match applied {
            Ok(c) => r matches RunNextScanResult::Completed(x) && x.command_id@ == command_id@
                && x.provider_key@ == provider_key@ && x.findings_reported == findings_reported
                && x.change_set == c,
            Err(e) => r matches RunNextScanResult::Failed(f) && f.command_id@ == command_id@
                && f.error_code@ == (match e {
                FindingIngestionError::UnmanagedComponent => "unmanaged-component"@,
                FindingIngestionError::UnmanagedArtifact => "unmanaged-artifact"@,
            }) && !f.retryable && f.detail@
                == "provider report cannot be applied to managed ownership"@,
        },
{
    match applied {
        Ok(change_set) => RunNextScanResult::Completed(
            CompletedScanCommand {
                command_id: owned(command_id),
                provider_key: owned(provider_key),
                findings_reported,
                change_set,
            },
        ),
        Err(e) => RunNextScanResult::Failed(
            FailedScanCommand {
                command_id: owned(command_id),
                error_code: owned(e.as_str()),
                retryable: false,
                detail: owned("provider report cannot be applied to managed ownership"),
            },
        ),
    }
}

/// The integration event that announces the completion `result` of a queued
/// command: named after the command, and carrying its request's component,
/// artifact and freshness with the result's provider, count and change set.
pub open spec fn is_completion_event(
    m: Map<Seq<char>, CommandModel>,
    result: CompletedScanCommand,
    x: PendingIntegrationEvent,
) -> bool {
    let q = m[result.command_id@].request;
    &&& x.event_id@ == "integration-event-scan-command-completed-"@ + result.command_id@
    &&& x.event matches crate::integration::integration_events::IntegrationEvent::ScanCommandCompleted {
        command_id: i,
        component_key: c,
        artifact: a,
        provider_key: p,
        freshness: f,
        findings_reported: n,
        change_set: s,
    } && i@ == result.command_id@ && c@ == q.0 && a@ == q.1 && p@ == result.provider_key@ && f
        == q.2 && n == result.findings_reported && s == result.change_set
}

/// What replaying one history event, found at `line`, does to the queue:
/// its commands (as `queue_event_replayed` says), its run order, its pending
/// integration events and its trace, and how it answers.
pub open spec fn queue_replayed(
    a: ScanCommandQueue,
    b: ScanCommandQueue,
    event: ScanQueueEvent,
    line: usize,
    r: Result<(), CorruptHistory>,
) -> bool {
    &&& queue_event_replayed(a.commands_view(), b.commands_view(), event, r is Ok)
    &&& (r matches Err(e) ==> e.line == line)
    &&& match event {
        ScanQueueEvent::BatchEnqueued { commands, occurred_at_unix_ms } => if r is Ok {
            &&& b.order_view() == a.order_view() + batch_ids(commands@)
            &&& b.pending_events() == a.pending_events()
            &&& batch_traced(b.trace(), a.trace(), commands@, Some(line), occurred_at_unix_ms)
        } else {
            b == a && r->Err_0.reason@ == "duplicate scan command id"@
        },
        ScanQueueEvent::Enqueued { command, occurred_at_unix_ms } => if r is Ok {
            &&& b.order_view() == a.order_view().push(command.command_id@)
            &&& b.pending_events() == a.pending_events()
            &&& pushed_one(b.trace(), a.trace())
            &&& enqueue_event_is(
                b.trace()[0],
                command,
                "scan-command-enqueued-"@ + decimal(line as nat),
                occurred_at_unix_ms,
            )
        } else {
            b == a && r->Err_0.reason@ == "duplicate scan command id"@
        },
        ScanQueueEvent::ReportCaptured { command_id, .. } => if r is Ok {
            &&& b.order_view() == a.order_view()
            &&& b.pending_events() == a.pending_events()
            &&& b.trace() == a.trace()
        } else {
            b == a && r->Err_0.reason@ == (if !a.commands_view().contains_key(command_id@) {
                "captured report without prior enqueue"@
            } else {
                "captured report for non-pending scan command"@
            })
        },
        ScanQueueEvent::Completed {
            command_id,
            findings_reported,
            change_set,
            occurred_at_unix_ms,
            pending_integration_event,
        } => {
            &&& b.order_view() == a.order_view()
            &&& b.pending_events() == match pending_integration_event {
                Some(p) => a.pending_events().push(p),
                None => a.pending_events(),
            }
            &&& match terminal_refusal(a.commands_view(), command_id@) {
                Some(reason) => b.trace() == a.trace() && r->Err_0.reason@ == reason,
                None => pushed_one(b.trace(), a.trace()) && event_is(
                    b.trace()[0],
                    "scan-command-completed-"@ + decimal(line as nat),
                    occurred_at_unix_ms,
                    SystemEventKind::ScanCommandCompleted,
                    None,
                    component_of(a.commands_view(), command_id@),
                    Some(command_id@),
                    None,
                    count_u32(findings_reported),
                    None,
                    Some(change_detail(change_set)),
                ),
            }
        },
        ScanQueueEvent::Failed { command_id, occurred_at_unix_ms, retryable, detail } => {
            &&& b.order_view() == a.order_view()
            &&& b.pending_events() == a.pending_events()
            &&& match terminal_refusal(a.commands_view(), command_id@) {
                Some(reason) => b == a && r->Err_0.reason@ == reason,
                None => pushed_one(b.trace(), a.trace()) && event_is(
                    b.trace()[0],
                    "scan-command-failed-"@ + decimal(line as nat),
                    occurred_at_unix_ms,
                    SystemEventKind::ScanCommandFailed,
                    None,
                    component_of(a.commands_view(), command_id@),
                    Some(command_id@),
                    None,
                    None,
                    Some(retryable),
                    Some(detail@),
                ),
            }
        },
        ScanQueueEvent::IntegrationEventPublished { event_id, occurred_at_unix_ms } => {
            &&& b.order_view() == a.order_view()
            &&& b.pending_events() == without_event(a.pending_events(), event_id@)
            &&& pushed_one(b.trace(), a.trace())
            &&& event_is(
                b.trace()[0],
                "scan-runtime-published-"@ + decimal(line as nat),
                occurred_at_unix_ms,
                SystemEventKind::IntegrationEventPublished,
                None,
                None,
                None,
                Some(event_id@),
                None,
                None,
                None,
            )
        },
        ScanQueueEvent::IntegrationEventPublicationFailed {
            event_id,
            occurred_at_unix_ms,
            retryable,
            detail,
        } => {
            &&& b.order_view() == a.order_view()
            &&& b.pending_events() == a.pending_events()
            &&& pushed_one(b.trace(), a.trace())
            &&& event_is(
                b.trace()[0],
                "scan-runtime-publish-failed-"@ + decimal(line as nat),
                occurred_at_unix_ms,
                SystemEventKind::IntegrationEventPublicationFailed,
                None,
                None,
                None,
                Some(event_id@),
                None,
                Some(retryable),
                Some(detail@),
            )
        },
    }
}

/// The two queues hold the same commands, run order and pending integration
/// events: all that a history of the queue rebuilds but the trace.
pub open spec fn queue_same(a: ScanCommandQueue, b: ScanCommandQueue) -> bool {
    &&& b.commands_view() == a.commands_view()
    &&& b.order_view() == a.order_view()
    &&& b.pending_events() == a.pending_events()
}

/// A queue with nothing in it.
pub open spec fn queue_fresh(q: ScanCommandQueue) -> bool {
    &&& q.commands_view().is_empty()
    &&& q.order_view().len() == 0
    &&& q.pending_events().len() == 0
    &&& q.trace().len() == 0
}

/// The queues that replaying `history` passes through: it starts from an
/// empty queue, and the event on line `i + 1` takes `qs[i]` to `qs[i + 1]`
/// without being refused.
pub open spec fn queue_replay_trace(history: Seq<ScanQueueEvent>, qs: Seq<ScanCommandQueue>) -> bool {
    &&& qs.len() == history.len() + 1
    &&& queue_fresh(qs[0])
    &&& forall|i: int|
        0 <= i < history.len() ==> queue_replayed(
            qs[i],
            qs[i + 1],
            #[trigger] history[i],
            (i + 1) as usize,
            Ok(()),
        )
}

/// Replaying `history` goes through its first `line - 1` events, and the
/// event on `line` is refused with `e`.
pub open spec fn queue_replay_refused(history: Seq<ScanQueueEvent>, line: int, e: CorruptHistory) -> bool {
    exists|qs: Seq<ScanCommandQueue>, b: ScanCommandQueue|
        queue_replay_trace(history.take(line - 1), qs) && #[trigger] queue_replayed(
            qs.last(),
            b,
            history[line - 1],
            line as usize,
            Err(e),
        )
}

/// Replaying `history` is never refused, and whatever queues it passes
/// through, it ends with the commands, run order and pending events of `q`.
pub open spec fn queue_rebuilds(history: Seq<ScanQueueEvent>, q: ScanCommandQueue) -> bool {
    &&& forall|qs: Seq<ScanCommandQueue>|
        #[trigger] queue_replay_trace(history, qs) ==> queue_same(q, qs.last())
    &&& forall|line: int, e: CorruptHistory|
        1 <= line <= history.len() ==> !#[trigger] queue_replay_refused(history, line, e)
}

/// Replaying `e`, on any queue with the commands, order and pending events
/// of `a` and at any line, is accepted and leaves those of `b`.
pub open spec fn queue_replays_to(a: ScanCommandQueue, e: ScanQueueEvent, b: ScanCommandQueue) -> bool {
    forall|a2: ScanCommandQueue, c: ScanCommandQueue, line: usize, r: Result<(), CorruptHistory>|
        queue_same(a, a2) && #[trigger] queue_replayed(a2, c, e, line, r) ==> r is Ok && queue_same(b, c)
}

/// The empty history rebuilds an empty queue.
pub proof fn lemma_empty_queue_is_rebuilt(q: ScanCommandQueue)
    requires
        queue_fresh(q),
    ensures
        queue_rebuilds(Seq::<ScanQueueEvent>::empty(), q),
{
    assert forall|qs: Seq<ScanCommandQueue>|
        #[trigger] queue_replay_trace(Seq::<ScanQueueEvent>::empty(), qs) implies queue_same(
        q,
        qs.last(),
    ) by {
        let t = qs.last();
        assert(t.commands_view() =~= q.commands_view());
        assert(t.order_view() =~= q.order_view());
        assert(t.pending_events() =~= q.pending_events());
    }
}

/// Live work keeps a queue's history faithful: when `history` rebuilds `a`,
/// and one live step from `a` to `b` is what replaying `e` does, then the
/// history followed by `e` rebuilds `b`, and replaying it is never refused.
pub proof fn lemma_queue_step_is_rebuilt(
    history: Seq<ScanQueueEvent>,
    a: ScanCommandQueue,
    e: ScanQueueEvent,
    b: ScanCommandQueue,
)
    requires
        queue_rebuilds(history, a),
        queue_replays_to(a, e, b),
    ensures
        queue_rebuilds(history.push(e), b),
{
    let h = history;
    let h2 = history.push(e);
    let n: int = h.len() as int;
    assert(h2.take(n) =~= h);
    assert forall|qs: Seq<ScanCommandQueue>| #[trigger] queue_replay_trace(h2, qs) implies queue_same(
        b,
        qs.last(),
    ) by {
        let prefix = qs.drop_last();
        assert forall|i: int| 0 <= i < h.len() implies queue_replayed(
            prefix[i],
            prefix[i + 1],
            #[trigger] h[i],
            (i + 1) as usize,
            Ok(()),
        ) by {
            assert(h2[i] == h[i]);
        }
        assert(queue_replay_trace(h, prefix));
        assert(queue_same(a, prefix.last()));
        assert(h2[n] == e);
        assert(queue_replayed(qs[n], qs[n + 1], e, (n + 1) as usize, Ok(())));
    }
    assert forall|line: int, err: CorruptHistory|
        1 <= line <= h2.len() implies !#[trigger] queue_replay_refused(h2, line, err) by {
        if queue_replay_refused(h2, line, err) {
            let (qs, c) = choose|qs: Seq<ScanCommandQueue>, c: ScanCommandQueue|
                queue_replay_trace(h2.take(line - 1), qs) && #[trigger] queue_replayed(
                    qs.last(),
                    c,
                    h2[line - 1],
                    line as usize,
                    Err(err),
                );
            if line <= n {
                assert(h2.take(line - 1) =~= h.take(line - 1));
                assert(h2[line - 1] == h[line - 1]);
                assert(queue_replay_refused(h, line, err));
            } else {
                assert(h2.take(line - 1) =~= h);
                assert(queue_same(a, qs.last()));
                assert(h2[line - 1] == e);
            }
        }
    }
}

/// Enqueuing a batch of fresh commands is what replaying its batch event does.
proof fn lemma_batch_replays(a: ScanCommandQueue, b: ScanCommandQueue, commands: Vec<EnqueuedCommand>, t: u64)
    requires
        fresh_batch(a.commands_view(), commands@),
        b.commands_view() == with_batch(a.commands_view(), commands@),
        b.order_view() == a.order_view() + batch_ids(commands@),
        b.pending_events() == a.pending_events(),
    ensures
        queue_replays_to(a, ScanQueueEvent::BatchEnqueued { commands, occurred_at_unix_ms: t }, b),
{
    let e = ScanQueueEvent::BatchEnqueued { commands, occurred_at_unix_ms: t };
    assert forall|a2: ScanCommandQueue, q: ScanCommandQueue, line: usize, r: Result<(), CorruptHistory>|
        queue_same(a, a2) && #[trigger] queue_replayed(a2, q, e, line, r) implies r is Ok
            && queue_same(b, q) by {
    }
}

/// Enqueuing one fresh command is what replaying its enqueue event does.
proof fn lemma_enqueue_replays(a: ScanCommandQueue, b: ScanCommandQueue, command: EnqueuedCommand, t: u64)
    requires
        !a.commands_view().contains_key(command.command_id@),
        b.commands_view() == a.commands_view().insert(command.command_id@, enqueued_model(command)),
        b.order_view() == a.order_view().push(command.command_id@),
        b.pending_events() == a.pending_events(),
    ensures
        queue_replays_to(a, ScanQueueEvent::Enqueued { command, occurred_at_unix_ms: t }, b),
{
    let e = ScanQueueEvent::Enqueued { command, occurred_at_unix_ms: t };
    assert forall|a2: ScanCommandQueue, q: ScanCommandQueue, line: usize, r: Result<(), CorruptHistory>|
        queue_same(a, a2) && #[trigger] queue_replayed(a2, q, e, line, r) implies r is Ok
            && queue_same(b, q) by {
    }
}

/// Capturing the report of a pending command is what replaying its capture
/// event does.
proof fn lemma_capture_replays(a: ScanCommandQueue, b: ScanCommandQueue, id: Seq<char>, report: ProviderScanReport)
    requires
        a.commands_view().contains_key(id),
        a.commands_view()[id].status == ScanCommandStatus::Pending,
        b.commands_view() == a.commands_view().insert(
            id,
            CommandModel {
                request: a.commands_view()[id].request,
                status: ScanCommandStatus::Applying,
                origin: a.commands_view()[id].origin,
                captured: Some(report),
            },
        ),
        b.order_view() == a.order_view(),
        b.pending_events() == a.pending_events(),
    ensures
        forall|c: String|
            c@ == id ==> #[trigger] queue_replays_to(
                a,
                ScanQueueEvent::ReportCaptured { command_id: c, report },
                b,
            ),
{
    assert forall|c: String| c@ == id implies #[trigger] queue_replays_to(
        a,
        ScanQueueEvent::ReportCaptured { command_id: c, report },
        b,
    ) by {
        let e = ScanQueueEvent::ReportCaptured { command_id: c, report };
        assert forall|a2: ScanCommandQueue, q: ScanCommandQueue, line: usize, r: Result<(), CorruptHistory>|
            queue_same(a, a2) && #[trigger] queue_replayed(a2, q, e, line, r) implies r is Ok
                && queue_same(b, q) by {
        }
    }
}

/// Completing a queued command that is not terminal, announcing `p`, is
/// what replaying its completion event does.
proof fn lemma_completion_replays(
    a: ScanCommandQueue,
    b: ScanCommandQueue,
    id: Seq<char>,
    findings_reported: usize,
    change_set: FindingChangeSet,
    t: u64,
    p: PendingIntegrationEvent,
)
    requires
        terminal_refusal(a.commands_view(), id) is None,
        b.commands_view() == with_status(a.commands_view(), id, ScanCommandStatus::Completed, true),
        b.order_view() == a.order_view(),
        b.pending_events() == a.pending_events().push(p),
    ensures
        forall|c: String|
            c@ == id ==> #[trigger] queue_replays_to(
                a,
                ScanQueueEvent::Completed {
                    command_id: c,
                    findings_reported,
                    change_set,
                    occurred_at_unix_ms: t,
                    pending_integration_event: Some(p),
                },
                b,
            ),
{
    assert forall|c: String| c@ == id implies #[trigger] queue_replays_to(
        a,
        ScanQueueEvent::Completed {
            command_id: c,
            findings_reported,
            change_set,
            occurred_at_unix_ms: t,
            pending_integration_event: Some(p),
        },
        b,
    ) by {
        let e = ScanQueueEvent::Completed {
            command_id: c,
            findings_reported,
            change_set,
            occurred_at_unix_ms: t,
            pending_integration_event: Some(p),
        };
        assert forall|a2: ScanCommandQueue, q: ScanCommandQueue, line: usize, r: Result<(), CorruptHistory>|
            queue_same(a, a2) && #[trigger] queue_replayed(a2, q, e, line, r) implies r is Ok
                && queue_same(b, q) by {
        }
    }
}

/// Failing a queued command that is not terminal is what replaying its
/// failure event does.
proof fn lemma_failure_replays(
    a: ScanCommandQueue,
    b: ScanCommandQueue,
    id: Seq<char>,
    t: u64,
    retryable: bool,
    detail: Seq<char>,
)
    requires
        terminal_refusal(a.commands_view(), id) is None,
        b.commands_view() == with_status(a.commands_view(), id, ScanCommandStatus::Failed, true),
        b.order_view() == a.order_view(),
        b.pending_events() == a.pending_events(),
    ensures
        forall|c: String, d: String|
            c@ == id && d@ == detail ==> #[trigger] queue_replays_to(
                a,
                ScanQueueEvent::Failed { command_id: c, occurred_at_unix_ms: t, retryable, detail: d },
                b,
            ),
{
    assert forall|c: String, d: String| c@ == id && d@ == detail implies #[trigger] queue_replays_to(
        a,
        ScanQueueEvent::Failed { command_id: c, occurred_at_unix_ms: t, retryable, detail: d },
        b,
    ) by {
        let e = ScanQueueEvent::Failed { command_id: c, occurred_at_unix_ms: t, retryable, detail: d };
        assert forall|a2: ScanCommandQueue, q: ScanCommandQueue, line: usize, r: Result<(), CorruptHistory>|
            queue_same(a, a2) && #[trigger] queue_replayed(a2, q, e, line, r) implies r is Ok
                && queue_same(b, q) by {
        }
    }
}

/// A publication outcome is what replaying its event does: a publication
/// removes the event from the pending events, a failure keeps them.
proof fn lemma_publication_replays(
    a: ScanCommandQueue,
    b: ScanCommandQueue,
    id: Seq<char>,
    t: u64,
    outcome: Result<(), IntegrationEventPublishError>,
)
    requires
        b.commands_view() == a.commands_view(),
        b.order_view() == a.order_view(),
        outcome is Ok ==> b.pending_events() == without_event(a.pending_events(), id),
        outcome is Err ==> b.pending_events() == a.pending_events(),
    ensures
        outcome is Ok ==> forall|c: String|
            c@ == id ==> #[trigger] queue_replays_to(
                a,
                ScanQueueEvent::IntegrationEventPublished { event_id: c, occurred_at_unix_ms: t },
                b,
            ),
        outcome matches Err(x) ==> forall|c: String, d: String|
            c@ == id && d@ == x.message@ ==> #[trigger] queue_replays_to(
                a,
                ScanQueueEvent::IntegrationEventPublicationFailed {
                    event_id: c,
                    occurred_at_unix_ms: t,
                    retryable: x.retryable,
                    detail: d,
                },
                b,
            ),
{
    if outcome is Ok {
        assert forall|c: String| c@ == id implies #[trigger] queue_replays_to(
            a,
            ScanQueueEvent::IntegrationEventPublished { event_id: c, occurred_at_unix_ms: t },
            b,
        ) by {
            let e = ScanQueueEvent::IntegrationEventPublished { event_id: c, occurred_at_unix_ms: t };
            assert forall|a2: ScanCommandQueue, q: ScanCommandQueue, line: usize, r: Result<(), CorruptHistory>|
                queue_same(a, a2) && #[trigger] queue_replayed(a2, q, e, line, r) implies r is Ok
                    && queue_same(b, q) by {
            }
        }
    }
    if let Err(x) = outcome {
        assert forall|c: String, d: String| c@ == id && d@ == x.message@ implies #[trigger] queue_replays_to(
            a,
            ScanQueueEvent::IntegrationEventPublicationFailed {
                event_id: c,
                occurred_at_unix_ms: t,
                retryable: x.retryable,
                detail: d,
            },
            b,
        ) by {
            let e = ScanQueueEvent::IntegrationEventPublicationFailed {
                event_id: c,
                occurred_at_unix_ms: t,
                retryable: x.retryable,
                detail: d,
            };
            assert forall|a2: ScanCommandQueue, q: ScanCommandQueue, line: usize, r: Result<(), CorruptHistory>|
                queue_same(a, a2) && #[trigger] queue_replayed(a2, q, e, line, r) implies r is Ok
                    && queue_same(b, q) by {
            }
        }
    }
}

/// A session of live work keeps a queue's history faithful: when `history`
/// rebuilds the first queue and each step of the session is what replaying
/// its event does, the history followed by those events rebuilds the last
/// queue, its pending events and run order included.
pub proof fn lemma_queue_session_is_rebuilt(
    history: Seq<ScanQueueEvent>,
    qs: Seq<ScanCommandQueue>,
    events: Seq<ScanQueueEvent>,
)
    requires
        qs.len() == events.len() + 1,
        queue_rebuilds(history, qs[0]),
        forall|i: int| 0 <= i < events.len() ==> queue_replays_to(qs[i], #[trigger] events[i], qs[i + 1]),
    ensures
        queue_rebuilds(history + events, qs.last()),
    decreases events.len(),
{
    if events.len() == 0 {
        assert(history + events =~= history);
    } else {
        let n = events.len() - 1;
        let init = events.drop_last();
        let qinit = qs.drop_last();
        assert forall|i: int| 0 <= i < init.len() implies queue_replays_to(
            qinit[i],
            #[trigger] init[i],
            qinit[i + 1],
        ) by {
            assert(init[i] == events[i]);
            assert(queue_replays_to(qs[i], events[i], qs[i + 1]));
        }
        lemma_queue_session_is_rebuilt(history, qinit, init);
        assert(queue_replays_to(qs[n], events[n], qs[n + 1]));
        lemma_queue_step_is_rebuilt(history + init, qs[n], events[n], qs[n + 1]);
        assert((history + init).push(events[n]) =~= history + events);
    }
}

/// A live step that changes nothing the history rebuilds keeps the history
/// faithful as it is.
pub proof fn lemma_queue_idle_step_is_rebuilt(history: Seq<ScanQueueEvent>, a: ScanCommandQueue, b: ScanCommandQueue)
    requires
        queue_rebuilds(history, a),
        queue_same(a, b),
    ensures
        queue_rebuilds(history, b),
{
}

impl ScanCommandQueue {
    /// The integration event that the completion of a command announces.
    pub fn completion_event(&self, result: &CompletedScanCommand) -> (r: Result<
        PendingIntegrationEvent,
        CorruptHistory,
    >)
        requires
            self.wf(),
        ensures
            !self.commands_view().contains_key(result.command_id@) ==> (r matches Err(e) && e.line
                == 0 && e.reason@ == "completed scan command missing from in-memory queue"@),
            self.commands_view().contains_key(result.command_id@) ==> (r matches Ok(x)
                && is_completion_event(self.commands_view(), *result, x)),
    {
        match self.command_request(result.command_id.as_str()) {
            Some(request) => Ok(
                PendingIntegrationEvent::scan_command_completed(
                    result.command_id.as_str(),
                    request.component_key.as_str(),
                    request.artifact.clone(),
                    result.provider_key.as_str(),
                    request.freshness,
                    result.findings_reported,
                    result.change_set,
                ),
            ),
            None => Err(corrupt(0, "completed scan command missing from in-memory queue")),
        }
    }

    /// Record the completion of a running command: it turns completed, its
    /// captured report is dropped, and its integration event (the one
    /// `completion_event` gives) waits for publication.
    pub fn record_completed_outcome(
        &mut self,
        result: &CompletedScanCommand,
        occurred_at_unix_ms: u64,
    ) -> (r: Result<(), CorruptHistory>)
        requires
            old(self).wf(),
        ensures
            final(self).wf(),
            final(self).order_view() == old(self).order_view(),
            !old(self).commands_view().contains_key(result.command_id@) ==> *final(self) == *old(self)
                && (r matches Err(e) && e.line == 0 && e.reason@
                == "completed scan command missing from in-memory queue"@),
            old(self).commands_view().contains_key(result.command_id@) ==> r is Ok
                && final(self).commands_view() == with_status(
                old(self).commands_view(),
                result.command_id@,
                ScanCommandStatus::Completed,
                true,
            ) && final(self).pending_events().len() == old(self).pending_events().len() + 1
                && final(self).pending_events().drop_last() == old(self).pending_events()
                && is_completion_event(
                old(self).commands_view(),
                *result,
                final(self).pending_events().last(),
            ) && pushed_one(final(self).trace(), old(self).trace()) && event_is(
                final(self).trace()[0],
                "scan-command-completed-live-"@ + result.command_id@ + "-"@ + decimal(
                    occurred_at_unix_ms as nat,
                ),
                occurred_at_unix_ms,
                SystemEventKind::ScanCommandCompleted,
                None,
                component_of(old(self).commands_view(), result.command_id@),
                Some(result.command_id@),
                None,
                count_u32(result.findings_reported),
                None,
                Some(change_detail(result.change_set)),
            ),
            unsettled(old(self).commands_view(), result.command_id@) ==> keeps_settled(
                old(self).commands_view(),
                final(self).commands_view(),
            ),
            terminal_refusal(old(self).commands_view(), result.command_id@) is None ==> forall|c: String|
                c@ == result.command_id@ ==> #[trigger] queue_replays_to(
                    *old(self),
                    (ScanQueueEvent::Completed {
                        command_id: c,
                        findings_reported: result.findings_reported,
                        change_set: result.change_set,
                        occurred_at_unix_ms,
                        pending_integration_event: Some(final(self).pending_events().last()),
                    }),
                    *final(self),
                ),
    {
        let event = match self.completion_event(result) {
            Ok(x) => x,
            Err(e) => {
                return Err(e);
            },
        };
        let component_key = match self.component_key_of(result.command_id.as_str()) {
            Some(k) => k,
            None => {
                return Err(corrupt(0, "completed scan command missing from in-memory queue"));
            },
        };
        self.set_status(result.command_id.as_str(), ScanCommandStatus::Completed, true);
        let ghost before = self.pending_integration_events@;
        self.pending_integration_events.push(event);
        assert(self.pending_integration_events@.drop_last() =~= before);
        let detail = change_detail_text(&result.change_set);
        let ghost mid = self.trace();
        self.push_system_event(
            SystemEvent {
                event_id: owned("scan-command-completed-live-").concat(result.command_id.as_str()).concat(
                    "-",
                ).concat(decimal_text(occurred_at_unix_ms as u128).as_str()),
                occurred_at_unix_ms,
                kind: SystemEventKind::ScanCommandCompleted,
                collection_key: None,
                component_key: Some(component_key),
                command_id: Some(result.command_id.clone()),
                integration_event_id: None,
                finding_count: finding_count(result.findings_reported),
                retryable: None,
                detail: Some(detail),
            },
        );
        assert(self.trace().drop_first() =~= mid);
        proof {
            assert(self.pending_events() =~= old(self).pending_events().push(self.pending_events().last()));
            if terminal_refusal(old(self).commands_view(), result.command_id@) is None {
                lemma_completion_replays(
                    *old(self),
                    *self,
                    result.command_id@,
                    result.findings_reported,
                    result.change_set,
                    occurred_at_unix_ms,
                    self.pending_events().last(),
                );
            }
        }
        Ok(())
    }

    /// Record the failure of a running command: it turns failed and its
    /// captured report is dropped.
    pub fn record_failed_outcome(&mut self, result: &FailedScanCommand, occurred_at_unix_ms: u64) -> (r:
        Result<(), CorruptHistory>)
        requires
            old(self).wf(),
        ensures
            final(self).wf(),
            final(self).order_view() == old(self).order_view(),
            final(self).pending_events() == old(self).pending_events(),
            !old(self).commands_view().contains_key(result.command_id@) ==> *final(self) == *old(self)
                && (r matches Err(e) && e.line == 0 && e.reason@
                == "failed scan command missing from in-memory queue"@),
            old(self).commands_view().contains_key(result.command_id@) ==> r is Ok
                && final(self).commands_view() == with_status(
                old(self).commands_view(),
                result.command_id@,
                ScanCommandStatus::Failed,
                true,
            ) && pushed_one(final(self).trace(), old(self).trace()) && event_is(
                final(self).trace()[0],
                "scan-command-failed-live-"@ + result.command_id@ + "-"@ + decimal(
                    occurred_at_unix_ms as nat,
                ),
                occurred_at_unix_ms,
                SystemEventKind::ScanCommandFailed,
                None,
                component_of(old(self).commands_view(), result.command_id@),
                Some(result.command_id@),
                None,
                None,
                Some(result.retryable),
                Some(result.detail@),
            ),
            unsettled(old(self).commands_view(), result.command_id@) ==> keeps_settled(
                old(self).commands_view(),
                final(self).commands_view(),
            ),
            terminal_refusal(old(self).commands_view(), result.command_id@) is None ==> forall|
                c: String,
                d: String,
            |
                c@ == result.command_id@ && d@ == result.detail@ ==> #[trigger] queue_replays_to(
                    *old(self),
                    (ScanQueueEvent::Failed {
                        command_id: c,
                        occurred_at_unix_ms,
                        retryable: result.retryable,
                        detail: d,
                    }),
                    *final(self),
                ),
    {
        let component_key = match self.component_key_of(result.command_id.as_str()) {
            Some(k) => k,
            None => {
                return Err(corrupt(0, "failed scan command missing from in-memory queue"));
            },
        };
        self.set_status(result.command_id.as_str(), ScanCommandStatus::Failed, true);
        let ghost mid = self.trace();
        self.push_system_event(
            SystemEvent {
                event_id: owned("scan-command-failed-live-").concat(result.command_id.as_str()).concat(
                    "-",
                ).concat(decimal_text(occurred_at_unix_ms as u128).as_str()),
                occurred_at_unix_ms,
                kind: SystemEventKind::ScanCommandFailed,
                collection_key: None,
                component_key: Some(component_key),
                command_id: Some(result.command_id.clone()),
                integration_event_id: None,
                finding_count: None,
                retryable: Some(result.retryable),
                detail: Some(result.detail.clone()),
            },
        );
        assert(self.trace().drop_first() =~= mid);
        proof {
            if terminal_refusal(old(self).commands_view(), result.command_id@) is None {
                lemma_failure_replays(
                    *old(self),
                    *self,
                    result.command_id@,
                    occurred_at_unix_ms,
                    result.retryable,
                    result.detail@,
                );
            }
        }
        Ok(())
    }

    /// Record that a pending integration event was published.
    pub fn record_published(&mut self, event_id: &str, occurred_at_unix_ms: u64)
        requires
            old(self).wf(),
        ensures
            final(self).wf(),
            final(self).pending_events() == without_event(old(self).pending_events(), event_id@),
            final(self).commands_view() == old(self).commands_view(),
            final(self).order_view() == old(self).order_view(),
            pushed_one(final(self).trace(), old(self).trace()),
            event_is(
                final(self).trace()[0],
                "scan-runtime-published-live-"@ + decimal(occurred_at_unix_ms as nat),
                occurred_at_unix_ms,
                SystemEventKind::IntegrationEventPublished,
                None,
                None,
                None,
                Some(event_id@),
                None,
                None,
                None,
            ),
            keeps_settled(old(self).commands_view(), final(self).commands_view()),
    {
        self.remove_pending_integration_event(event_id);
        let ghost mid = self.trace();
        self.push_system_event(
            SystemEvent {
                event_id: owned("scan-runtime-published-live-").concat(
                    decimal_text(occurred_at_unix_ms as u128).as_str(),
                ),
                occurred_at_unix_ms,
                kind: SystemEventKind::IntegrationEventPublished,
                collection_key: None,
                component_key: None,
                command_id: None,
                integration_event_id: Some(owned(event_id)),
                finding_count: None,
                retryable: None,
                detail: None,
            },
        );
        assert(self.trace().drop_first() =~= mid);
    }

    /// Record that publishing an integration event failed; it stays pending.
    pub fn record_publish_failed(&mut self, failure: &IntegrationEventPublicationFailure, occurred_at_unix_ms: u64)
        requires
            old(self).wf(),
        ensures
            final(self).wf(),
            final(self).pending_events() == old(self).pending_events(),
            final(self).commands_view() == old(self).commands_view(),
            final(self).order_view() == old(self).order_view(),
            pushed_one(final(self).trace(), old(self).trace()),
            event_is(
                final(self).trace()[0],
                "scan-runtime-publish-failed-live-"@ + decimal(occurred_at_unix_ms as nat),
                occurred_at_unix_ms,
                SystemEventKind::IntegrationEventPublicationFailed,
                None,
                None,
                None,
                Some(failure.event_id@),
                None,
                Some(failure.retryable),
                Some(failure.message@),
            ),
            keeps_settled(old(self).commands_view(), final(self).commands_view()),
    {
        let ghost mid = self.trace();
        self.push_system_event(
            SystemEvent {
                event_id: owned("scan-runtime-publish-failed-live-").concat(
                    decimal_text(occurred_at_unix_ms as u128).as_str(),
                ),
                occurred_at_unix_ms,
                kind: SystemEventKind::IntegrationEventPublicationFailed,
                collection_key: None,
                component_key: None,
                command_id: None,
                integration_event_id: Some(failure.event_id.clone()),
                finding_count: None,
                retryable: Some(failure.retryable),
                detail: Some(failure.message.clone()),
            },
        );
        assert(self.trace().drop_first() =~= mid);
    }

    /// The next event a bounded publication batch attempts: the oldest
    /// pending one, while no attempt failed and fewer than `max_events` were
    /// made.
    pub fn next_publication(&self, progress: &PublishIntegrationEventsResult, max_events: usize) -> (r:
        Option<&PendingIntegrationEvent>)
        ensures
            r is Some <==> batch_open(*progress, max_events) && self.pending_events().len() > 0,
            r matches Some(p) ==> *p == self.pending_events()[0],
    {
        if progress.last_failure.is_some() || progress.attempted >= max_events
            || self.pending_integration_events.len() == 0 {
            return None;
        }
        Some(&self.pending_integration_events[0])
    }

    /// Record, at `occurred_at_unix_ms`, what publishing the pending event
    /// `event_id` gave, and count the attempt in the batch's progress. A
    /// publication removes the event from the pending events; a failure
    /// keeps it and ends the batch.
    pub fn record_publication_outcome(
        &mut self,
        progress: &mut PublishIntegrationEventsResult,
        event_id: &str,
        outcome: Result<(), IntegrationEventPublishError>,
        occurred_at_unix_ms: u64,
    )
        requires
            old(self).wf(),
            old(progress).attempted < usize::MAX,
            old(progress).published < usize::MAX,
        ensures
            final(self).wf(),
            batch_advanced(
                *old(progress),
                *final(progress),
                event_id@,
                outcome,
                final(self).pending_events().len(),
            ),
            outcome is Ok ==> final(self).pending_events() == without_event(
                old(self).pending_events(),
                event_id@,
            ),
            outcome is Err ==> final(self).pending_events() == old(self).pending_events(),
            final(self).commands_view() == old(self).commands_view(),
            final(self).order_view() == old(self).order_view(),
            pushed_one(final(self).trace(), old(self).trace()),
            outcome is Ok ==> forall|c: String|
                c@ == event_id@ ==> #[trigger] queue_replays_to(
                    *old(self),
                    (ScanQueueEvent::IntegrationEventPublished { event_id: c, occurred_at_unix_ms }),
                    *final(self),
                ),
            outcome matches Err(x) ==> forall|c: String, d: String|
                c@ == event_id@ && d@ == x.message@ ==> #[trigger] queue_replays_to(
                    *old(self),
                    (ScanQueueEvent::IntegrationEventPublicationFailed {
                        event_id: c,
                        occurred_at_unix_ms,
                        retryable: x.retryable,
                        detail: d,
                    }),
                    *final(self),
                ),
    {
        match &outcome {
            Ok(()) => {
                self.record_published(event_id, occurred_at_unix_ms);
            },
            Err(e) => {
                let failure = IntegrationEventPublicationFailure {
                    event_id: owned(event_id),
                    retryable: e.retryable,
                    message: owned(e.message.as_str()),
                };
                self.record_publish_failed(&failure, occurred_at_unix_ms);
            },
        }
        let ghost given = outcome;
        proof {
            lemma_publication_replays(*old(self), *self, event_id@, occurred_at_unix_ms, given);
        }
        let pending = self.pending_integration_events.len();
        progress.advance(event_id, outcome, pending);
    }
}

proof fn lemma_batch_of_append(
    m: Map<Seq<char>, CommandModel>,
    a: Seq<Seq<char>>,
    b: Seq<Seq<char>>,
    origin: (Seq<char>, u64),
)
    ensures
        batch_of(m, a + b, origin) == batch_of(m, a, origin) + batch_of(m, b, origin),
    decreases b.len(),
{
    if b.len() == 0 {
        assert(a + b =~= a);
        assert(batch_of(m, a, origin) + batch_of(m, b, origin) =~= batch_of(m, a, origin));
    } else {
        lemma_batch_of_append(m, a, b.drop_last(), origin);
        assert((a + b).drop_last() =~= a + b.drop_last());
        assert((a + b).last() == b.last());
        if m.contains_key(b.last()) && m[b.last()].origin == Some(origin) {
            assert(batch_of(m, a, origin) + batch_of(m, b.drop_last(), origin).push(b.last())
                =~= (batch_of(m, a, origin) + batch_of(m, b.drop_last(), origin)).push(b.last()));
        }
    }
}

proof fn lemma_batch_of_same(
    m: Map<Seq<char>, CommandModel>,
    n: Map<Seq<char>, CommandModel>,
    order: Seq<Seq<char>>,
    origin: (Seq<char>, u64),
)
    requires
        forall|i: int|
            0 <= i < order.len() ==> (m.contains_key(#[trigger] order[i]) <==> n.contains_key(order[i]))
                && (m.contains_key(order[i]) ==> n[order[i]] == m[order[i]]),
    ensures
        batch_of(m, order, origin) == batch_of(n, order, origin),
    decreases order.len(),
{
    if order.len() > 0 {
        lemma_batch_of_same(m, n, order.drop_last(), origin);
        assert(order.last() == order[order.len() - 1]);
    }
}

proof fn lemma_with_batch_entries(m: Map<Seq<char>, CommandModel>, cs: Seq<EnqueuedCommand>, k: Seq<char>)
    ensures
        batch_ids(cs).contains(k) ==> with_batch(m, cs).contains_key(k) && exists|i: int|
            0 <= i < cs.len() && cs[i].command_id@ == k && #[trigger] with_batch(m, cs)[k]
                == enqueued_model(cs[i]),
        !batch_ids(cs).contains(k) ==> (with_batch(m, cs).contains_key(k) <==> m.contains_key(k))
            && (m.contains_key(k) ==> with_batch(m, cs)[k] == m[k]),
    decreases cs.len(),
{
    if cs.len() > 0 {
        lemma_with_batch_entries(m, cs.drop_last(), k);
        assert(batch_ids(cs) =~= batch_ids(cs.drop_last()).push(cs.last().command_id@));
        if k == cs.last().command_id@ {
            assert(cs[cs.len() - 1] == cs.last());
            assert(batch_ids(cs)[cs.len() - 1] == k);
            assert(batch_ids(cs).contains(k));
        } else if !batch_ids(cs).contains(k) {
            if batch_ids(cs.drop_last()).contains(k) {
                let j = choose|j: int| 0 <= j < batch_ids(cs.drop_last()).len() && batch_ids(cs.drop_last())[j] == k;
                assert(batch_ids(cs)[j] == k);
            }
        } else {
            assert(batch_ids(cs.drop_last()).contains(k));
            let i = choose|i: int|
                0 <= i < cs.drop_last().len() && cs.drop_last()[i].command_id@ == k
                    && #[trigger] with_batch(m, cs.drop_last())[k] == enqueued_model(cs.drop_last()[i]);
            assert(cs[i] == cs.drop_last()[i]);
        }
    } else {
        assert(with_batch(m, cs) == m);
        assert(!batch_ids(cs).contains(k));
    }
}

/// Enqueuing the batch of one collection schedule pass twice hands back the
/// first batch's ids: after a pass with fresh ids enqueued its commands on a
/// queue that held none of that pass, the queue holds exactly that batch
/// for the pass, so a second call for the same collection and due time
/// returns those ids and changes nothing.
pub proof fn lemma_second_collection_batch_hands_back_first(
    a: ScanCommandQueue,
    b: ScanCommandQueue,
    cs: Seq<EnqueuedCommand>,
    origin: (Seq<char>, u64),
)
    requires
        a.wf(),
        batch_of(a.commands_view(), a.order_view(), origin).len() == 0,
        fresh_batch(a.commands_view(), cs),
        forall|i: int| 0 <= i < cs.len() ==> origin_view(#[trigger] cs[i].collection_schedule_origin) == Some(origin),
        b.commands_view() == with_batch(a.commands_view(), cs),
        b.order_view() == a.order_view() + batch_ids(cs),
    ensures
        batch_of(b.commands_view(), b.order_view(), origin) == batch_ids(cs),
{
    a.lemma_view();
    assert forall|i: int| 0 <= i < cs.len() implies !a.commands_view().contains_key(
        #[trigger] cs[i].command_id@,
    ) by {
    }
    lemma_collection_batch_found_again(a.commands_view(), a.order_view(), cs, origin);
}

/// Enqueuing the batch of one collection schedule pass is idempotent: once
/// a pass with fresh ids has enqueued its commands, the pass finds exactly
/// those commands again, so enqueuing it again changes nothing.
pub proof fn lemma_collection_batch_found_again(
    m: Map<Seq<char>, CommandModel>,
    order: Seq<Seq<char>>,
    cs: Seq<EnqueuedCommand>,
    origin: (Seq<char>, u64),
)
    requires
        order.to_set() == m.dom(),
        batch_of(m, order, origin).len() == 0,
        forall|i: int| 0 <= i < cs.len() ==> !m.contains_key(#[trigger] cs[i].command_id@),
        forall|i: int| 0 <= i < cs.len() ==> origin_view(#[trigger] cs[i].collection_schedule_origin) == Some(origin),
    ensures
        batch_of(with_batch(m, cs), order + batch_ids(cs), origin) == batch_ids(cs),
{
    let n = with_batch(m, cs);
    let ids = batch_ids(cs);
    lemma_batch_of_append(n, order, ids, origin);
    assert forall|i: int| 0 <= i < order.len() implies (m.contains_key(#[trigger] order[i])
        <==> n.contains_key(order[i])) && (m.contains_key(order[i]) ==> n[order[i]] == m[order[i]]) by {
        assert(order.to_set().contains(order[i]));
        lemma_with_batch_entries(m, cs, order[i]);
        if ids.contains(order[i]) {
            let j = choose|j: int| 0 <= j < ids.len() && ids[j] == order[i];
            assert(cs[j].command_id@ == order[i]);
        }
    }
    lemma_batch_of_same(m, n, order, origin);
    assert(batch_ids(cs).take(ids.len() as int) =~= ids);
    lemma_batch_of_all(n, ids, cs, origin, m);
    assert(Seq::<Seq<char>>::empty() + ids =~= ids);
}

proof fn lemma_batch_of_all(
    n: Map<Seq<char>, CommandModel>,
    ids: Seq<Seq<char>>,
    cs: Seq<EnqueuedCommand>,
    origin: (Seq<char>, u64),
    m: Map<Seq<char>, CommandModel>,
)
    requires
        n == with_batch(m, cs),
        ids.len() <= cs.len(),
        ids == batch_ids(cs).take(ids.len() as int),
        forall|i: int| 0 <= i < cs.len() ==> origin_view(#[trigger] cs[i].collection_schedule_origin) == Some(origin),
    ensures
        batch_of(n, ids, origin) == ids,
    decreases ids.len(),
{
    if ids.len() > 0 {
        let k = ids.last();
        assert(ids.drop_last() =~= batch_ids(cs).take(ids.len() - 1));
        lemma_batch_of_all(n, ids.drop_last(), cs, origin, m);
        assert(k == batch_ids(cs)[ids.len() - 1]);
        assert(batch_ids(cs).contains(k));
        lemma_with_batch_entries(m, cs, k);
        let i = choose|i: int|
            0 <= i < cs.len() && cs[i].command_id@ == k && #[trigger] with_batch(m, cs)[k] == enqueued_model(cs[i]);
        assert(n[k].origin == origin_view(cs[i].collection_schedule_origin));
        assert(ids.drop_last().push(k) =~= ids);
    }
}

proof fn lemma_first_pending_member(m: Map<Seq<char>, CommandModel>, order: Seq<Seq<char>>)
    ensures
        first_pending(m, order) matches Some(id) ==> m.contains_key(id),
    decreases order.len(),
{
    if order.len() > 0 {
        lemma_first_pending_member(m, order.drop_first());
    }
}

} // verus!
