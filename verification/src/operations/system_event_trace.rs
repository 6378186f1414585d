//! Recent operator-facing system events: bounded queries and a truthful
//! query index that keeps whole-history totals beside a bounded window.

use crate::order::{copy_opt, lemma_text_order, text_before, text_eq, text_rank, Rank};
use std::sync::Arc;
use vstd::prelude::*;

verus! {

/// Default number of recent operator-facing system events returned in one query.
pub const DEFAULT_SYSTEM_EVENTS_LIMIT: usize = 50;

/// Maximum number of recent operator-facing system events returned in one query.
pub const MAX_SYSTEM_EVENTS_LIMIT: usize = 200;

/// One operator-facing category for recent durable system traceability.
#[derive(Debug, Clone, Copy, PartialEq, Eq, Structural, PartialOrd, Ord)]
pub enum SystemEventCategory {
    Scheduler,
    Command,
    Governance,
    Publication,
}

impl SystemEventCategory {
    pub fn as_str(self) -> (r: &'static str)
        ensures
            r@ == (match self {
                Self::Scheduler => "scheduler"@,
                Self::Command => "command"@,
                Self::Governance => "governance"@,
                Self::Publication => "publication"@,
            }),
    {
        match self {
            Self::Scheduler => "scheduler",
            Self::Command => "command",
            Self::Governance => "governance",
            Self::Publication => "publication",
        }
    }
}

/// One canonical operator-facing recent event kind.
#[derive(Debug, Clone, Copy, PartialEq, Eq, Structural, PartialOrd, Ord)]
pub enum SystemEventKind {
    CollectionScanMaterialized,
    ScanCommandEnqueued,
    ScanCommandCompleted,
    ScanCommandFailed,
    FindingRiskAccepted,
    FindingsRiskAccepted,
    FindingSuppressed,
    FindingsSuppressed,
    FindingReopened,
    FindingsReopened,
    IntegrationEventPublished,
    IntegrationEventPublicationFailed,
}

/// The category each kind of event belongs to.
pub open spec fn kind_category(k: SystemEventKind) -> SystemEventCategory {
    match k {
        SystemEventKind::CollectionScanMaterialized => SystemEventCategory::Scheduler,
        SystemEventKind::ScanCommandEnqueued | SystemEventKind::ScanCommandCompleted
        | SystemEventKind::ScanCommandFailed => SystemEventCategory::Command,
        SystemEventKind::FindingRiskAccepted | SystemEventKind::FindingsRiskAccepted
        | SystemEventKind::FindingSuppressed | SystemEventKind::FindingsSuppressed
        | SystemEventKind::FindingReopened
        | SystemEventKind::FindingsReopened => SystemEventCategory::Governance,
        SystemEventKind::IntegrationEventPublished
        | SystemEventKind::IntegrationEventPublicationFailed => SystemEventCategory::Publication,
    }
}

impl SystemEventKind {
    pub fn as_str(self) -> (r: &'static str)
        ensures
            r@ == (match self {
                Self::CollectionScanMaterialized => "collection-scan-materialized"@,
                Self::ScanCommandEnqueued => "scan-command-enqueued"@,
                Self::ScanCommandCompleted => "scan-command-completed"@,
                Self::ScanCommandFailed => "scan-command-failed"@,
                Self::FindingRiskAccepted => "finding-risk-accepted"@,
                Self::FindingsRiskAccepted => "findings-risk-accepted"@,
                Self::FindingSuppressed => "finding-suppressed"@,
                Self::FindingsSuppressed => "findings-suppressed"@,
                Self::FindingReopened => "finding-reopened"@,
                Self::FindingsReopened => "findings-reopened"@,
                Self::IntegrationEventPublished => "integration-event-published"@,
                Self::IntegrationEventPublicationFailed => "integration-event-publication-failed"@,
            }),
    {
        match self {
            Self::CollectionScanMaterialized => "collection-scan-materialized",
            Self::ScanCommandEnqueued => "scan-command-enqueued",
            Self::ScanCommandCompleted => "scan-command-completed",
            Self::ScanCommandFailed => "scan-command-failed",
            Self::FindingRiskAccepted => "finding-risk-accepted",
            Self::FindingsRiskAccepted => "findings-risk-accepted",
            Self::FindingSuppressed => "finding-suppressed",
            Self::FindingsSuppressed => "findings-suppressed",
            Self::FindingReopened => "finding-reopened",
            Self::FindingsReopened => "findings-reopened",
            Self::IntegrationEventPublished => "integration-event-published",
            Self::IntegrationEventPublicationFailed => "integration-event-publication-failed",
        }
    }

    pub fn category(self) -> (r: SystemEventCategory)
        ensures
            r == kind_category(self),
    {
        match self {
            Self::CollectionScanMaterialized => SystemEventCategory::Scheduler,
            Self::ScanCommandEnqueued | Self::ScanCommandCompleted | Self::ScanCommandFailed => {
                SystemEventCategory::Command
            },
            Self::FindingRiskAccepted
            | Self::FindingsRiskAccepted
            | Self::FindingSuppressed
            | Self::FindingsSuppressed
            | Self::FindingReopened
            | Self::FindingsReopened => SystemEventCategory::Governance,
            Self::IntegrationEventPublished | Self::IntegrationEventPublicationFailed => {
                SystemEventCategory::Publication
            },
        }
    }
}

/// One recent operator-facing system event.
#[derive(Debug, PartialEq, Eq)]
pub struct SystemEvent {
    pub event_id: String,
    pub occurred_at_unix_ms: u64,
    pub kind: SystemEventKind,
    pub collection_key: Option<String>,
    pub component_key: Option<String>,
    pub command_id: Option<String>,
    pub integration_event_id: Option<String>,
    pub finding_count: Option<u32>,
    pub retryable: Option<bool>,
    pub detail: Option<String>,
}

impl Clone for SystemEvent {
    fn clone(&self) -> (r: Self)
        ensures
            r == *self,
    {
        SystemEvent {
            event_id: self.event_id.clone(),
            occurred_at_unix_ms: self.occurred_at_unix_ms,
            kind: self.kind,
            collection_key: copy_opt(&self.collection_key),
            component_key: copy_opt(&self.component_key),
            command_id: copy_opt(&self.command_id),
            integration_event_id: copy_opt(&self.integration_event_id),
            finding_count: self.finding_count,
            retryable: self.retryable,
            detail: copy_opt(&self.detail),
        }
    }
}

/// The category of an event.
pub open spec fn category_of(e: SystemEvent) -> SystemEventCategory {
    kind_category(e.kind)
}

impl SystemEvent {
    pub fn category(&self) -> (r: SystemEventCategory)
        ensures
            r == category_of(*self),
    {
        self.kind.category()
    }
}

/// One bounded query over recent operator-facing system events.
#[derive(Debug, Clone, PartialEq, Eq)]
pub struct SystemEventsQuery {
    pub category: Option<SystemEventCategory>,
    pub limit: usize,
}

impl Default for SystemEventsQuery {
    fn default() -> (r: Self)
        ensures
            r.category is None,
            r.limit == DEFAULT_SYSTEM_EVENTS_LIMIT,
    {
        SystemEventsQuery::new()
    }
}

/// The limit clamped into `1..=MAX_SYSTEM_EVENTS_LIMIT`.
pub open spec fn clamped_limit(limit: usize) -> usize {
    if limit < 1 {
        1
    } else if limit > MAX_SYSTEM_EVENTS_LIMIT {
        MAX_SYSTEM_EVENTS_LIMIT
    } else {
        limit
    }
}

impl SystemEventsQuery {
    pub fn new() -> (r: Self)
        ensures
            r.category is None,
            r.limit == DEFAULT_SYSTEM_EVENTS_LIMIT,
    {
        SystemEventsQuery { category: None, limit: DEFAULT_SYSTEM_EVENTS_LIMIT }
    }

    pub fn with_category(self, category: SystemEventCategory) -> (r: Self)
        ensures
            r.category == Some(category),
            r.limit == self.limit,
    {
        SystemEventsQuery { category: Some(category), limit: self.limit }
    }

    pub fn with_limit(self, limit: usize) -> (r: Self)
        ensures
            r.category == self.category,
            r.limit == limit,
    {
        SystemEventsQuery { category: self.category, limit }
    }

    pub fn normalized_limit(&self) -> (r: usize)
        ensures
            r == clamped_limit(self.limit),
    {
        if self.limit < 1 {
            1
        } else if self.limit > MAX_SYSTEM_EVENTS_LIMIT {
            MAX_SYSTEM_EVENTS_LIMIT
        } else {
            self.limit
        }
    }
}

/// One bounded recent timeline for operators.
#[derive(Debug, Clone, PartialEq, Eq)]
pub struct SystemEventsPage {
    pub total: usize,
    pub returned: usize,
    pub limit: usize,
    pub events: Vec<Arc<SystemEvent>>,
}

/// The events behind shared pointers.
pub open spec fn shared_events(s: Seq<Arc<SystemEvent>>) -> Seq<SystemEvent> {
    s.map_values(|a: Arc<SystemEvent>| *a)
}

/// Whether an event passes an optional category filter.
pub open spec fn in_category(e: SystemEvent, c: Option<SystemEventCategory>) -> bool {
    match c {
        Some(x) => category_of(e) == x,
        None => true,
    }
}

/// The events of `s` that pass an optional category filter, in order.
pub open spec fn filter_category(s: Seq<SystemEvent>, c: Option<SystemEventCategory>) -> Seq<
    SystemEvent,
>
    decreases s.len(),
{
    if s.len() == 0 {
        seq![]
    } else {
        let t = filter_category(s.drop_last(), c);
        if in_category(s.last(), c) {
            t.push(s.last())
        } else {
            t
        }
    }
}

/// Number of events of `s` in category `c`.
pub open spec fn count_category(s: Seq<SystemEvent>, c: SystemEventCategory) -> nat {
    filter_category(s, Some(c)).len()
}

/// The first `n` elements of `s` (all of them when there are fewer).
pub open spec fn first_n<A>(s: Seq<A>, n: int) -> Seq<A> {
    if n < s.len() {
        s.take(n)
    } else {
        s
    }
}

/// Filtering by category never lengthens a trace.
pub proof fn lemma_filter_len(s: Seq<SystemEvent>, c: Option<SystemEventCategory>)
    ensures
        filter_category(s, c).len() <= s.len(),
    decreases s.len(),
{
    if s.len() > 0 {
        lemma_filter_len(s.drop_last(), c);
    }
}

/// Filtering a longer prefix extends the filtered shorter prefix.
proof fn lemma_filter_step(s: Seq<SystemEvent>, i: int, c: Option<SystemEventCategory>)
    requires
        0 <= i < s.len(),
    ensures
        filter_category(s.take(i + 1), c) == if in_category(s[i], c) {
            filter_category(s.take(i), c).push(s[i])
        } else {
            filter_category(s.take(i), c)
        },
{
    assert(s.take(i + 1).drop_last() =~= s.take(i));
}

/// Page over a slice of events: totals of all matches, the first `limit` of them.
pub open spec fn events_page(s: Seq<SystemEvent>, query: SystemEventsQuery) -> (
    nat,
    Seq<SystemEvent>,
) {
    let m = filter_category(s, query.category);
    (m.len(), first_n(m, clamped_limit(query.limit) as int))
}

/// Query a sequence of events, newest first, by category and bounded limit.
pub fn query_system_events(events: &[SystemEvent], query: &SystemEventsQuery) -> (r:
    SystemEventsPage)
    ensures
        r.limit == clamped_limit(query.limit),
        r.total == events_page(events@, *query).0,
        shared_events(r.events@) == events_page(events@, *query).1,
        r.returned == r.events@.len(),
{
    let limit = query.normalized_limit();
    let mut total: usize = 0;
    let mut returned: Vec<Arc<SystemEvent>> = Vec::new();
    let mut i: usize = 0;
    while i < events.len()
        invariant
            i <= events@.len(),
            limit == clamped_limit(query.limit),
            total == filter_category(events@.take(i as int), query.category).len(),
            shared_events(returned@) == first_n(
                filter_category(events@.take(i as int), query.category),
                limit as int,
            ),
        decreases events.len() - i,
    {
        proof {
            lemma_filter_step(events@, i as int, query.category);
            lemma_filter_len(events@.take(i as int), query.category);
        }
        let e = &events[i];
        let pass = match query.category {
            Some(c) => e.category() == c,
            None => true,
        };
        if pass {
            total = total + 1;
            if returned.len() < limit {
                let ghost before = returned@;
                returned.push(Arc::new(e.clone()));
                assert(shared_events(returned@) =~= shared_events(before).push(*e));
            }
        }
        i = i + 1;
    }
    assert(events@.take(i as int) =~= events@);
    let n = returned.len();
    SystemEventsPage { total, returned: n, limit, events: returned }
}

/// Whole-history counts of events, overall and by category.
#[derive(Debug, Clone, Copy, PartialEq, Eq, Default)]
pub struct SystemEventWindowTotals {
    pub total: usize,
    pub scheduler_total: usize,
    pub command_total: usize,
    pub governance_total: usize,
    pub publication_total: usize,
}

/// The count of one category (or of all events) in a set of totals.
pub open spec fn total_for(t: SystemEventWindowTotals, c: Option<SystemEventCategory>) -> usize {
    match c {
        None => t.total,
        Some(SystemEventCategory::Scheduler) => t.scheduler_total,
        Some(SystemEventCategory::Command) => t.command_total,
        Some(SystemEventCategory::Governance) => t.governance_total,
        Some(SystemEventCategory::Publication) => t.publication_total,
    }
}

/// The most recent events overall and in each category.
#[derive(Debug, Clone, PartialEq, Eq, Default)]
pub struct SystemEventRecentWindows {
    pub recent_events: Vec<Arc<SystemEvent>>,
    pub recent_scheduler_events: Vec<Arc<SystemEvent>>,
    pub recent_command_events: Vec<Arc<SystemEvent>>,
    pub recent_governance_events: Vec<Arc<SystemEvent>>,
    pub recent_publication_events: Vec<Arc<SystemEvent>>,
}

/// The window of the retained events that a category filter sees.
pub open spec fn window_of(s: Seq<SystemEvent>, c: Option<SystemEventCategory>) -> Seq<
    SystemEvent,
> {
    first_n(filter_category(s, c), MAX_SYSTEM_EVENTS_LIMIT as int)
}

/// Keep an event while fewer than the maximum were kept overall or in its
/// category; the result holds the newest maximum overall and the newest
/// maximum of each category.
pub open spec fn trimmed(s: Seq<SystemEvent>) -> Seq<SystemEvent>
    decreases s.len(),
{
    if s.len() == 0 {
        seq![]
    } else {
        let t = trimmed(s.drop_last());
        let e = s.last();
        if t.len() < MAX_SYSTEM_EVENTS_LIMIT || count_category(t, category_of(e))
            < MAX_SYSTEM_EVENTS_LIMIT {
            t.push(e)
        } else {
            t
        }
    }
}

/// Whether some event of `s` has the given id.
pub open spec fn has_event_id(s: Seq<SystemEvent>, id: Seq<char>) -> bool {
    exists|i: int| 0 <= i < s.len() && #[trigger] s[i].event_id@ == id
}

/// Recent order: later time first, then larger id first.
pub open spec fn recent_before(a: SystemEvent, b: SystemEvent) -> bool {
    a.occurred_at_unix_ms > b.occurred_at_unix_ms || (a.occurred_at_unix_ms
        == b.occurred_at_unix_ms && text_before(b.event_id@, a.event_id@))
}

/// Merge two recent-ordered sequences, taking from the left on ties.
pub open spec fn merge_recent(l: Seq<SystemEvent>, r: Seq<SystemEvent>) -> Seq<SystemEvent>
    decreases l.len() + r.len(),
{
    if l.len() == 0 {
        r
    } else if r.len() == 0 {
        l
    } else if recent_before(l[0], r[0]) {
        seq![l[0]] + merge_recent(l.drop_first(), r)
    } else {
        seq![r[0]] + merge_recent(l, r.drop_first())
    }
}

/// Where a stable insertion puts `x` in `t`: before the first element that `x` precedes.
pub open spec fn insert_position(t: Seq<SystemEvent>, x: SystemEvent) -> int
    decreases t.len(),
{
    if t.len() == 0 {
        0
    } else if recent_before(x, t[0]) {
        0
    } else {
        1 + insert_position(t.drop_first(), x)
    }
}

/// The stable sort of `s` in recent order.
pub open spec fn recent_sorted(s: Seq<SystemEvent>) -> Seq<SystemEvent>
    decreases s.len(),
{
    if s.len() == 0 {
        seq![]
    } else {
        let t = recent_sorted(s.drop_last());
        t.insert(insert_position(t, s.last()), s.last())
    }
}

/// Drop each event whose id equals that of the event kept just before it.
pub open spec fn dedup_ids(s: Seq<SystemEvent>) -> Seq<SystemEvent>
    decreases s.len(),
{
    if s.len() == 0 {
        seq![]
    } else {
        let t = dedup_ids(s.drop_last());
        if t.len() > 0 && t.last().event_id@ == s.last().event_id@ {
            t
        } else {
            t.push(s.last())
        }
    }
}

/// All events of the windows, in the order they are listed.
pub open spec fn windows_concat(w: SystemEventRecentWindows) -> Seq<SystemEvent> {
    shared_events(w.recent_events@) + shared_events(w.recent_scheduler_events@) + shared_events(
        w.recent_command_events@,
    ) + shared_events(w.recent_governance_events@) + shared_events(w.recent_publication_events@)
}

/// `current` without a trailing copy of `base`, compared by id and time.
pub open spec fn newer_prefix(current: Seq<SystemEvent>, base: Seq<SystemEvent>) -> Option<
    Seq<SystemEvent>,
> {
    let k = current.len() - base.len();
    if base.len() > current.len() {
        None
    } else if forall|j: int|
        0 <= j < base.len() ==> #[trigger] current[k + j].event_id@ == base[j].event_id@
            && current[k + j].occurred_at_unix_ms == base[j].occurred_at_unix_ms {
        Some(current.take(k))
    } else {
        None
    }
}

/// The totals after one more event of category `c`.
pub open spec fn bump(t: SystemEventWindowTotals, c: SystemEventCategory) -> SystemEventWindowTotals {
    SystemEventWindowTotals {
        total: (t.total + 1) as usize,
        scheduler_total: if c == SystemEventCategory::Scheduler {
            (t.scheduler_total + 1) as usize
        } else {
            t.scheduler_total
        },
        command_total: if c == SystemEventCategory::Command {
            (t.command_total + 1) as usize
        } else {
            t.command_total
        },
        governance_total: if c == SystemEventCategory::Governance {
            (t.governance_total + 1) as usize
        } else {
            t.governance_total
        },
        publication_total: if c == SystemEventCategory::Publication {
            (t.publication_total + 1) as usize
        } else {
            t.publication_total
        },
    }
}

/// Totals and retained events after recording one newest event; an event
/// whose id is still retained changes nothing.
pub open spec fn after_push(t: SystemEventWindowTotals, s: Seq<SystemEvent>, e: SystemEvent) -> (
    SystemEventWindowTotals,
    Seq<SystemEvent>,
) {
    if has_event_id(s, e.event_id@) {
        (t, s)
    } else {
        (bump(t, category_of(e)), trimmed(seq![e] + s))
    }
}

/// Totals and retained events after recording events listed newest first.
pub open spec fn replay_newest_first(events: Seq<SystemEvent>) -> (
    SystemEventWindowTotals,
    Seq<SystemEvent>,
)
    decreases events.len(),
{
    if events.len() == 0 {
        (SystemEventWindowTotals::spec_zero(), seq![])
    } else {
        let p = replay_newest_first(events.drop_last());
        after_push(p.0, p.1, events.last())
    }
}

/// The kinds of event that make up each category.
pub open spec fn category_kinds(c: SystemEventCategory) -> Set<SystemEventKind> {
    match c {
        SystemEventCategory::Scheduler => set![SystemEventKind::CollectionScanMaterialized],
        SystemEventCategory::Command => set![
            SystemEventKind::ScanCommandEnqueued,
            SystemEventKind::ScanCommandCompleted,
            SystemEventKind::ScanCommandFailed,
        ],
        SystemEventCategory::Governance => set![
            SystemEventKind::FindingRiskAccepted,
            SystemEventKind::FindingsRiskAccepted,
            SystemEventKind::FindingSuppressed,
            SystemEventKind::FindingsSuppressed,
            SystemEventKind::FindingReopened,
            SystemEventKind::FindingsReopened,
        ],
        SystemEventCategory::Publication => set![
            SystemEventKind::IntegrationEventPublished,
            SystemEventKind::IntegrationEventPublicationFailed,
        ],
    }
}

/// Each kind of event belongs to exactly the category whose kinds list it:
/// scheduler materialisations, scan command steps, governance decisions and
/// integration publications.
pub proof fn lemma_kind_belongs_to_listed_category(k: SystemEventKind, c: SystemEventCategory)
    ensures
        (kind_category(k) == c) <==> category_kinds(c).contains(k),
{
}

/// A category query over a trace selects, in order, exactly the events whose
/// kind the category lists.
pub proof fn lemma_category_filter_selects_kinds(s: Seq<SystemEvent>, c: SystemEventCategory)
    ensures
        filter_category(s, Some(c)) == s.filter(
            |e: SystemEvent| category_kinds(c).contains(e.kind),
        ),
    decreases s.len(),
{
    reveal(Seq::filter);
    if s.len() > 0 {
        lemma_category_filter_selects_kinds(s.drop_last(), c);
        lemma_kind_belongs_to_listed_category(s.last().kind, c);
    }
}

/// A publication query counts and returns exactly the published and the
/// failed integration-event publications, newest first up to the limit.
pub proof fn lemma_publication_query_selects_publications(s: Seq<SystemEvent>, q: SystemEventsQuery)
    requires
        q.category == Some(SystemEventCategory::Publication),
    ensures
        ({
            let pubs = s.filter(
                |e: SystemEvent|
                    e.kind == SystemEventKind::IntegrationEventPublished || e.kind
                        == SystemEventKind::IntegrationEventPublicationFailed,
            );
            &&& events_page(s, q).0 == pubs.len()
            &&& events_page(s, q).1 == first_n(pubs, clamped_limit(q.limit) as int)
        }),
{
    lemma_category_filter_selects_kinds(s, SystemEventCategory::Publication);
    let f1 = |e: SystemEvent| category_kinds(SystemEventCategory::Publication).contains(e.kind);
    let f2 = |e: SystemEvent|
        e.kind == SystemEventKind::IntegrationEventPublished || e.kind
            == SystemEventKind::IntegrationEventPublicationFailed;
    assert(f1 =~= f2);
}

/// Recording a new event raises the overall total and the total of the
/// category that lists its kind by one, and leaves every other category's
/// total alone; an event whose id is still retained changes no total.
pub proof fn lemma_new_event_counts_in_listed_category(
    t: SystemEventWindowTotals,
    s: Seq<SystemEvent>,
    e: SystemEvent,
    c: SystemEventCategory,
)
    requires
        t.total < usize::MAX,
        total_for(t, Some(c)) < usize::MAX,
    ensures
        has_event_id(s, e.event_id@) ==> after_push(t, s, e).0 == t,
        !has_event_id(s, e.event_id@) ==> {
            &&& total_for(after_push(t, s, e).0, None) == t.total + 1
            &&& category_kinds(c).contains(e.kind) ==> total_for(after_push(t, s, e).0, Some(c))
                == total_for(t, Some(c)) + 1
            &&& !category_kinds(c).contains(e.kind) ==> total_for(after_push(t, s, e).0, Some(c))
                == total_for(t, Some(c))
        },
{
    lemma_kind_belongs_to_listed_category(e.kind, c);
}

/// Recording a new integration-publication event raises the overall and the
/// publication totals by one and leaves the other categories' totals alone.
pub proof fn lemma_publication_event_counts_as_publication(
    t: SystemEventWindowTotals,
    s: Seq<SystemEvent>,
    e: SystemEvent,
)
    requires
        e.kind == SystemEventKind::IntegrationEventPublished || e.kind
            == SystemEventKind::IntegrationEventPublicationFailed,
        !has_event_id(s, e.event_id@),
        t.total < usize::MAX,
        t.publication_total < usize::MAX,
    ensures
        after_push(t, s, e).0.total == t.total + 1,
        after_push(t, s, e).0.publication_total == t.publication_total + 1,
        after_push(t, s, e).0.scheduler_total == t.scheduler_total,
        after_push(t, s, e).0.command_total == t.command_total,
        after_push(t, s, e).0.governance_total == t.governance_total,
{
}

/// One bounded, truthful query index over operator-facing system events.
#[derive(Debug, PartialEq, Eq)]
pub struct SystemEventQueryIndex {
    total: usize,
    scheduler_total: usize,
    command_total: usize,
    governance_total: usize,
    publication_total: usize,
    retained_events: Vec<SystemEvent>,
}

impl Clone for SystemEventQueryIndex {
    fn clone(&self) -> (r: Self)
        ensures
            r.totals() == self.totals(),
            r.retained() == self.retained(),
    {
        SystemEventQueryIndex {
            total: self.total,
            scheduler_total: self.scheduler_total,
            command_total: self.command_total,
            governance_total: self.governance_total,
            publication_total: self.publication_total,
            retained_events: copy_events(&self.retained_events),
        }
    }
}

impl Default for SystemEventQueryIndex {
    fn default() -> (r: Self)
        ensures
            r.totals() == SystemEventWindowTotals::spec_zero(),
            r.retained() == Seq::<SystemEvent>::empty(),
    {
        SystemEventQueryIndex::new()
    }
}

impl SystemEventWindowTotals {
    pub open spec fn spec_zero() -> Self {
        SystemEventWindowTotals {
            total: 0,
            scheduler_total: 0,
            command_total: 0,
            governance_total: 0,
            publication_total: 0,
        }
    }
}

pub(crate) fn copy_events(v: &Vec<SystemEvent>) -> (r: Vec<SystemEvent>)
    ensures
        r@ == v@,
{
    let mut r: Vec<SystemEvent> = Vec::new();
    let mut i: usize = 0;
    while i < v.len()
        invariant
            i <= v@.len(),
            r@ == v@.take(i as int),
        decreases v.len() - i,
    {
        r.push(v[i].clone());
        assert(v@.take(i + 1) =~= v@.take(i as int).push(v@[i as int]));
        i = i + 1;
    }
    assert(v@.take(i as int) =~= v@);
    r
}

/// Share the first `n` events that pass a category filter.
fn shared_window(s: &Vec<SystemEvent>, c: Option<SystemEventCategory>, n: usize) -> (r: Vec<
    Arc<SystemEvent>,
>)
    ensures
        shared_events(r@) == first_n(filter_category(s@, c), n as int),
{
    let mut r: Vec<Arc<SystemEvent>> = Vec::new();
    let mut i: usize = 0;
    while i < s.len()
        invariant
            i <= s@.len(),
            shared_events(r@) == first_n(filter_category(s@.take(i as int), c), n as int),
        decreases s.len() - i,
    {
        proof {
            lemma_filter_step(s@, i as int, c);
        }
        let e = &s[i];
        let pass = match c {
            Some(x) => e.category() == x,
            None => true,
        };
        if pass && r.len() < n {
            let ghost before = r@;
            r.push(Arc::new(e.clone()));
            assert(shared_events(r@) =~= shared_events(before).push(*e));
        }
        i = i + 1;
    }
    assert(s@.take(i as int) =~= s@);
    r
}

/// Unshare a vector of shared events.
fn unshared(v: &Vec<Arc<SystemEvent>>) -> (r: Vec<SystemEvent>)
    ensures
        r@ == shared_events(v@),
{
    let mut r: Vec<SystemEvent> = Vec::new();
    let mut i: usize = 0;
    while i < v.len()
        invariant
            i <= v@.len(),
            r@ == shared_events(v@).take(i as int),
        decreases v.len() - i,
    {
        let e: &SystemEvent = &*v[i];
        r.push(e.clone());
        assert(shared_events(v@).take(i + 1) =~= shared_events(v@).take(i as int).push(*v@[i as int]));
        i = i + 1;
    }
    assert(shared_events(v@).take(i as int) =~= shared_events(v@));
    r
}

/// Trim a recent-ordered sequence of events to the retained window.
fn trim_events(events: &Vec<SystemEvent>) -> (r: Vec<SystemEvent>)
    ensures
        r@ == trimmed(events@),
{
    let mut global: usize = 0;
    let mut scheduler: usize = 0;
    let mut command: usize = 0;
    let mut governance: usize = 0;
    let mut publication: usize = 0;
    let mut retained: Vec<SystemEvent> = Vec::new();
    let mut i: usize = 0;
    while i < events.len()
        invariant
            i <= events@.len(),
            retained@ == trimmed(events@.take(i as int)),
            global == retained@.len(),
            scheduler == count_category(retained@, SystemEventCategory::Scheduler),
            command == count_category(retained@, SystemEventCategory::Command),
            governance == count_category(retained@, SystemEventCategory::Governance),
            publication == count_category(retained@, SystemEventCategory::Publication),
            global <= i,
        decreases events.len() - i,
    {
        let e = &events[i];
        proof {
            assert(events@.take(i + 1).drop_last() =~= events@.take(i as int));
            lemma_filter_len(retained@, Some(SystemEventCategory::Scheduler));
            lemma_filter_len(retained@, Some(SystemEventCategory::Command));
            lemma_filter_len(retained@, Some(SystemEventCategory::Governance));
            lemma_filter_len(retained@, Some(SystemEventCategory::Publication));
        }
        let c = e.category();
        let count = match c {
            SystemEventCategory::Scheduler => scheduler,
            SystemEventCategory::Command => command,
            SystemEventCategory::Governance => governance,
            SystemEventCategory::Publication => publication,
        };
        if global < MAX_SYSTEM_EVENTS_LIMIT || count < MAX_SYSTEM_EVENTS_LIMIT {
            let ghost before = retained@;
            retained.push(e.clone());
            proof {
                assert(retained@.drop_last() =~= before);
            }
            global = global + 1;
            match c {
                SystemEventCategory::Scheduler => {
                    scheduler = scheduler + 1;
                },
                SystemEventCategory::Command => {
                    command = command + 1;
                },
                SystemEventCategory::Governance => {
                    governance = governance + 1;
                },
                SystemEventCategory::Publication => {
                    publication = publication + 1;
                },
            }
        }
        i = i + 1;
    }
    assert(events@.take(i as int) =~= events@);
    retained
}

/// Whether `a` comes before `b` in recent order.
fn recent_first(a: &SystemEvent, b: &SystemEvent) -> (r: bool)
    ensures
        r == recent_before(*a, *b),
{
    if a.occurred_at_unix_ms != b.occurred_at_unix_ms {
        a.occurred_at_unix_ms > b.occurred_at_unix_ms
    } else {
        match text_rank(b.event_id.as_str(), a.event_id.as_str()) {
            Rank::Before => true,
            _ => false,
        }
    }
}

/// Merge two recent-ordered sequences, keeping at most the maximum.
fn merge_recent_events(l: &Vec<SystemEvent>, r: &Vec<SystemEvent>) -> (m: Vec<SystemEvent>)
    ensures
        m@ == first_n(merge_recent(l@, r@), MAX_SYSTEM_EVENTS_LIMIT as int),
{
    proof {
        lemma_merge_len(l@, r@);
    }
    let mut merged: Vec<SystemEvent> = Vec::new();
    let mut li: usize = 0;
    let mut ri: usize = 0;
    assert(l@.skip(0) =~= l@);
    assert(r@.skip(0) =~= r@);
    while merged.len() < MAX_SYSTEM_EVENTS_LIMIT && (li < l.len() || ri < r.len())
        invariant
            li <= l@.len(),
            ri <= r@.len(),
            merged@.len() <= MAX_SYSTEM_EVENTS_LIMIT,
            merged@ + merge_recent(l@.skip(li as int), r@.skip(ri as int)) == merge_recent(l@, r@),
            merge_recent(l@, r@).len() == l@.len() + r@.len(),
        decreases l@.len() + r@.len() - li - ri,
    {
        let ghost ls = l@.skip(li as int);
        let ghost rs = r@.skip(ri as int);
        let take_left = if li < l.len() && ri < r.len() {
            recent_first(&l[li], &r[ri])
        } else {
            li < l.len()
        };
        proof {
            assert(ls.len() > 0 ==> ls[0] == l@[li as int]);
            assert(rs.len() > 0 ==> rs[0] == r@[ri as int]);
            assert(ls.len() > 0 ==> ls.drop_first() =~= l@.skip(li + 1));
            assert(rs.len() > 0 ==> rs.drop_first() =~= r@.skip(ri + 1));
        }
        if take_left {
            merged.push(l[li].clone());
            li = li + 1;
        } else {
            merged.push(r[ri].clone());
            ri = ri + 1;
        }
        proof {
            assert(merged@ + merge_recent(l@.skip(li as int), r@.skip(ri as int)) =~= merge_recent(
                l@,
                r@,
            ));
        }
    }
    proof {
        let full = merge_recent(l@, r@);
        if merged@.len() < MAX_SYSTEM_EVENTS_LIMIT {
            assert(l@.skip(li as int).len() == 0);
            assert(r@.skip(ri as int).len() == 0);
            assert(merged@ =~= full);
        } else {
            assert(full.take(merged@.len() as int) =~= merged@);
        }
    }
    merged
}

/// Merging two traces keeps every event of both.
pub proof fn lemma_merge_len(l: Seq<SystemEvent>, r: Seq<SystemEvent>)
    ensures
        merge_recent(l, r).len() == l.len() + r.len(),
    decreases l.len() + r.len(),
{
    if l.len() > 0 && r.len() > 0 {
        lemma_merge_len(l.drop_first(), r);
        lemma_merge_len(l, r.drop_first());
    }
}

proof fn lemma_insert_position_skip(t: Seq<SystemEvent>, x: SystemEvent, j: int)
    requires
        0 <= j <= t.len(),
        forall|k: int| 0 <= k < j ==> !recent_before(x, #[trigger] t[k]),
    ensures
        insert_position(t, x) == j + insert_position(t.skip(j), x),
    decreases j,
{
    if j > 0 {
        assert(t.skip(1).skip(j - 1) =~= t.skip(j));
        assert(t.drop_first() =~= t.skip(1));
        lemma_insert_position_skip(t.drop_first(), x, j - 1);
    } else {
        assert(t.skip(0) =~= t);
    }
}

proof fn lemma_insert_position_bound(t: Seq<SystemEvent>, x: SystemEvent)
    ensures
        0 <= insert_position(t, x) <= t.len(),
    decreases t.len(),
{
    if t.len() > 0 {
        lemma_insert_position_bound(t.drop_first(), x);
    }
}

/// Stable insertion sort in recent order.
fn sort_recent(v: &Vec<SystemEvent>) -> (r: Vec<SystemEvent>)
    ensures
        r@ == recent_sorted(v@),
{
    let mut out: Vec<SystemEvent> = Vec::new();
    let mut i: usize = 0;
    while i < v.len()
        invariant
            i <= v@.len(),
            out@ == recent_sorted(v@.take(i as int)),
            out@.len() == i,
        decreases v.len() - i,
    {
        let x = v[i].clone();
        let mut j: usize = 0;
        while j < out.len() && !recent_first(&x, &out[j])
            invariant
                j <= out@.len(),
                forall|k: int| 0 <= k < j ==> !recent_before(x, #[trigger] out@[k]),
            decreases out.len() - j,
        {
            j = j + 1;
        }
        proof {
            lemma_insert_position_skip(out@, x, j as int);
            assert(v@.take(i + 1).drop_last() =~= v@.take(i as int));
            assert(v@.take(i + 1).last() == x);
            if j < out@.len() {
                assert(out@.skip(j as int)[0] == out@[j as int]);
            }
        }
        out.insert(j, x);
        i = i + 1;
    }
    assert(v@.take(i as int) =~= v@);
    out
}

/// Drop events whose id equals that of the event kept just before them.
fn dedup_event_ids(v: &Vec<SystemEvent>) -> (r: Vec<SystemEvent>)
    ensures
        r@ == dedup_ids(v@),
{
    let mut out: Vec<SystemEvent> = Vec::new();
    let mut i: usize = 0;
    while i < v.len()
        invariant
            i <= v@.len(),
            out@ == dedup_ids(v@.take(i as int)),
        decreases v.len() - i,
    {
        assert(v@.take(i + 1).drop_last() =~= v@.take(i as int));
        let n = out.len();
        let same = n > 0 && text_eq(out[n - 1].event_id.as_str(), v[i].event_id.as_str());
        if !same {
            out.push(v[i].clone());
        }
        i = i + 1;
    }
    assert(v@.take(i as int) =~= v@);
    out
}

/// The newer events of `current` in front of a trailing copy of `base`.
fn newer_prefix_since(current: &Vec<Arc<SystemEvent>>, base: &Vec<Arc<SystemEvent>>) -> (r: Option<
    Vec<Arc<SystemEvent>>,
>)
    ensures
        match newer_prefix(shared_events(current@), shared_events(base@)) {
            Some(p) => r matches Some(v) && shared_events(v@) == p,
            None => r is None,
        },
{
    if base.len() > current.len() {
        return None;
    }
    let clen = current.len();
    let start = clen - base.len();
    let ghost cs = shared_events(current@);
    let ghost bs = shared_events(base@);
    let mut j: usize = 0;
    while j < base.len()
        invariant
            start + base@.len() == current@.len(),
            clen == current@.len(),
            cs.len() == current@.len(),
            bs.len() == base@.len(),
            j <= base@.len(),
            cs == shared_events(current@),
            bs == shared_events(base@),
            forall|k: int|
                0 <= k < j ==> #[trigger] cs[start + k].event_id@ == bs[k].event_id@
                    && cs[start + k].occurred_at_unix_ms == bs[k].occurred_at_unix_ms,
        decreases base.len() - j,
    {
        assert(start + j < current@.len());
        let at = start + j;
        let a: &SystemEvent = &*current[at];
        let b: &SystemEvent = &*base[j];
        assert(cs[start + j] == *a);
        assert(bs[j as int] == *b);
        if !(text_eq(a.event_id.as_str(), b.event_id.as_str())
            && a.occurred_at_unix_ms == b.occurred_at_unix_ms) {
            proof {
                assert(cs[start + j] == *a);
                assert(bs[j as int] == *b);
                let k = cs.len() - bs.len();
                assert(k == start);
                assert(!(cs[k + j].event_id@ == bs[j as int].event_id@
                    && cs[k + j].occurred_at_unix_ms == bs[j as int].occurred_at_unix_ms));
            }
            return None;
        }
        j = j + 1;
    }
    let mut prefix: Vec<Arc<SystemEvent>> = Vec::new();
    let mut i: usize = 0;
    while i < start
        invariant
            start <= current@.len(),
            i <= start,
            cs == shared_events(current@),
            shared_events(prefix@) == cs.take(i as int),
        decreases start - i,
    {
        let e: &SystemEvent = &*current[i];
        let ghost before = prefix@;
        prefix.push(Arc::new(e.clone()));
        assert(shared_events(prefix@) =~= shared_events(before).push(*e));
        assert(cs.take(i + 1) =~= cs.take(i as int).push(cs[i as int]));
        i = i + 1;
    }
    Some(prefix)
}

/// Whether a set of totals is at least another, count by count.
pub open spec fn totals_cover(t: SystemEventWindowTotals, b: SystemEventWindowTotals) -> bool {
    t.total >= b.total && t.scheduler_total >= b.scheduler_total && t.command_total
        >= b.command_total && t.governance_total >= b.governance_total && t.publication_total
        >= b.publication_total
}

/// Count by count difference of two sets of totals.
pub open spec fn totals_minus(t: SystemEventWindowTotals, b: SystemEventWindowTotals) -> SystemEventWindowTotals {
    SystemEventWindowTotals {
        total: (t.total - b.total) as usize,
        scheduler_total: (t.scheduler_total - b.scheduler_total) as usize,
        command_total: (t.command_total - b.command_total) as usize,
        governance_total: (t.governance_total - b.governance_total) as usize,
        publication_total: (t.publication_total - b.publication_total) as usize,
    }
}

/// Count by count sum of two sets of totals.
pub open spec fn totals_plus(t: SystemEventWindowTotals, b: SystemEventWindowTotals) -> SystemEventWindowTotals {
    SystemEventWindowTotals {
        total: (t.total + b.total) as usize,
        scheduler_total: (t.scheduler_total + b.scheduler_total) as usize,
        command_total: (t.command_total + b.command_total) as usize,
        governance_total: (t.governance_total + b.governance_total) as usize,
        publication_total: (t.publication_total + b.publication_total) as usize,
    }
}

/// Adding to a set of totals what a later set has more gives the later set:
/// an index merged with its delta since a base has the totals of the later
/// index.
pub proof fn lemma_delta_restores_totals(t: SystemEventWindowTotals, b: SystemEventWindowTotals)
    requires
        totals_cover(t, b),
    ensures
        totals_fit(b, totals_minus(t, b)),
        totals_plus(b, totals_minus(t, b)) == t,
{
}

/// Merging a base index with its delta gives back the totals of the later
/// index: when `d` is what `delta_since` gives of `current` over `base`,
/// and `m` is what `merged` gives of `base` and `d`, then `m` has the totals
/// of `current`.
pub proof fn lemma_delta_merged_restores_totals(
    current: SystemEventQueryIndex,
    base: SystemEventQueryIndex,
    d: SystemEventQueryIndex,
    m: SystemEventQueryIndex,
)
    requires
        totals_cover(current.totals(), base.totals()),
        d.totals() == totals_minus(current.totals(), base.totals()),
        m.totals() == totals_plus(base.totals(), d.totals()),
    ensures
        totals_fit(base.totals(), d.totals()),
        m.totals() == current.totals(),
{
    lemma_delta_restores_totals(current.totals(), base.totals());
}

/// No event of `l` has the identity of an event of `r`.
pub open spec fn ids_disjoint(l: Seq<SystemEvent>, r: Seq<SystemEvent>) -> bool {
    forall|i: int, j: int|
        0 <= i < l.len() && 0 <= j < r.len() ==> #[trigger] l[i].event_id@ != #[trigger] r[j].event_id@
}

/// Merging two event sequences without a common identity does not depend
/// on their order.
pub proof fn lemma_merge_recent_commutes(l: Seq<SystemEvent>, r: Seq<SystemEvent>)
    requires
        ids_disjoint(l, r),
    ensures
        merge_recent(l, r) == merge_recent(r, l),
    decreases l.len() + r.len(),
{
    if l.len() > 0 && r.len() > 0 {
        lemma_text_order(l[0].event_id@, r[0].event_id@, r[0].event_id@);
        assert(l[0].event_id@ != r[0].event_id@);
        if recent_before(l[0], r[0]) {
            assert(!recent_before(r[0], l[0]));
            assert(ids_disjoint(l.drop_first(), r)) by {
                assert forall|i: int, j: int|
                    0 <= i < l.drop_first().len() && 0 <= j < r.len() implies #[trigger] l.drop_first()[i].event_id@
                        != #[trigger] r[j].event_id@ by {
                    assert(l.drop_first()[i] == l[i + 1]);
                }
            }
            lemma_merge_recent_commutes(l.drop_first(), r);
        } else {
            assert(recent_before(r[0], l[0]));
            assert(ids_disjoint(l, r.drop_first())) by {
                assert forall|i: int, j: int|
                    0 <= i < l.len() && 0 <= j < r.drop_first().len() implies #[trigger] l[i].event_id@
                        != #[trigger] r.drop_first()[j].event_id@ by {
                    assert(r.drop_first()[j] == r[j + 1]);
                }
            }
            lemma_merge_recent_commutes(l, r.drop_first());
        }
    }
}

/// Merging two indexes that retain no common event does not depend on
/// their order: both merges hold the same totals and the same retained
/// events, so every query answers the same.
pub proof fn lemma_merged_indexes_agree(
    left: SystemEventQueryIndex,
    right: SystemEventQueryIndex,
    x: SystemEventQueryIndex,
    y: SystemEventQueryIndex,
)
    requires
        ids_disjoint(left.retained(), right.retained()),
        x.totals() == totals_plus(left.totals(), right.totals()),
        x.retained() == trimmed(
            first_n(merge_recent(left.retained(), right.retained()), MAX_SYSTEM_EVENTS_LIMIT as int),
        ),
        y.totals() == totals_plus(right.totals(), left.totals()),
        y.retained() == trimmed(
            first_n(merge_recent(right.retained(), left.retained()), MAX_SYSTEM_EVENTS_LIMIT as int),
        ),
    ensures
        x.totals() == y.totals(),
        x.retained() == y.retained(),
{
    lemma_merge_recent_commutes(left.retained(), right.retained());
}

/// Whether two sets of totals can be added without overflow.
pub open spec fn totals_fit(t: SystemEventWindowTotals, b: SystemEventWindowTotals) -> bool {
    t.total + b.total <= usize::MAX && t.scheduler_total + b.scheduler_total <= usize::MAX
        && t.command_total + b.command_total <= usize::MAX && t.governance_total
        + b.governance_total <= usize::MAX && t.publication_total + b.publication_total
        <= usize::MAX
}

/// The retained events of an index rebuilt from windows listed in `s`.
pub open spec fn rebuilt(s: Seq<SystemEvent>) -> Seq<SystemEvent> {
    trimmed(dedup_ids(recent_sorted(s)))
}

/// The newer part of each window of `cur` over the same window of `base`,
/// all windows listed one after the other; none when a window of `base`
/// is not a trailing part of the same window of `cur`.
pub open spec fn delta_windows(cur: Seq<SystemEvent>, base: Seq<SystemEvent>) -> Option<Seq<SystemEvent>> {
    let p0 = newer_prefix(window_of(cur, None), window_of(base, None));
    let p1 = newer_prefix(window_of(cur, Some(SystemEventCategory::Scheduler)), window_of(base, Some(SystemEventCategory::Scheduler)));
    let p2 = newer_prefix(window_of(cur, Some(SystemEventCategory::Command)), window_of(base, Some(SystemEventCategory::Command)));
    let p3 = newer_prefix(window_of(cur, Some(SystemEventCategory::Governance)), window_of(base, Some(SystemEventCategory::Governance)));
    let p4 = newer_prefix(window_of(cur, Some(SystemEventCategory::Publication)), window_of(base, Some(SystemEventCategory::Publication)));
    if p0 is Some && p1 is Some && p2 is Some && p3 is Some && p4 is Some {
        Some(p0->Some_0 + p1->Some_0 + p2->Some_0 + p3->Some_0 + p4->Some_0)
    } else {
        None
    }
}

impl SystemEventQueryIndex {
    /// The whole-history totals.
    pub closed spec fn totals(&self) -> SystemEventWindowTotals {
        SystemEventWindowTotals {
            total: self.total,
            scheduler_total: self.scheduler_total,
            command_total: self.command_total,
            governance_total: self.governance_total,
            publication_total: self.publication_total,
        }
    }

    /// The retained recent events, newest first.
    pub closed spec fn retained(&self) -> Seq<SystemEvent> {
        self.retained_events@
    }

    pub fn new() -> (r: Self)
        ensures
            r.totals() == SystemEventWindowTotals::spec_zero(),
            r.retained() == Seq::<SystemEvent>::empty(),
    {
        SystemEventQueryIndex {
            total: 0,
            scheduler_total: 0,
            command_total: 0,
            governance_total: 0,
            publication_total: 0,
            retained_events: Vec::new(),
        }
    }

    /// Rebuild an index from events listed newest first.
    pub fn from_newest_first(events: &[SystemEvent]) -> (r: Self)
        requires
            events@.len() < usize::MAX,
        ensures
            (r.totals(), r.retained()) == replay_newest_first(events@),
    {
        let mut index = SystemEventQueryIndex::new();
        let mut i: usize = 0;
        while i < events.len()
            invariant
                i <= events@.len(),
                events@.len() < usize::MAX,
                (index.totals(), index.retained()) == replay_newest_first(events@.take(i as int)),
                index.totals().total <= i,
                index.totals().scheduler_total <= i,
                index.totals().command_total <= i,
                index.totals().governance_total <= i,
                index.totals().publication_total <= i,
            decreases events.len() - i,
        {
            assert(events@.take(i + 1).drop_last() =~= events@.take(i as int));
            index.push_newest(events[i].clone());
            i = i + 1;
        }
        assert(events@.take(i as int) =~= events@);
        index
    }

    /// Record one event that is newer than every event recorded so far; an
    /// event whose id is still retained is ignored.
    pub fn push_newest(&mut self, event: SystemEvent)
        requires
            total_for(old(self).totals(), None) < usize::MAX,
            total_for(old(self).totals(), Some(category_of(event))) < usize::MAX,
        ensures
            (final(self).totals(), final(self).retained()) == after_push(
                old(self).totals(),
                old(self).retained(),
                event,
            ),
    {
        let mut i: usize = 0;
        while i < self.retained_events.len()
            invariant
                i <= self.retained_events@.len(),
                forall|j: int|
                    0 <= j < i ==> self.retained_events@[j].event_id@ != event.event_id@,
            decreases self.retained_events.len() - i,
        {
            if text_eq(self.retained_events[i].event_id.as_str(), event.event_id.as_str()) {
                return;
            }
            i = i + 1;
        }
        self.total = self.total + 1;
        match event.category() {
            SystemEventCategory::Scheduler => {
                self.scheduler_total = self.scheduler_total + 1;
            },
            SystemEventCategory::Command => {
                self.command_total = self.command_total + 1;
            },
            SystemEventCategory::Governance => {
                self.governance_total = self.governance_total + 1;
            },
            SystemEventCategory::Publication => {
                self.publication_total = self.publication_total + 1;
            },
        }
        let ghost before = self.retained_events@;
        self.retained_events.insert(0, event);
        assert(self.retained_events@ =~= seq![event] + before);
        self.retained_events = trim_events(&self.retained_events);
    }

    pub fn window_totals(&self) -> (r: SystemEventWindowTotals)
        ensures
            r == self.totals(),
    {
        SystemEventWindowTotals {
            total: self.total,
            scheduler_total: self.scheduler_total,
            command_total: self.command_total,
            governance_total: self.governance_total,
            publication_total: self.publication_total,
        }
    }

    /// The newest events overall and in each category, each window bounded.
    pub fn recent_windows(&self) -> (r: SystemEventRecentWindows)
        ensures
            shared_events(r.recent_events@) == window_of(self.retained(), None),
            shared_events(r.recent_scheduler_events@) == window_of(
                self.retained(),
                Some(SystemEventCategory::Scheduler),
            ),
            shared_events(r.recent_command_events@) == window_of(
                self.retained(),
                Some(SystemEventCategory::Command),
            ),
            shared_events(r.recent_governance_events@) == window_of(
                self.retained(),
                Some(SystemEventCategory::Governance),
            ),
            shared_events(r.recent_publication_events@) == window_of(
                self.retained(),
                Some(SystemEventCategory::Publication),
            ),
    {
        SystemEventRecentWindows {
            recent_events: shared_window(&self.retained_events, None, MAX_SYSTEM_EVENTS_LIMIT),
            recent_scheduler_events: shared_window(
                &self.retained_events,
                Some(SystemEventCategory::Scheduler),
                MAX_SYSTEM_EVENTS_LIMIT,
            ),
            recent_command_events: shared_window(
                &self.retained_events,
                Some(SystemEventCategory::Command),
                MAX_SYSTEM_EVENTS_LIMIT,
            ),
            recent_governance_events: shared_window(
                &self.retained_events,
                Some(SystemEventCategory::Governance),
                MAX_SYSTEM_EVENTS_LIMIT,
            ),
            recent_publication_events: shared_window(
                &self.retained_events,
                Some(SystemEventCategory::Publication),
                MAX_SYSTEM_EVENTS_LIMIT,
            ),
        }
    }

    /// One page of the retained events: the total comes from the
    /// whole-history counts, the events from the retained window.
    pub fn query(&self, query: &SystemEventsQuery) -> (r: SystemEventsPage)
        ensures
            r.limit == clamped_limit(query.limit),
            r.total == total_for(self.totals(), query.category),
            shared_events(r.events@) == first_n(
                filter_category(self.retained(), query.category),
                clamped_limit(query.limit) as int,
            ),
            r.returned == r.events@.len(),
    {
        let limit = query.normalized_limit();
        let total = match query.category {
            None => self.total,
            Some(SystemEventCategory::Scheduler) => self.scheduler_total,
            Some(SystemEventCategory::Command) => self.command_total,
            Some(SystemEventCategory::Governance) => self.governance_total,
            Some(SystemEventCategory::Publication) => self.publication_total,
        };
        let events = shared_window(&self.retained_events, query.category, limit);
        let returned = events.len();
        SystemEventsPage { total, returned, limit, events }
    }

    /// Combine two indexes: totals add up, and the retained events are the
    /// newest of both in recent order.
    pub fn merged(left: &Self, right: &Self) -> (r: Self)
        requires
            totals_fit(left.totals(), right.totals()),
        ensures
            r.totals() == totals_plus(left.totals(), right.totals()),
            r.retained() == trimmed(
                first_n(merge_recent(left.retained(), right.retained()), MAX_SYSTEM_EVENTS_LIMIT as int),
            ),
    {
        let lt = left.window_totals();
        let rt = right.window_totals();
        let totals = SystemEventWindowTotals {
            total: lt.total + rt.total,
            scheduler_total: lt.scheduler_total + rt.scheduler_total,
            command_total: lt.command_total + rt.command_total,
            governance_total: lt.governance_total + rt.governance_total,
            publication_total: lt.publication_total + rt.publication_total,
        };
        let events = merge_recent_events(&left.retained_events, &right.retained_events);
        SystemEventQueryIndex::from_retained_events(totals, &events)
    }

    /// Rebuild an index from whole-history totals and recent windows.
    pub fn from_recent_windows(totals: SystemEventWindowTotals, windows: SystemEventRecentWindows) -> (r:
        Self)
        ensures
            r.totals() == totals,
            r.retained() == rebuilt(windows_concat(windows)),
    {
        let mut all = unshared(&windows.recent_events);
        let mut part = unshared(&windows.recent_scheduler_events);
        all.append(&mut part);
        let mut part = unshared(&windows.recent_command_events);
        all.append(&mut part);
        let mut part = unshared(&windows.recent_governance_events);
        all.append(&mut part);
        let mut part = unshared(&windows.recent_publication_events);
        all.append(&mut part);
        assert(all@ =~= windows_concat(windows));
        let sorted = sort_recent(&all);
        let unique = dedup_event_ids(&sorted);
        SystemEventQueryIndex::from_retained_events(totals, &unique)
    }

    /// The part of this index that is newer than `base`, when `base` is an
    /// older state of the same history.
    pub fn delta_since(&self, base: &Self) -> (r: Option<Self>)
        ensures
            r is Some <==> totals_cover(self.totals(), base.totals()) && delta_windows(
                self.retained(),
                base.retained(),
            ) is Some,
            r matches Some(x) ==> x.totals() == totals_minus(self.totals(), base.totals())
                && x.retained() == rebuilt(
                delta_windows(self.retained(), base.retained())->Some_0,
            ),
    {
        let t = self.window_totals();
        let b = base.window_totals();
        if t.total < b.total || t.scheduler_total < b.scheduler_total || t.command_total
            < b.command_total || t.governance_total < b.governance_total || t.publication_total
            < b.publication_total {
            return None;
        }
        let w = self.recent_windows();
        let bw = base.recent_windows();
        let recent_events = match newer_prefix_since(&w.recent_events, &bw.recent_events) {
            Some(v) => v,
            None => {
                return None;
            },
        };
        let recent_scheduler_events = match newer_prefix_since(
            &w.recent_scheduler_events,
            &bw.recent_scheduler_events,
        ) {
            Some(v) => v,
            None => {
                return None;
            },
        };
        let recent_command_events = match newer_prefix_since(
            &w.recent_command_events,
            &bw.recent_command_events,
        ) {
            Some(v) => v,
            None => {
                return None;
            },
        };
        let recent_governance_events = match newer_prefix_since(
            &w.recent_governance_events,
            &bw.recent_governance_events,
        ) {
            Some(v) => v,
            None => {
                return None;
            },
        };
        let recent_publication_events = match newer_prefix_since(
            &w.recent_publication_events,
            &bw.recent_publication_events,
        ) {
            Some(v) => v,
            None => {
                return None;
            },
        };
        let totals = SystemEventWindowTotals {
            total: t.total - b.total,
            scheduler_total: t.scheduler_total - b.scheduler_total,
            command_total: t.command_total - b.command_total,
            governance_total: t.governance_total - b.governance_total,
            publication_total: t.publication_total - b.publication_total,
        };
        let windows = SystemEventRecentWindows {
            recent_events,
            recent_scheduler_events,
            recent_command_events,
            recent_governance_events,
            recent_publication_events,
        };
        Some(SystemEventQueryIndex::from_recent_windows(totals, windows))
    }

    fn from_retained_events(totals: SystemEventWindowTotals, retained_events: &Vec<SystemEvent>) -> (r:
        Self)
        ensures
            r.totals() == totals,
            r.retained() == trimmed(retained_events@),
    {
        SystemEventQueryIndex {
            total: totals.total,
            scheduler_total: totals.scheduler_total,
            command_total: totals.command_total,
            governance_total: totals.governance_total,
            publication_total: totals.publication_total,
            retained_events: trim_events(retained_events),
        }
    }
}

} // verus!
