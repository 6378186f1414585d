//! Release-scoped read projections: one row per managed collection with its
//! health, and an executive dashboard that aggregates the rows.

use crate::collections::{views_of, views_sorted};
use crate::findings::collection_health::{
    health_counts, health_model, observations, summarize_collection_health,
    CollectionHealthSummary, ComponentContext,
};
use crate::findings::finding_read_model::FindingReadModel;
use crate::inventory::component_inventory::{
    is_due, schedule_entries, scope_of, CollectionScanSchedule, ComponentInventory, InventoryView,
    ScheduleKey,
};
use vstd::prelude::*;

verus! {

/// One release row reusable across operator-facing release views.
#[derive(Debug, PartialEq, Eq)]
pub struct ReleaseBoardCollection {
    pub collection_key: String,
    pub name: String,
    pub members: usize,
    pub scan_schedule: Option<CollectionScanSchedule>,
    pub health: CollectionHealthSummary,
}

/// One compact reusable release-scoped read projection.
#[derive(Debug, PartialEq, Eq)]
pub struct ReleaseBoard {
    pub collections: Vec<ReleaseBoardCollection>,
}

/// Compact aggregate summary over the visible release dashboard.
#[derive(Debug, Clone, Copy, PartialEq, Eq, Default)]
pub struct ReleaseDashboardSummary {
    pub managed_collections: usize,
    pub scheduled_collections: usize,
    pub due_now_collections: usize,
    pub total_active_findings: usize,
    pub open_findings: usize,
    pub risk_accepted_findings: usize,
    pub suppressed_findings: usize,
    pub critical_risk_findings: usize,
    pub high_risk_findings: usize,
}

/// One release card in the dashboard.
#[derive(Debug, PartialEq, Eq)]
pub struct ReleaseDashboardCollection {
    pub collection_key: String,
    pub name: String,
    pub members: usize,
    pub due_now: bool,
    pub scan_schedule: Option<CollectionScanSchedule>,
    pub health: CollectionHealthSummary,
}

/// One operator-facing executive dashboard over managed release collections.
#[derive(Debug, PartialEq, Eq)]
pub struct ReleaseDashboard {
    pub summary: ReleaseDashboardSummary,
    pub collections: Vec<ReleaseDashboardCollection>,
}

/// Whether `x` is the board row of collection `key`.
pub open spec fn board_row_of(
    x: ReleaseBoardCollection,
    v: InventoryView,
    rv: crate::findings::finding_read_model::ReadModelView,
    ctx: Seq<(Seq<char>, Option<crate::inventory::context_profile::ContextProfileValues>)>,
    key: Seq<char>,
) -> bool {
    &&& x.collection_key@ == key
    &&& x.name@ == v.collections[key].name
    &&& x.members == v.collections[key].members.len()
    &&& x.scan_schedule == v.collections[key].scan_schedule
    &&& health_model(x.health) == health_counts(
        observations(rv, scope_of(v, v.collections[key].members), ctx),
    )
}

/// One row per managed collection, scheduled collections first by due
/// time, then unscheduled ones, each group in key order.
pub fn build_release_board(
    inventory: &ComponentInventory,
    contexts: &[ComponentContext],
    read_model: &FindingReadModel,
) -> (r: ReleaseBoard)
    requires
        inventory.wf(),
        read_model.wf(),
    ensures
        exists|s: Seq<(Option<u64>, Seq<char>)>|
            #![trigger s.to_set()]
            views_sorted::<ScheduleKey>(s) && s.to_set() == schedule_entries(inventory@)
                && r.collections@.len() == s.len() && forall|i: int|
                0 <= i < s.len() ==> board_row_of(
                    #[trigger] r.collections@[i],
                    inventory@,
                    read_model@,
                    views_of(contexts@),
                    s[i].1,
                ),
{
    let summaries = inventory.collection_operations_summaries(0);
    let ghost s = choose|s: Seq<(Option<u64>, Seq<char>)>|
        #![trigger s.to_set()]
        views_sorted::<ScheduleKey>(s) && s.to_set() == schedule_entries(inventory@)
            && summaries@.len() == s.len() && forall|i: int|
            0 <= i < s.len() ==> crate::inventory::component_inventory::summary_of(
                #[trigger] summaries@[i],
                inventory@,
                s[i].1,
                0,
            );
    let mut rows: Vec<ReleaseBoardCollection> = Vec::new();
    let mut i: usize = 0;
    while i < summaries.len()
        invariant
            inventory.wf(),
            read_model.wf(),
            summaries@.len() == s.len(),
            s.to_set() == schedule_entries(inventory@),
            forall|j: int|
                0 <= j < s.len() ==> crate::inventory::component_inventory::summary_of(
                    #[trigger] summaries@[j],
                    inventory@,
                    s[j].1,
                    0,
                ),
            i <= summaries@.len(),
            rows@.len() == i,
            forall|j: int|
                0 <= j < i ==> board_row_of(
                    #[trigger] rows@[j],
                    inventory@,
                    read_model@,
                    views_of(contexts@),
                    s[j].1,
                ),
        decreases summaries.len() - i,
    {
        let summary = &summaries[i];
        proof {
            assert(s.to_set().contains(s[i as int]));
            assert(summary.collection_key@ == s[i as int].1);
        }
        let health = match inventory.collection_scoped_artifacts(summary.collection_key.as_str()) {
            Some(scope) => summarize_collection_health(contexts, read_model, scope.as_slice()),
            None => {
                assert(false);
                CollectionHealthSummary {
                    total: 0,
                    open: 0,
                    risk_accepted: 0,
                    suppressed: 0,
                    critical_risk: 0,
                    high_risk: 0,
                }
            },
        };
        rows.push(
            ReleaseBoardCollection {
                collection_key: summary.collection_key.clone(),
                name: summary.name.clone(),
                members: summary.members,
                scan_schedule: summary.scan_schedule,
                health,
            },
        );
        i = i + 1;
    }
    ReleaseBoard { collections: rows }
}

/// The dashboard card of a board row at `now`.
pub open spec fn card_of(x: ReleaseDashboardCollection, row: ReleaseBoardCollection, now: u64) -> bool {
    &&& x.collection_key@ == row.collection_key@
    &&& x.name@ == row.name@
    &&& x.members == row.members
    &&& x.due_now == is_due(row.scan_schedule, now)
    &&& x.scan_schedule == row.scan_schedule
    &&& x.health == row.health
}

/// Totals over board rows: collections, scheduled ones, due ones, and the
/// sums of their health counts.
pub open spec fn board_totals(rows: Seq<ReleaseBoardCollection>, now: u64) -> (
    nat,
    nat,
    nat,
    nat,
    nat,
    nat,
    nat,
    nat,
    nat,
)
    decreases rows.len(),
{
    if rows.len() == 0 {
        (0, 0, 0, 0, 0, 0, 0, 0, 0)
    } else {
        let t = board_totals(rows.drop_last(), now);
        let x = rows.last();
        (
            t.0 + 1,
            t.1 + if x.scan_schedule is Some { 1nat } else { 0nat },
            t.2 + if is_due(x.scan_schedule, now) { 1nat } else { 0nat },
            t.3 + x.health.total as nat,
            t.4 + x.health.open as nat,
            t.5 + x.health.risk_accepted as nat,
            t.6 + x.health.suppressed as nat,
            t.7 + x.health.critical_risk as nat,
            t.8 + x.health.high_risk as nat,
        )
    }
}

/// The counts of a dashboard summary.
pub open spec fn dashboard_model(s: ReleaseDashboardSummary) -> (
    nat,
    nat,
    nat,
    nat,
    nat,
    nat,
    nat,
    nat,
    nat,
) {
    (
        s.managed_collections as nat,
        s.scheduled_collections as nat,
        s.due_now_collections as nat,
        s.total_active_findings as nat,
        s.open_findings as nat,
        s.risk_accepted_findings as nat,
        s.suppressed_findings as nat,
        s.critical_risk_findings as nat,
        s.high_risk_findings as nat,
    )
}

/// Whether every total over the rows fits in a machine word.
pub open spec fn totals_fit(t: (nat, nat, nat, nat, nat, nat, nat, nat, nat)) -> bool {
    t.3 <= usize::MAX && t.4 <= usize::MAX && t.5 <= usize::MAX && t.6 <= usize::MAX && t.7
        <= usize::MAX && t.8 <= usize::MAX
}

/// The totals of the first rows of a board count each of those rows once
/// and stay within the totals of the whole board.
pub proof fn lemma_board_totals_prefix(rows: Seq<ReleaseBoardCollection>, now: u64, i: int)
    requires
        0 <= i <= rows.len(),
    ensures
        board_totals(rows.take(i), now).0 == i,
        board_totals(rows.take(i), now).1 <= i,
        board_totals(rows.take(i), now).2 <= i,
        board_totals(rows.take(i), now).3 <= board_totals(rows, now).3,
        board_totals(rows.take(i), now).4 <= board_totals(rows, now).4,
        board_totals(rows.take(i), now).5 <= board_totals(rows, now).5,
        board_totals(rows.take(i), now).6 <= board_totals(rows, now).6,
        board_totals(rows.take(i), now).7 <= board_totals(rows, now).7,
        board_totals(rows.take(i), now).8 <= board_totals(rows, now).8,
    decreases rows.len() - i,
{
    lemma_board_totals_count(rows.take(i), now);
    if i < rows.len() {
        lemma_board_totals_prefix(rows, now, i + 1);
        assert(rows.take(i + 1).drop_last() =~= rows.take(i));
    } else {
        assert(rows.take(i) =~= rows);
        lemma_board_totals_count(rows, now);
    }
}

proof fn lemma_board_totals_count(rows: Seq<ReleaseBoardCollection>, now: u64)
    ensures
        board_totals(rows, now).0 == rows.len(),
        board_totals(rows, now).1 <= rows.len(),
        board_totals(rows, now).2 <= rows.len(),
    decreases rows.len(),
{
    if rows.len() > 0 {
        lemma_board_totals_count(rows.drop_last(), now);
    }
}

/// The executive dashboard of a board at `now`: one card per row, and the
/// totals over all rows.
pub fn build_release_dashboard(board: &ReleaseBoard, now_unix_ms: u64) -> (r: ReleaseDashboard)
    requires
        totals_fit(board_totals(board.collections@, now_unix_ms)),
    ensures
        r.collections@.len() == board.collections@.len(),
        forall|i: int|
            0 <= i < r.collections@.len() ==> card_of(
                #[trigger] r.collections@[i],
                board.collections@[i],
                now_unix_ms,
            ),
        dashboard_model(r.summary) == board_totals(board.collections@, now_unix_ms),
{
    let ghost rows = board.collections@;
    let mut cards: Vec<ReleaseDashboardCollection> = Vec::new();
    let mut summary = ReleaseDashboardSummary {
        managed_collections: 0,
        scheduled_collections: 0,
        due_now_collections: 0,
        total_active_findings: 0,
        open_findings: 0,
        risk_accepted_findings: 0,
        suppressed_findings: 0,
        critical_risk_findings: 0,
        high_risk_findings: 0,
    };
    let mut i: usize = 0;
    while i < board.collections.len()
        invariant
            rows == board.collections@,
            totals_fit(board_totals(rows, now_unix_ms)),
            i <= rows.len(),
            cards@.len() == i,
            forall|j: int| 0 <= j < i ==> card_of(#[trigger] cards@[j], rows[j], now_unix_ms),
            dashboard_model(summary) == board_totals(rows.take(i as int), now_unix_ms),
        decreases rows.len() - i,
    {
        let row = &board.collections[i];
        proof {
            lemma_board_totals_prefix(rows, now_unix_ms, i + 1);
            assert(rows.take(i + 1).drop_last() =~= rows.take(i as int));
            assert(rows.take(i + 1).last() == *row);
        }
        let due_now = match row.scan_schedule {
            Some(schedule) => schedule.next_due_at_unix_ms <= now_unix_ms,
            None => false,
        };
        summary.managed_collections = summary.managed_collections + 1;
        if row.scan_schedule.is_some() {
            summary.scheduled_collections = summary.scheduled_collections + 1;
        }
        if due_now {
            summary.due_now_collections = summary.due_now_collections + 1;
        }
        summary.total_active_findings = summary.total_active_findings + row.health.total;
        summary.open_findings = summary.open_findings + row.health.open;
        summary.risk_accepted_findings = summary.risk_accepted_findings + row.health.risk_accepted;
        summary.suppressed_findings = summary.suppressed_findings + row.health.suppressed;
        summary.critical_risk_findings = summary.critical_risk_findings + row.health.critical_risk;
        summary.high_risk_findings = summary.high_risk_findings + row.health.high_risk;
        cards.push(
            ReleaseDashboardCollection {
                collection_key: row.collection_key.clone(),
                name: row.name.clone(),
                members: row.members,
                due_now,
                scan_schedule: row.scan_schedule,
                health: row.health,
            },
        );
        i = i + 1;
    }
    assert(rows.take(i as int) =~= rows);
    ReleaseDashboard { summary, collections: cards }
}

} // verus!
