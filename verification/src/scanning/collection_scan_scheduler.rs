//! Materializing due collection schedules into scan requests.

use crate::collections::{views_of, views_sorted};
use crate::findings::finding_provider::ScanRequest;
use crate::inventory::component_inventory::{
    due_entries, ComponentInventory, DueKey, InventoryView,
};
use crate::scanning::scan_planning::{batch_requests, RequestView, ScanPlanner};
use vstd::prelude::*;

verus! {

/// Canonical due collection scan batch produced by one scheduler pass.
#[derive(Debug, PartialEq, Eq)]
pub struct DueCollectionScan {
    /// Stable collection identity that was due.
    pub collection_key: String,
    /// Due time that triggered this scheduler materialization.
    pub due_at_unix_ms: u64,
    /// Canonical scan requests materialized for this collection.
    pub requests: Vec<ScanRequest>,
    /// Next due time after this scheduler pass, in unix milliseconds.
    pub next_due_at_unix_ms: u64,
}

impl View for DueCollectionScan {
    type V = (Seq<char>, u64, Seq<RequestView>, u64);

    open spec fn view(&self) -> (Seq<char>, u64, Seq<RequestView>, u64) {
        (self.collection_key@, self.due_at_unix_ms, views_of(self.requests@), self.next_due_at_unix_ms)
    }
}

/// `now` plus the cadence in milliseconds, saturating at the largest time.
pub open spec fn next_due(now: u64, cadence_minutes: u32) -> u64 {
    let t = now + cadence_minutes * 60000;
    if t > u64::MAX {
        u64::MAX
    } else {
        t as u64
    }
}

/// What one scheduler pass materializes for a due collection.
pub open spec fn due_scan_of(v: InventoryView, key: Seq<char>, now: u64) -> (
    Seq<char>,
    u64,
    Seq<RequestView>,
    u64,
) {
    let s = v.collections[key].scan_schedule->Some_0;
    (
        key,
        s.next_due_at_unix_ms,
        batch_requests(v, v.collections[key].members, s.freshness),
        next_due(now, s.cadence_minutes),
    )
}

/// Minimal domain service that materializes due collection schedules into
/// scan requests; the pass only reads the inventory.
pub struct CollectionScanScheduler<'a> {
    inventory: &'a ComponentInventory,
}

fn cadence_minutes_to_millis(cadence_minutes: u32) -> (r: u64)
    ensures
        r == cadence_minutes * 60000,
{
    (cadence_minutes as u64) * 60 * 1_000
}

impl<'a> CollectionScanScheduler<'a> {
    /// The inventory that the scheduler reads.
    pub closed spec fn inventory_view(&self) -> InventoryView {
        self.inventory@
    }

    pub closed spec fn wf(&self) -> bool {
        self.inventory.wf()
    }

    pub fn new(inventory: &'a ComponentInventory) -> (r: Self)
        requires
            inventory.wf(),
        ensures
            r.wf(),
            r.inventory_view() == inventory@,
    {
        CollectionScanScheduler { inventory }
    }

    /// The collections due at `now`, by due time then key, at most
    /// `max_collections`, each expanded into its scan requests.
    pub fn collect_due(&mut self, now_unix_ms: u64, max_collections: usize) -> (r: Vec<
        DueCollectionScan,
    >)
        requires
            old(self).wf(),
        ensures
            *final(self) == *old(self),
            exists|s: Seq<(u64, Seq<char>)>|
                #![trigger s.to_set()]
                {
                    &&& views_sorted::<DueKey>(s)
                    &&& s.to_set() == due_entries(old(self).inventory_view(), now_unix_ms)
                    &&& r@.len() == (if max_collections < s.len() {
                        max_collections as int
                    } else {
                        s.len() as int
                    })
                    &&& forall|i: int|
                        0 <= i < r@.len() ==> (#[trigger] r@[i])@ == due_scan_of(
                            old(self).inventory_view(),
                            s[i].1,
                            now_unix_ms,
                        )
                },
    {
        let ghost v = self.inventory@;
        let keys = self.inventory.due_collection_keys(now_unix_ms, max_collections);
        let ghost s = choose|s: Seq<(u64, Seq<char>)>|
            #![trigger s.to_set()]
            views_sorted::<DueKey>(s) && s.to_set() == due_entries(v, now_unix_ms)
                && crate::order::texts(keys@) == s.take(
                if max_collections < s.len() {
                    max_collections as int
                } else {
                    s.len() as int
                },
            ).map_values(|e: (u64, Seq<char>)| e.1);
        let ghost n = if max_collections < s.len() {
            max_collections as int
        } else {
            s.len() as int
        };
        assert(keys@.len() == n) by {
            assert(crate::order::texts(keys@).len() == keys@.len());
        }
        let mut out: Vec<DueCollectionScan> = Vec::new();
        let mut i: usize = 0;
        while i < keys.len()
            invariant
                self.wf(),
                v == self.inventory@,
                s.to_set() == due_entries(v, now_unix_ms),
                0 <= n <= s.len(),
                keys@.len() == n,
                crate::order::texts(keys@) == s.take(n).map_values(|e: (u64, Seq<char>)| e.1),
                i <= keys@.len(),
                out@.len() == i,
                forall|j: int|
                    0 <= j < i ==> (#[trigger] out@[j])@ == due_scan_of(v, s[j].1, now_unix_ms),
            decreases keys.len() - i,
        {
            let key = &keys[i];
            proof {
                assert(crate::order::texts(keys@)[i as int] == key@);
                assert(s.take(n)[i as int] == s[i as int]);
                assert(s.to_set().contains(s[i as int]));
                assert(key@ == s[i as int].1);
            }
            let schedule = match self.inventory.collection_scan_schedule(key.as_str()) {
                Some(x) => x,
                None => {
                    assert(false);
                    i = i + 1;
                    continue;
                },
            };
            let planner = ScanPlanner::new(self.inventory);
            let batch = match planner.plan_collection(key.as_str(), schedule.freshness) {
                Ok(b) => b,
                Err(_) => {
                    assert(false);
                    i = i + 1;
                    continue;
                },
            };
            let next = now_unix_ms.saturating_add(cadence_minutes_to_millis(schedule.cadence_minutes));
            out.push(
                DueCollectionScan {
                    collection_key: key.clone(),
                    due_at_unix_ms: schedule.next_due_at_unix_ms,
                    requests: batch.requests,
                    next_due_at_unix_ms: next,
                },
            );
            i = i + 1;
        }
        out
    }
}

} // verus!
