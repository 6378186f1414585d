//! Snapshot comparator: providers send full snapshots, and the tracker
//! derives discovery, repetition and withdrawal by comparing identities.

use crate::collections::{lemma_sorted_seq_of, sorted_seq_of, views_sorted, Ordered, OrderedMap};
use crate::findings::finding_provider::{ProviderScanReport, Severity};
use crate::findings::finding_read_model::{
    canonical, canonicalize, finding_views, FindingKey, FindingKeyView, ItemView,
    TrackedArtifactKey,
};
use vstd::prelude::*;

verus! {

/// Observable effect of recording one provider scan report.
#[derive(Debug, Clone, Copy, PartialEq, Eq)]
pub struct FindingChangeSet {
    /// Findings present now that were not present in the previous snapshot.
    pub discovered: usize,
    /// Findings present both before and now.
    pub repeated: usize,
    /// Findings that were present before but are absent now.
    pub withdrawn: usize,
    /// Total active findings after applying the new snapshot.
    pub active: usize,
}

impl FindingChangeSet {
    pub fn is_idle(&self) -> (r: bool)
        ensures
            r == (self.discovered == 0 && self.withdrawn == 0),
    {
        self.discovered == 0 && self.withdrawn == 0
    }
}

/// Number of elements of `s` that also occur in `t`.
pub open spec fn shared_count(s: Seq<FindingKeyView>, t: Set<FindingKeyView>) -> nat
    decreases s.len(),
{
    if s.len() == 0 {
        0
    } else {
        shared_count(s.drop_last(), t) + if t.contains(s.last()) {
            1nat
        } else {
            0nat
        }
    }
}

/// The change set of replacing snapshot `prev` by `cur`.
pub open spec fn change_set_of(prev: Set<FindingKeyView>, cur: Set<FindingKeyView>) -> (
    int,
    int,
    int,
    int,
) {
    let c = sorted_seq_of::<FindingKey>(cur);
    let p = sorted_seq_of::<FindingKey>(prev);
    (
        c.len() - shared_count(c, prev),
        shared_count(c, prev) as int,
        p.len() - shared_count(p, cur),
        c.len() as int,
    )
}

/// The identities of one snapshot of findings.
pub open spec fn snapshot_identities(report: ProviderScanReport) -> Set<FindingKeyView> {
    canonical(finding_views(report.findings@)).dom()
}

/// Every element of `s` is in `t`: all of `s` is shared.
proof fn lemma_shared_all(s: Seq<FindingKeyView>, t: Set<FindingKeyView>)
    requires
        forall|i: int| 0 <= i < s.len() ==> t.contains(#[trigger] s[i]),
    ensures
        shared_count(s, t) == s.len(),
    decreases s.len(),
{
    if s.len() > 0 {
        let init = s.drop_last();
        assert forall|i: int| 0 <= i < init.len() implies t.contains(#[trigger] init[i]) by {
            assert(init[i] == s[i]);
        }
        lemma_shared_all(init, t);
        assert(t.contains(s[s.len() - 1]));
    }
}

/// No element of `s` is in the empty set.
proof fn lemma_shared_none(s: Seq<FindingKeyView>)
    ensures
        shared_count(s, Set::empty()) == 0,
    decreases s.len(),
{
    if s.len() > 0 {
        lemma_shared_none(s.drop_last());
    }
}

/// Recording the same snapshot again discovers nothing and withdraws
/// nothing: every finding of it is repeated.
pub proof fn lemma_repeated_snapshot_is_idle(c: Seq<FindingKeyView>)
    requires
        views_sorted::<FindingKey>(c),
    ensures
        change_set_of(c.to_set(), c.to_set()) == (0int, c.len() as int, 0int, c.len() as int),
{
    lemma_sorted_seq_of::<FindingKey>(c);
    assert forall|i: int| 0 <= i < c.len() implies c.to_set().contains(#[trigger] c[i]) by {
        assert(c.to_set().contains(c[i]));
    }
    lemma_shared_all(c, c.to_set());
}

/// An empty snapshot withdraws every finding of the previous one and
/// leaves none active.
pub proof fn lemma_empty_snapshot_withdraws_all(p: Seq<FindingKeyView>)
    requires
        views_sorted::<FindingKey>(p),
    ensures
        change_set_of(p.to_set(), Set::empty()) == (0int, 0int, p.len() as int, 0int),
{
    lemma_sorted_seq_of::<FindingKey>(p);
    let e = Seq::<FindingKeyView>::empty();
    assert(views_sorted::<FindingKey>(e));
    lemma_sorted_seq_of::<FindingKey>(e);
    assert(e.to_set() =~= Set::<FindingKeyView>::empty());
    lemma_shared_none(p);
}

/// No more elements are shared than a snapshot has.
pub proof fn lemma_shared_count_bound(s: Seq<FindingKeyView>, t: Set<FindingKeyView>)
    ensures
        shared_count(s, t) <= s.len(),
    decreases s.len(),
{
    if s.len() > 0 {
        lemma_shared_count_bound(s.drop_last(), t);
    }
}

/// Count the elements of one sorted snapshot that occur in another.
fn count_shared(s: &OrderedMap<FindingKey, Severity>, t: &OrderedMap<FindingKey, Severity>) -> (r:
    usize)
    requires
        s.wf(),
        t.wf(),
    ensures
        r == shared_count(s.key_seq(), t@.dom()),
{
    proof {
        s.lemma_keys();
    }
    let n = s.len();
    let mut i: usize = 0;
    let mut c: usize = 0;
    while i < n
        invariant
            s.wf(),
            t.wf(),
            n == s.key_seq().len(),
            i <= n,
            c == shared_count(s.key_seq().take(i as int), t@.dom()),
        decreases n - i,
    {
        proof {
            assert(s.key_seq().take(i + 1).drop_last() =~= s.key_seq().take(i as int));
            lemma_shared_count_bound(s.key_seq().take(i as int), t@.dom());
        }
        if t.contains_key(s.key_at(i)) {
            c = c + 1;
        }
        i = i + 1;
    }
    assert(s.key_seq().take(n as int) =~= s.key_seq());
    c
}

/// In-memory snapshot comparator for provider scan reports.
pub struct FindingTracker {
    snapshots: OrderedMap<TrackedArtifactKey, OrderedMap<FindingKey, Severity>>,
}

impl View for FindingTracker {
    /// The identities of the last snapshot of each (component, artifact).
    type V = Map<ItemView, Set<FindingKeyView>>;

    closed spec fn view(&self) -> Map<ItemView, Set<FindingKeyView>> {
        self.snapshots@.map_values(|m: OrderedMap<FindingKey, Severity>| m@.dom())
    }
}

impl Default for FindingTracker {
    fn default() -> (r: Self)
        ensures
            r.wf(),
            r@ == Map::<ItemView, Set<FindingKeyView>>::empty(),
    {
        FindingTracker::new()
    }
}

/// The last snapshot of an item (empty when it was never reported).
pub open spec fn snapshot_at(v: Map<ItemView, Set<FindingKeyView>>, item: ItemView) -> Set<
    FindingKeyView,
> {
    if v.contains_key(item) {
        v[item]
    } else {
        Set::empty()
    }
}

impl FindingTracker {
    pub closed spec fn wf(&self) -> bool {
        &&& self.snapshots.wf()
        &&& forall|k: ItemView| #[trigger]
            self.snapshots@.contains_key(k) ==> self.snapshots@[k].wf()
    }

    pub fn new() -> (r: Self)
        ensures
            r.wf(),
            r@ == Map::<ItemView, Set<FindingKeyView>>::empty(),
    {
        let r = FindingTracker { snapshots: OrderedMap::new() };
        assert(r@ =~= Map::<ItemView, Set<FindingKeyView>>::empty());
        r
    }

    /// Record one provider snapshot and derive the resulting lifecycle changes.
    pub fn record_scan_report(&mut self, report: &ProviderScanReport) -> (r: FindingChangeSet)
        requires
            old(self).wf(),
        ensures
            final(self).wf(),
            ({
                let item = (report.component_key@, report.artifact@);
                let prev = snapshot_at(old(self)@, item);
                let cur = snapshot_identities(*report);
                &&& final(self)@ == old(self)@.insert(item, cur)
                &&& (r.discovered as int, r.repeated as int, r.withdrawn as int, r.active as int)
                    == change_set_of(prev, cur)
            }),
    {
        let ghost item = (report.component_key@, report.artifact@);
        let key = TrackedArtifactKey {
            component_key: report.component_key.clone(),
            artifact: report.artifact.clone(),
        };
        let current = canonicalize(&report.findings);
        proof {
            current.lemma_keys();
        }
        let ghost old_snapshots = self.snapshots@;
        let previous = match self.snapshots.remove(&key) {
            Some(p) => p,
            None => {
                let e: OrderedMap<FindingKey, Severity> = OrderedMap::new();
                proof {
                    e.lemma_keys();
                }
                e
            },
        };
        proof {
            previous.lemma_keys();
            assert(previous@.dom() == snapshot_at(old(self)@, item)) by {
                if old_snapshots.contains_key(item) {
                    assert(old(self)@[item] == old_snapshots[item]@.dom());
                } else {
                    assert(previous@.dom() =~= Set::<FindingKeyView>::empty());
                    assert(!old(self)@.contains_key(item));
                }
            }
        }
        let repeated = count_shared(&current, &previous);
        let kept = count_shared(&previous, &current);
        proof {
            lemma_shared_count_bound(current.key_seq(), previous@.dom());
            lemma_shared_count_bound(previous.key_seq(), current@.dom());
        }
        let active = current.len();
        let discovered = active - repeated;
        let withdrawn = previous.len() - kept;
        let ghost cur_dom = current@.dom();
        self.snapshots.insert(key, current);
        proof {
            assert(self@ =~= old(self)@.insert(item, cur_dom));
        }
        FindingChangeSet { discovered, repeated, withdrawn, active }
    }
}

} // verus!
