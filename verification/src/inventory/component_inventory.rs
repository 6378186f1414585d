//! In-memory inventory of managed components, their immutable artifacts, and
//! the closed collections (releases) they belong to.

use crate::collections::{lemma_sorted_unique, Ordered, OrderedMap, OrderedSet, views_sorted};
use crate::findings::finding_provider::{ArtifactRef, EvidenceFreshness};
use crate::order::{copy_opt, lemma_text_order, opt_text, owned, text_before, text_eq, text_rank, Rank};
use vstd::prelude::*;

verus! {

/// Canonical registration request for one managed component.
#[derive(Debug, PartialEq, Eq)]
pub struct ComponentRegistration {
    /// Stable component identity.
    pub component_key: String,
    /// Human-readable component name.
    pub name: String,
}

impl View for ComponentRegistration {
    type V = (Seq<char>, Seq<char>);

    open spec fn view(&self) -> (Seq<char>, Seq<char>) {
        (self.component_key@, self.name@)
    }
}

impl Clone for ComponentRegistration {
    fn clone(&self) -> (r: Self)
        ensures
            r == *self,
    {
        ComponentRegistration { component_key: self.component_key.clone(), name: self.name.clone() }
    }
}

impl ComponentRegistration {
    pub fn new(component_key: &str, name: &str) -> (r: Self)
        ensures
            r.component_key@ == component_key@,
            r.name@ == name@,
    {
        ComponentRegistration { component_key: owned(component_key), name: owned(name) }
    }
}

/// Observable outcome of a component registration attempt.
#[derive(Debug, Clone, Copy, PartialEq, Eq, Structural)]
pub enum RegisterComponentChange {
    /// The component key was new and is now managed.
    Registered,
    /// The same component was registered again with the same canonical data.
    Unchanged,
    /// The component key already exists with conflicting canonical data.
    Rejected,
}

impl RegisterComponentChange {
    pub fn as_str(self) -> (r: &'static str)
        ensures
            r@ == (match self {
                Self::Registered => "registered"@,
                Self::Unchanged => "unchanged"@,
                Self::Rejected => "rejected"@,
            }),
    {
        match self {
            Self::Registered => "registered",
            Self::Unchanged => "unchanged",
            Self::Rejected => "rejected",
        }
    }
}

/// Result of one registration command.
#[derive(Debug, Clone, Copy, PartialEq, Eq)]
pub struct RegisterComponentResult {
    /// Observable state change caused by the registration attempt.
    pub change: RegisterComponentChange,
    /// Total number of managed components after the operation.
    pub managed_components: usize,
}

/// Observable outcome of binding one immutable artifact to a managed component.
#[derive(Debug, Clone, Copy, PartialEq, Eq, Structural)]
pub enum BindArtifactChange {
    /// The artifact is now bound to the component.
    Bound,
    /// The exact same ownership binding already existed.
    Unchanged,
    /// The component is missing or the artifact already belongs to another component.
    Rejected,
}

impl BindArtifactChange {
    pub fn as_str(self) -> (r: &'static str)
        ensures
            r@ == (match self {
                Self::Bound => "bound"@,
                Self::Unchanged => "unchanged"@,
                Self::Rejected => "rejected"@,
            }),
    {
        match self {
            Self::Bound => "bound",
            Self::Unchanged => "unchanged",
            Self::Rejected => "rejected",
        }
    }
}

/// Result of binding one artifact to a managed component.
#[derive(Debug, Clone, Copy, PartialEq, Eq)]
pub struct BindArtifactResult {
    /// Observable state change caused by the binding attempt.
    pub change: BindArtifactChange,
    /// Total number of artifacts currently bound to the component.
    pub bound_artifacts: usize,
}

/// Observable outcome of configuring one component provider runtime.
#[derive(Debug, Clone, Copy, PartialEq, Eq, Structural)]
pub enum ConfigureProviderChange {
    /// The component now has a provider runtime configuration.
    Configured,
    /// The exact same provider runtime configuration already existed.
    Unchanged,
    /// The configuration was rejected because the component is missing.
    Rejected,
}

impl ConfigureProviderChange {
    pub fn as_str(self) -> (r: &'static str)
        ensures
            r@ == (match self {
                Self::Configured => "configured"@,
                Self::Unchanged => "unchanged"@,
                Self::Rejected => "rejected"@,
            }),
    {
        match self {
            Self::Configured => "configured",
            Self::Unchanged => "unchanged",
            Self::Rejected => "rejected",
        }
    }
}

/// Result of configuring one component provider runtime.
#[derive(Debug, PartialEq, Eq)]
pub struct ConfigureProviderResult {
    /// Observable state change caused by the configuration attempt.
    pub change: ConfigureProviderChange,
    /// Configured provider key after the operation when the component exists.
    pub provider_key: Option<String>,
}

/// Canonical registration request for one managed collection.
#[derive(Debug, PartialEq, Eq)]
pub struct CollectionRegistration {
    /// Stable collection identity.
    pub collection_key: String,
    /// Human-readable collection name.
    pub name: String,
}

impl View for CollectionRegistration {
    type V = (Seq<char>, Seq<char>);

    open spec fn view(&self) -> (Seq<char>, Seq<char>) {
        (self.collection_key@, self.name@)
    }
}

impl Clone for CollectionRegistration {
    fn clone(&self) -> (r: Self)
        ensures
            r == *self,
    {
        CollectionRegistration {
            collection_key: self.collection_key.clone(),
            name: self.name.clone(),
        }
    }
}

impl CollectionRegistration {
    pub fn new(collection_key: &str, name: &str) -> (r: Self)
        ensures
            r.collection_key@ == collection_key@,
            r.name@ == name@,
    {
        CollectionRegistration { collection_key: owned(collection_key), name: owned(name) }
    }
}

/// Observable outcome of one collection creation attempt.
#[derive(Debug, Clone, Copy, PartialEq, Eq, Structural)]
pub enum RegisterCollectionChange {
    /// The collection key was new and is now managed.
    Created,
    /// The same collection was created again with the same canonical data.
    Unchanged,
    /// The collection key already exists with conflicting canonical data.
    Rejected,
}

impl RegisterCollectionChange {
    pub fn as_str(self) -> (r: &'static str)
        ensures
            r@ == (match self {
                Self::Created => "created"@,
                Self::Unchanged => "unchanged"@,
                Self::Rejected => "rejected"@,
            }),
    {
        match self {
            Self::Created => "created",
            Self::Unchanged => "unchanged",
            Self::Rejected => "rejected",
        }
    }
}

/// Result of one collection creation command.
#[derive(Debug, Clone, Copy, PartialEq, Eq)]
pub struct RegisterCollectionResult {
    /// Observable state change caused by the collection creation attempt.
    pub change: RegisterCollectionChange,
    /// Total number of managed collections after the operation.
    pub managed_collections: usize,
}

/// Observable outcome of adding one managed component to one collection.
#[derive(Debug, Clone, Copy, PartialEq, Eq, Structural)]
pub enum AddCollectionComponentChange {
    /// The component is now part of the collection.
    Added,
    /// The exact same membership already existed.
    Unchanged,
    /// The collection or component is unknown.
    Rejected,
}

impl AddCollectionComponentChange {
    pub fn as_str(self) -> (r: &'static str)
        ensures
            r@ == (match self {
                Self::Added => "added"@,
                Self::Unchanged => "unchanged"@,
                Self::Rejected => "rejected"@,
            }),
    {
        match self {
            Self::Added => "added",
            Self::Unchanged => "unchanged",
            Self::Rejected => "rejected",
        }
    }
}

/// Result of adding one managed component to one collection.
#[derive(Debug, Clone, Copy, PartialEq, Eq)]
pub struct AddCollectionComponentResult {
    /// Observable state change caused by the membership attempt.
    pub change: AddCollectionComponentChange,
    /// Total number of members currently in the collection after the operation.
    pub members: usize,
}

/// Observable outcome of removing one managed component from one collection.
#[derive(Debug, Clone, Copy, PartialEq, Eq, Structural)]
pub enum RemoveCollectionComponentChange {
    /// The component is no longer part of the collection.
    Removed,
    /// The component was already absent from the collection.
    Unchanged,
    /// The collection is unknown.
    Rejected,
}

impl RemoveCollectionComponentChange {
    pub fn as_str(self) -> (r: &'static str)
        ensures
            r@ == (match self {
                Self::Removed => "removed"@,
                Self::Unchanged => "unchanged"@,
                Self::Rejected => "rejected"@,
            }),
    {
        match self {
            Self::Removed => "removed",
            Self::Unchanged => "unchanged",
            Self::Rejected => "rejected",
        }
    }
}

/// Result of removing one managed component from one collection.
#[derive(Debug, Clone, Copy, PartialEq, Eq)]
pub struct RemoveCollectionComponentResult {
    /// Observable state change caused by the membership removal attempt.
    pub change: RemoveCollectionComponentChange,
    /// Total number of members currently in the collection after the operation.
    pub members: usize,
}

/// Durable periodic scan schedule attached to one managed collection.
#[derive(Debug, Clone, Copy, PartialEq, Eq)]
pub struct CollectionScanSchedule {
    /// Explicit periodic cadence in minutes.
    pub cadence_minutes: u32,
    /// Freshness mode that every materialized collection scan request must use.
    pub freshness: EvidenceFreshness,
    /// Unix time in milliseconds when the next scheduler pass may materialize one batch.
    pub next_due_at_unix_ms: u64,
    /// Unix time in milliseconds when one scheduler pass last materialized this collection.
    pub last_materialized_at_unix_ms: Option<u64>,
    /// Number of scan commands enqueued by the last scheduler pass.
    pub last_enqueued_commands: Option<u32>,
}

/// Whether two optional schedules are equal.
fn same_schedule(a: Option<CollectionScanSchedule>, b: Option<CollectionScanSchedule>) -> (r: bool)
    ensures
        r == (a == b),
{
    match (a, b) {
        (Some(x), Some(y)) => {
            let m1 = match (x.last_materialized_at_unix_ms, y.last_materialized_at_unix_ms) {
                (Some(p), Some(q)) => p == q,
                (None, None) => true,
                _ => false,
            };
            let m2 = match (x.last_enqueued_commands, y.last_enqueued_commands) {
                (Some(p), Some(q)) => p == q,
                (None, None) => true,
                _ => false,
            };
            x.cadence_minutes == y.cadence_minutes && x.freshness == y.freshness
                && x.next_due_at_unix_ms == y.next_due_at_unix_ms && m1 && m2
        },
        (None, None) => true,
        _ => false,
    }
}

/// Observable outcome of configuring one collection scan schedule.
#[derive(Debug, Clone, Copy, PartialEq, Eq, Structural)]
pub enum ConfigureCollectionScanScheduleChange {
    /// The collection now has one schedule or its schedule changed.
    Configured,
    /// The exact same schedule already existed.
    Unchanged,
    /// The configuration was rejected because the collection is missing or invalid.
    Rejected,
}

impl ConfigureCollectionScanScheduleChange {
    pub fn as_str(self) -> (r: &'static str)
        ensures
            r@ == (match self {
                Self::Configured => "configured"@,
                Self::Unchanged => "unchanged"@,
                Self::Rejected => "rejected"@,
            }),
    {
        match self {
            Self::Configured => "configured",
            Self::Unchanged => "unchanged",
            Self::Rejected => "rejected",
        }
    }
}

/// Result of configuring one collection scan schedule.
#[derive(Debug, Clone, Copy, PartialEq, Eq)]
pub struct ConfigureCollectionScanScheduleResult {
    /// Observable state change caused by the schedule configuration attempt.
    pub change: ConfigureCollectionScanScheduleChange,
    /// Schedule visible after the operation when the collection exists.
    pub schedule: Option<CollectionScanSchedule>,
}

/// Operator-facing snapshot of one managed collection.
#[derive(Debug, PartialEq, Eq)]
pub struct ManagedCollection {
    /// Stable collection identity.
    pub collection_key: String,
    /// Human-readable collection name.
    pub name: String,
    /// Canonical managed component keys in the collection, in key order.
    pub component_keys: Vec<String>,
    /// Optional periodic collection scan schedule.
    pub scan_schedule: Option<CollectionScanSchedule>,
}

/// Operator-facing summary of one managed collection in the release operations view.
#[derive(Debug, PartialEq, Eq)]
pub struct ManagedCollectionOperationsSummary {
    /// Stable collection identity.
    pub collection_key: String,
    /// Human-readable collection name.
    pub name: String,
    /// Total number of managed members currently in the collection.
    pub members: usize,
    /// Optional periodic collection scan schedule.
    pub scan_schedule: Option<CollectionScanSchedule>,
    /// Whether the collection is due for one scheduler pass now.
    pub due_now: bool,
}

/// The model of one managed component.
pub struct ComponentModel {
    pub name: Seq<char>,
    /// Bound artifacts, in artifact order.
    pub artifacts: Seq<(crate::findings::ArtifactKind, Seq<char>)>,
    pub provider_key: Option<Seq<char>>,
}

/// The model of one managed collection.
pub struct CollectionModel {
    pub name: Seq<char>,
    /// Member component keys, in key order.
    pub members: Seq<Seq<char>>,
    pub scan_schedule: Option<CollectionScanSchedule>,
}

/// The model of the inventory: components and collections by key.
pub struct InventoryView {
    pub components: Map<Seq<char>, ComponentModel>,
    pub collections: Map<Seq<char>, CollectionModel>,
}

struct ComponentRecord {
    registration: ComponentRegistration,
    artifacts: OrderedSet<ArtifactRef>,
    provider_key: Option<String>,
}

impl View for ComponentRecord {
    type V = ComponentModel;

    closed spec fn view(&self) -> ComponentModel {
        ComponentModel {
            name: self.registration.name@,
            artifacts: self.artifacts@,
            provider_key: opt_text(self.provider_key),
        }
    }
}

struct CollectionRecord {
    registration: CollectionRegistration,
    component_keys: OrderedSet<String>,
    scan_schedule: Option<CollectionScanSchedule>,
}

impl View for CollectionRecord {
    type V = CollectionModel;

    closed spec fn view(&self) -> CollectionModel {
        CollectionModel {
            name: self.registration.name@,
            members: self.component_keys@,
            scan_schedule: self.scan_schedule,
        }
    }
}

/// The keys of a model map, in increasing text order.
pub open spec fn key_order<V>(s: Seq<Seq<char>>, m: Map<Seq<char>, V>) -> bool {
    views_sorted::<String>(s) && s.to_set() == m.dom()
}

/// Number of artifacts bound to a component (0 when it is not managed).
pub open spec fn bound_count(v: InventoryView, key: Seq<char>) -> nat {
    if v.components.contains_key(key) {
        v.components[key].artifacts.len()
    } else {
        0
    }
}

/// Number of members of a collection (0 when it is not managed).
pub open spec fn member_count(v: InventoryView, key: Seq<char>) -> nat {
    if v.collections.contains_key(key) {
        v.collections[key].members.len()
    } else {
        0
    }
}

/// Whether a component other than `key` owns the artifact.
pub open spec fn owned_elsewhere(
    v: InventoryView,
    key: Seq<char>,
    a: (crate::findings::ArtifactKind, Seq<char>),
) -> bool {
    exists|o: Seq<char>|
        #![trigger v.components[o]]
        o != key && v.components.contains_key(o) && v.components[o].artifacts.contains(a)
}

/// Whether a collection's schedule is due at `now`.
pub open spec fn is_due(s: Option<CollectionScanSchedule>, now: u64) -> bool {
    match s {
        Some(x) => x.next_due_at_unix_ms <= now,
        None => false,
    }
}

/// Minimal in-memory inventory of managed components, their immutable
/// artifacts, and managed collections.
pub struct ComponentInventory {
    components: OrderedMap<String, ComponentRecord>,
    collections: OrderedMap<String, CollectionRecord>,
}

impl View for ComponentInventory {
    type V = InventoryView;

    closed spec fn view(&self) -> InventoryView {
        InventoryView {
            components: self.components@.map_values(|r: ComponentRecord| r@),
            collections: self.collections@.map_values(|r: CollectionRecord| r@),
        }
    }
}

impl Default for ComponentInventory {
    fn default() -> (r: Self)
        ensures
            r.wf(),
            r@.components == Map::<Seq<char>, ComponentModel>::empty(),
            r@.collections == Map::<Seq<char>, CollectionModel>::empty(),
    {
        let r = ComponentInventory { components: OrderedMap::new(), collections: OrderedMap::new() };
        assert(r@.components =~= Map::<Seq<char>, ComponentModel>::empty());
        assert(r@.collections =~= Map::<Seq<char>, CollectionModel>::empty());
        r
    }
}

impl ComponentInventory {
    pub closed spec fn wf(&self) -> bool {
        &&& self.components.wf()
        &&& self.collections.wf()
        &&& forall|k: Seq<char>|
            #[trigger] self.components@.contains_key(k) ==> self.components@[k].artifacts.wf()
                && self.components@[k].registration.component_key@ == k
        &&& forall|k: Seq<char>|
            #[trigger] self.collections@.contains_key(k) ==> self.collections@[k].component_keys.wf()
                && self.collections@[k].registration.collection_key@ == k
    }

    /// The managed artifacts and members are kept in order.
    pub proof fn lemma_sorted(&self)
        requires
            self.wf(),
        ensures
            inventory_sorted(self@),
    {
        self.lemma_wf();
    }

    /// Each component's artifacts and each collection's members are kept in
    /// increasing order.
    pub proof fn lemma_wf(&self)
        requires
            self.wf(),
        ensures
            forall|k: Seq<char>|
                #[trigger] self@.components.contains_key(k) ==> views_sorted::<ArtifactRef>(
                    self@.components[k].artifacts,
                ),
            forall|k: Seq<char>|
                #[trigger] self@.collections.contains_key(k) ==> views_sorted::<String>(
                    self@.collections[k].members,
                ),
            self@.components.dom().finite(),
            self@.collections.dom().finite(),
    {
        self.components.lemma_keys();
        self.collections.lemma_keys();
        assert(self@.components.dom() =~= self.components@.dom());
        assert(self@.collections.dom() =~= self.collections@.dom());
    }

    /// Register one component under management.
    pub fn register(&mut self, registration: ComponentRegistration) -> (r: RegisterComponentResult)
        requires
            old(self).wf(),
        ensures
            final(self).wf(),
            register_outcome(old(self)@, registration, final(self)@, r),
    {
        let key = registration.component_key.clone();
        let change = match self.components.get(&key) {
            Some(existing) => {
                if text_eq(existing.registration.name.as_str(), registration.name.as_str()) {
                    RegisterComponentChange::Unchanged
                } else {
                    RegisterComponentChange::Rejected
                }
            },
            None => {
                let ghost before = self.components@;
                let rec = ComponentRecord {
                    registration,
                    artifacts: OrderedSet::new(),
                    provider_key: None,
                };
                self.components.insert(key, rec);
                proof {
                    assert(self@.components =~= old(self)@.components.insert(
                        key@,
                        ComponentModel { name: rec.registration.name@, artifacts: seq![], provider_key: None },
                    ));
                }
                RegisterComponentChange::Registered
            },
        };
        let n = self.components.len();
        proof {
            assert(self.components@.dom() =~= self@.components.dom());
        }
        RegisterComponentResult { change, managed_components: n }
    }

    proof fn lemma_view(&self)
        ensures
            self@.components.dom() == self.components@.dom(),
            self@.collections.dom() == self.collections@.dom(),
            forall|k: Seq<char>|
                #[trigger] self.components@.contains_key(k) ==> self@.components[k]
                    == self.components@[k]@,
            forall|k: Seq<char>|
                #[trigger] self.collections@.contains_key(k) ==> self@.collections[k]
                    == self.collections@[k]@,
    {
        assert(self@.components.dom() =~= self.components@.dom());
        assert(self@.collections.dom() =~= self.collections@.dom());
    }

    pub fn is_managed(&self, component_key: &str) -> (r: bool)
        requires
            self.wf(),
        ensures
            r == self@.components.contains_key(component_key@),
    {
        proof {
            self.lemma_view();
        }
        let k = owned(component_key);
        self.components.contains_key(&k)
    }

    pub fn component_owns_artifact(&self, component_key: &str, artifact: &ArtifactRef) -> (r: bool)
        requires
            self.wf(),
        ensures
            r == (self@.components.contains_key(component_key@)
                && self@.components[component_key@].artifacts.contains(artifact@)),
    {
        proof {
            self.lemma_view();
        }
        let k = owned(component_key);
        match self.components.get(&k) {
            Some(rec) => rec.artifacts.contains(artifact),
            None => false,
        }
    }

    pub fn managed_components(&self) -> (r: usize)
        requires
            self.wf(),
        ensures
            r == self@.components.len(),
    {
        proof {
            self.lemma_view();
        }
        self.components.len()
    }

    pub fn bound_artifacts(&self, component_key: &str) -> (r: usize)
        requires
            self.wf(),
        ensures
            r == bound_count(self@, component_key@),
    {
        proof {
            self.lemma_view();
        }
        let k = owned(component_key);
        match self.components.get(&k) {
            Some(rec) => rec.artifacts.len(),
            None => 0,
        }
    }

    pub fn configured_provider(&self, component_key: &str) -> (r: Option<&str>)
        requires
            self.wf(),
        ensures
            r is Some <==> (self@.components.contains_key(component_key@)
                && self@.components[component_key@].provider_key is Some),
            r matches Some(p) ==> Some(p@) == self@.components[component_key@].provider_key,
    {
        proof {
            self.lemma_view();
        }
        let k = owned(component_key);
        match self.components.get(&k) {
            Some(rec) => match &rec.provider_key {
                Some(p) => Some(p.as_str()),
                None => None,
            },
            None => None,
        }
    }

    pub fn bound_artifact_refs(&self, component_key: &str) -> (r: Option<Vec<ArtifactRef>>)
        requires
            self.wf(),
        ensures
            r is Some <==> self@.components.contains_key(component_key@),
            r matches Some(v) ==> crate::collections::views_of(v@)
                == self@.components[component_key@].artifacts,
    {
        proof {
            self.lemma_view();
        }
        let k = owned(component_key);
        match self.components.get(&k) {
            Some(rec) => {
                let mut out: Vec<ArtifactRef> = Vec::new();
                let mut i: usize = 0;
                while i < rec.artifacts.len()
                    invariant
                        i <= rec.artifacts@.len(),
                        crate::collections::views_of(out@) == rec.artifacts@.take(i as int),
                    decreases rec.artifacts@.len() - i,
                {
                    out.push(rec.artifacts.get(i).clone());
                    assert(rec.artifacts@.take(i + 1) =~= rec.artifacts@.take(i as int).push(
                        rec.artifacts@[i as int],
                    ));
                    assert(crate::collections::views_of(out@) =~= rec.artifacts@.take(i + 1));
                    i = i + 1;
                }
                assert(rec.artifacts@.take(i as int) =~= rec.artifacts@);
                Some(out)
            },
            None => None,
        }
    }

    pub fn is_collection_managed(&self, collection_key: &str) -> (r: bool)
        requires
            self.wf(),
        ensures
            r == self@.collections.contains_key(collection_key@),
    {
        proof {
            self.lemma_view();
        }
        let k = owned(collection_key);
        self.collections.contains_key(&k)
    }

    pub fn managed_collections(&self) -> (r: usize)
        requires
            self.wf(),
        ensures
            r == self@.collections.len(),
    {
        proof {
            self.lemma_view();
        }
        self.collections.len()
    }

    pub fn collection_member_count(&self, collection_key: &str) -> (r: usize)
        requires
            self.wf(),
        ensures
            r == member_count(self@, collection_key@),
    {
        proof {
            self.lemma_view();
        }
        let k = owned(collection_key);
        match self.collections.get(&k) {
            Some(rec) => rec.component_keys.len(),
            None => 0,
        }
    }

    pub fn collection_members(&self, collection_key: &str) -> (r: Option<Vec<String>>)
        requires
            self.wf(),
        ensures
            r is Some <==> self@.collections.contains_key(collection_key@),
            r matches Some(v) ==> crate::order::texts(v@)
                == self@.collections[collection_key@].members,
    {
        proof {
            self.lemma_view();
        }
        let k = owned(collection_key);
        match self.collections.get(&k) {
            Some(rec) => Some(copy_members(&rec.component_keys)),
            None => None,
        }
    }

    pub fn collection_scan_schedule(&self, collection_key: &str) -> (r: Option<
        CollectionScanSchedule,
    >)
        requires
            self.wf(),
        ensures
            r == (if self@.collections.contains_key(collection_key@) {
                self@.collections[collection_key@].scan_schedule
            } else {
                None
            }),
    {
        proof {
            self.lemma_view();
        }
        let k = owned(collection_key);
        match self.collections.get(&k) {
            Some(rec) => rec.scan_schedule,
            None => None,
        }
    }

    /// Whether some component other than `component_key` owns the artifact.
    fn artifact_owned_elsewhere(&self, component_key: &str, artifact: &ArtifactRef) -> (r: bool)
        requires
            self.wf(),
        ensures
            r == owned_elsewhere(self@, component_key@, artifact@),
    {
        proof {
            self.lemma_view();
            self.components.lemma_keys();
        }
        let n = self.components.len();
        let mut i: usize = 0;
        while i < n
            invariant
                self.wf(),
                n == self.components.key_seq().len(),
                i <= n,
                forall|j: int|
                    0 <= j < i ==> !(#[trigger] self.components.key_seq()[j] != component_key@
                        && self@.components[self.components.key_seq()[j]].artifacts.contains(
                        artifact@,
                    )),
            decreases n - i,
        {
            let key = self.components.key_at(i);
            let rec = self.components.value_at(i);
            proof {
                self.lemma_view();
            }
            if !text_eq(key.as_str(), component_key) && rec.artifacts.contains(artifact) {
                return true;
            }
            i = i + 1;
        }
        proof {
            self.components.lemma_keys();
            if owned_elsewhere(self@, component_key@, artifact@) {
                let o = choose|o: Seq<char>|
                    #![trigger self@.components[o]]
                    o != component_key@ && self@.components.contains_key(o)
                        && self@.components[o].artifacts.contains(artifact@);
                self.lemma_view();
                assert(self.components.key_seq().to_set().contains(o));
                let j = choose|j: int|
                    0 <= j < self.components.key_seq().len() && self.components.key_seq()[j] == o;
                assert(self.components.key_seq()[j] == o);
            }
        }
        false
    }

    /// Bind one immutable artifact to an already managed component.
    pub fn bind_artifact(&mut self, component_key: &str, artifact: ArtifactRef) -> (r:
        BindArtifactResult)
        requires
            old(self).wf(),
        ensures
            final(self).wf(),
            bind_outcome(old(self)@, component_key@, artifact, final(self)@, r),
    {
        proof {
            self.lemma_view();
        }
        if self.artifact_owned_elsewhere(component_key, &artifact) {
            let n = self.bound_artifacts(component_key);
            return BindArtifactResult { change: BindArtifactChange::Rejected, bound_artifacts: n };
        }
        let k = owned(component_key);
        let ghost old_map = self.components@;
        match self.components.remove(&k) {
            None => {
                proof {
                    assert(self.components@ =~= old_map);
                    assert(self@ == old(self)@);
                }
                BindArtifactResult { change: BindArtifactChange::Rejected, bound_artifacts: 0 }
            },
            Some(rec) => {
                let mut rec = rec;
                let ghost before = rec@;
                let added = rec.artifacts.insert(artifact);
                let n = rec.artifacts.len();
                let ghost after = rec@;
                self.components.insert(k, rec);
                proof {
                    assert(self.components@ =~= old_map.insert(k@, rec));
                    self.lemma_view();
                    assert(self@.components =~= old(self)@.components.insert(component_key@, after));
                    if !added {
                        assert(after == before);
                        assert(self@.components =~= old(self)@.components);
                    }
                }
                BindArtifactResult {
                    change: if added {
                        BindArtifactChange::Bound
                    } else {
                        BindArtifactChange::Unchanged
                    },
                    bound_artifacts: n,
                }
            },
        }
    }
}

impl ComponentInventory {
    /// Configure one finding provider runtime for a managed component.
    pub fn configure_provider(&mut self, component_key: &str, provider_key: &str) -> (r:
        ConfigureProviderResult)
        requires
            old(self).wf(),
        ensures
            final(self).wf(),
            provider_outcome(old(self)@, component_key@, provider_key@, final(self)@, r),
    {
        proof {
            self.lemma_view();
        }
        let k = owned(component_key);
        let ghost old_map = self.components@;
        match self.components.remove(&k) {
            None => {
                proof {
                    assert(self.components@ =~= old_map);
                }
                ConfigureProviderResult { change: ConfigureProviderChange::Rejected, provider_key: None }
            },
            Some(rec) => {
                let mut rec = rec;
                let ghost before = rec@;
                let same = match &rec.provider_key {
                    Some(p) => text_eq(p.as_str(), provider_key),
                    None => false,
                };
                if !same {
                    rec.provider_key = Some(owned(provider_key));
                }
                let out = copy_opt(&rec.provider_key);
                let ghost after = rec@;
                self.components.insert(k, rec);
                proof {
                    assert(self.components@ =~= old_map.insert(k@, rec));
                    self.lemma_view();
                    assert(self@.components =~= old(self)@.components.insert(component_key@, after));
                    if same {
                        assert(after == before);
                        assert(self@.components =~= old(self)@.components);
                    }
                }
                ConfigureProviderResult {
                    change: if same {
                        ConfigureProviderChange::Unchanged
                    } else {
                        ConfigureProviderChange::Configured
                    },
                    provider_key: out,
                }
            },
        }
    }

    /// Register one closed collection under management.
    pub fn register_collection(&mut self, registration: CollectionRegistration) -> (r:
        RegisterCollectionResult)
        requires
            old(self).wf(),
        ensures
            final(self).wf(),
            collection_outcome(old(self)@, registration, final(self)@, r),
    {
        proof {
            self.lemma_view();
        }
        let key = registration.collection_key.clone();
        let change = match self.collections.get(&key) {
            Some(existing) => {
                if text_eq(existing.registration.name.as_str(), registration.name.as_str()) {
                    RegisterCollectionChange::Unchanged
                } else {
                    RegisterCollectionChange::Rejected
                }
            },
            None => {
                let rec = CollectionRecord {
                    registration,
                    component_keys: OrderedSet::new(),
                    scan_schedule: None,
                };
                self.collections.insert(key, rec);
                proof {
                    self.lemma_view();
                    assert(self@.collections =~= old(self)@.collections.insert(
                        key@,
                        CollectionModel { name: rec.registration.name@, members: seq![], scan_schedule: None },
                    ));
                }
                RegisterCollectionChange::Created
            },
        };
        proof {
            self.lemma_view();
        }
        let n = self.collections.len();
        RegisterCollectionResult { change, managed_collections: n }
    }

    /// Add one managed component to one collection.
    pub fn add_component_to_collection(&mut self, collection_key: &str, component_key: &str) -> (r:
        AddCollectionComponentResult)
        requires
            old(self).wf(),
        ensures
            final(self).wf(),
            member_added_outcome(old(self)@, collection_key@, component_key@, final(self)@, r),
    {
        proof {
            self.lemma_view();
        }
        if !self.is_managed(component_key) {
            let n = self.collection_member_count(collection_key);
            return AddCollectionComponentResult {
                change: AddCollectionComponentChange::Rejected,
                members: n,
            };
        }
        let k = owned(collection_key);
        let ghost old_map = self.collections@;
        match self.collections.remove(&k) {
            None => {
                proof {
                    assert(self.collections@ =~= old_map);
                }
                AddCollectionComponentResult { change: AddCollectionComponentChange::Rejected, members: 0 }
            },
            Some(rec) => {
                let mut rec = rec;
                let ghost before = rec@;
                let added = rec.component_keys.insert(owned(component_key));
                let n = rec.component_keys.len();
                let ghost after = rec@;
                self.collections.insert(k, rec);
                proof {
                    assert(self.collections@ =~= old_map.insert(k@, rec));
                    self.lemma_view();
                    assert(self@.collections =~= old(self)@.collections.insert(collection_key@, after));
                    if !added {
                        assert(after == before);
                        assert(self@.collections =~= old(self)@.collections);
                    }
                }
                AddCollectionComponentResult {
                    change: if added {
                        AddCollectionComponentChange::Added
                    } else {
                        AddCollectionComponentChange::Unchanged
                    },
                    members: n,
                }
            },
        }
    }

    /// Remove one managed component from one collection.
    pub fn remove_component_from_collection(
        &mut self,
        collection_key: &str,
        component_key: &str,
    ) -> (r: RemoveCollectionComponentResult)
        requires
            old(self).wf(),
        ensures
            final(self).wf(),
            member_removed_outcome(old(self)@, collection_key@, component_key@, final(self)@, r),
    {
        proof {
            self.lemma_view();
        }
        let k = owned(collection_key);
        let ghost old_map = self.collections@;
        match self.collections.remove(&k) {
            None => {
                proof {
                    assert(self.collections@ =~= old_map);
                }
                RemoveCollectionComponentResult {
                    change: RemoveCollectionComponentChange::Rejected,
                    members: 0,
                }
            },
            Some(rec) => {
                let mut rec = rec;
                let ghost before = rec@;
                let member = owned(component_key);
                let removed = rec.component_keys.remove(&member);
                let n = rec.component_keys.len();
                let ghost after = rec@;
                self.collections.insert(k, rec);
                proof {
                    assert(self.collections@ =~= old_map.insert(k@, rec));
                    self.lemma_view();
                    assert(self@.collections =~= old(self)@.collections.insert(collection_key@, after));
                }
                RemoveCollectionComponentResult {
                    change: if removed {
                        RemoveCollectionComponentChange::Removed
                    } else {
                        RemoveCollectionComponentChange::Unchanged
                    },
                    members: n,
                }
            },
        }
    }

    /// Replace the schedule of a managed collection, reporting whether it changed.
    fn set_schedule(&mut self, collection_key: &str, schedule: CollectionScanSchedule) -> (r: bool)
        requires
            old(self).wf(),
            old(self)@.collections.contains_key(collection_key@),
        ensures
            final(self).wf(),
            final(self)@.components == old(self)@.components,
            r == (old(self)@.collections[collection_key@].scan_schedule != Some(schedule)),
            final(self)@.collections == old(self)@.collections.insert(
                collection_key@,
                CollectionModel {
                    scan_schedule: Some(schedule),
                    ..old(self)@.collections[collection_key@]
                },
            ),
    {
        proof {
            self.lemma_view();
        }
        let k = owned(collection_key);
        let ghost old_map = self.collections@;
        let rec = self.collections.remove(&k);
        let mut rec = rec.unwrap();
        let changed = !same_schedule(rec.scan_schedule, Some(schedule));
        rec.scan_schedule = Some(schedule);
        let ghost after = rec@;
        self.collections.insert(k, rec);
        proof {
            assert(self.collections@ =~= old_map.insert(k@, rec));
            self.lemma_view();
            assert(self@.collections =~= old(self)@.collections.insert(collection_key@, after));
        }
        changed
    }

    /// Configure one periodic collection scan schedule.
    pub fn configure_collection_scan_schedule(
        &mut self,
        collection_key: &str,
        cadence_minutes: u32,
        freshness: EvidenceFreshness,
        next_due_at_unix_ms: u64,
    ) -> (r: ConfigureCollectionScanScheduleResult)
        requires
            old(self).wf(),
        ensures
            final(self).wf(),
            schedule_outcome(old(self)@, collection_key@, cadence_minutes, freshness, next_due_at_unix_ms, final(self)@, r),
    {
        if cadence_minutes == 0 {
            return ConfigureCollectionScanScheduleResult {
                change: ConfigureCollectionScanScheduleChange::Rejected,
                schedule: None,
            };
        }
        let prior = self.collection_scan_schedule(collection_key);
        if !self.is_collection_managed(collection_key) {
            return ConfigureCollectionScanScheduleResult {
                change: ConfigureCollectionScanScheduleChange::Rejected,
                schedule: None,
            };
        }
        let schedule = CollectionScanSchedule {
            cadence_minutes,
            freshness,
            next_due_at_unix_ms,
            last_materialized_at_unix_ms: match prior {
                Some(s) => s.last_materialized_at_unix_ms,
                None => None,
            },
            last_enqueued_commands: match prior {
                Some(s) => s.last_enqueued_commands,
                None => None,
            },
        };
        let changed = self.set_schedule(collection_key, schedule);
        proof {
            if !changed {
                assert(self@.collections =~= old(self)@.collections);
            }
        }
        ConfigureCollectionScanScheduleResult {
            change: if changed {
                ConfigureCollectionScanScheduleChange::Configured
            } else {
                ConfigureCollectionScanScheduleChange::Unchanged
            },
            schedule: Some(schedule),
        }
    }

    /// Record that one scheduler pass materialized the collection's scan batch.
    pub fn record_collection_scan_materialization(
        &mut self,
        collection_key: &str,
        next_due_at_unix_ms: u64,
        materialized_at_unix_ms: u64,
        enqueued_commands: u32,
    ) -> (r: ConfigureCollectionScanScheduleResult)
        requires
            old(self).wf(),
        ensures
            final(self).wf(),
            materialization_outcome(old(self)@, collection_key@, next_due_at_unix_ms, materialized_at_unix_ms, enqueued_commands, final(self)@, r),
    {
        let prior = self.collection_scan_schedule(collection_key);
        let existing = match prior {
            Some(s) => s,
            None => {
                return ConfigureCollectionScanScheduleResult {
                    change: ConfigureCollectionScanScheduleChange::Rejected,
                    schedule: None,
                };
            },
        };
        let schedule = CollectionScanSchedule {
            cadence_minutes: existing.cadence_minutes,
            freshness: existing.freshness,
            next_due_at_unix_ms,
            last_materialized_at_unix_ms: Some(materialized_at_unix_ms),
            last_enqueued_commands: Some(enqueued_commands),
        };
        let changed = self.set_schedule(collection_key, schedule);
        proof {
            if !changed {
                assert(self@.collections =~= old(self)@.collections);
            }
        }
        ConfigureCollectionScanScheduleResult {
            change: if changed {
                ConfigureCollectionScanScheduleChange::Configured
            } else {
                ConfigureCollectionScanScheduleChange::Unchanged
            },
            schedule: Some(schedule),
        }
    }
}

/// Sort key of a due collection: due time, then collection key.
pub struct DueKey {
    pub due: u64,
    pub key: String,
}

impl View for DueKey {
    type V = (u64, Seq<char>);

    open spec fn view(&self) -> (u64, Seq<char>) {
        (self.due, self.key@)
    }
}

impl Ordered for DueKey {
    open spec fn before(a: (u64, Seq<char>), b: (u64, Seq<char>)) -> bool {
        a.0 < b.0 || (a.0 == b.0 && text_before(a.1, b.1))
    }

    proof fn lemma_order(a: (u64, Seq<char>), b: (u64, Seq<char>), c: (u64, Seq<char>)) {
        lemma_text_order(a.1, b.1, c.1);
    }

    fn rank(&self, other: &Self) -> (r: Rank) {
        proof {
            lemma_text_order(self.key@, other.key@, other.key@);
        }
        if self.due < other.due {
            Rank::Before
        } else if self.due > other.due {
            Rank::After
        } else {
            text_rank(self.key.as_str(), other.key.as_str())
        }
    }
}

/// Sort key of an operations summary: scheduled collections first by due
/// time, unscheduled ones after, each group by collection key.
pub struct ScheduleKey {
    pub due: Option<u64>,
    pub key: String,
}

impl View for ScheduleKey {
    type V = (Option<u64>, Seq<char>);

    open spec fn view(&self) -> (Option<u64>, Seq<char>) {
        (self.due, self.key@)
    }
}

/// The order of operations summaries.
pub open spec fn schedule_before(a: (Option<u64>, Seq<char>), b: (Option<u64>, Seq<char>)) -> bool {
    match (a.0, b.0) {
        (Some(x), Some(y)) => x < y || (x == y && text_before(a.1, b.1)),
        (Some(_), None) => true,
        (None, Some(_)) => false,
        (None, None) => text_before(a.1, b.1),
    }
}

impl Ordered for ScheduleKey {
    open spec fn before(a: (Option<u64>, Seq<char>), b: (Option<u64>, Seq<char>)) -> bool {
        schedule_before(a, b)
    }

    proof fn lemma_order(
        a: (Option<u64>, Seq<char>),
        b: (Option<u64>, Seq<char>),
        c: (Option<u64>, Seq<char>),
    ) {
        lemma_text_order(a.1, b.1, c.1);
    }

    fn rank(&self, other: &Self) -> (r: Rank) {
        proof {
            lemma_text_order(self.key@, other.key@, other.key@);
        }
        match (self.due, other.due) {
            (Some(x), Some(y)) => {
                if x < y {
                    Rank::Before
                } else if x > y {
                    Rank::After
                } else {
                    text_rank(self.key.as_str(), other.key.as_str())
                }
            },
            (Some(_), None) => Rank::Before,
            (None, Some(_)) => Rank::After,
            (None, None) => text_rank(self.key.as_str(), other.key.as_str()),
        }
    }
}

/// The due time of a schedule, when there is one.
pub open spec fn due_of(s: Option<CollectionScanSchedule>) -> Option<u64> {
    match s {
        Some(x) => Some(x.next_due_at_unix_ms),
        None => None,
    }
}

/// The (due time, key) pairs of the collections whose schedule is due at `now`.
pub open spec fn due_entries(v: InventoryView, now: u64) -> Set<(u64, Seq<char>)> {
    Set::new(
        |e: (u64, Seq<char>)|
            v.collections.contains_key(e.1) && due_of(v.collections[e.1].scan_schedule) == Some(e.0)
                && e.0 <= now,
    )
}

/// The (due time, key) pairs of all collections.
pub open spec fn schedule_entries(v: InventoryView) -> Set<(Option<u64>, Seq<char>)> {
    Set::new(
        |e: (Option<u64>, Seq<char>)|
            v.collections.contains_key(e.1) && due_of(v.collections[e.1].scan_schedule) == e.0,
    )
}

impl ComponentInventory {
    /// Keys of the collections due at `now`, ordered by due time then key, at most `limit`.
    pub fn due_collection_keys(&self, now_unix_ms: u64, limit: usize) -> (r: Vec<String>)
        requires
            self.wf(),
        ensures
            exists|s: Seq<(u64, Seq<char>)>|
                #![trigger s.to_set()]
                views_sorted::<DueKey>(s) && s.to_set() == due_entries(self@, now_unix_ms)
                    && crate::order::texts(r@) == s.take(
                    if limit < s.len() {
                        limit as int
                    } else {
                        s.len() as int
                    },
                ).map_values(|e: (u64, Seq<char>)| e.1),
    {
        proof {
            self.lemma_view();
            self.collections.lemma_keys();
        }
        let mut due: OrderedSet<DueKey> = OrderedSet::new();
        let n = self.collections.len();
        let mut i: usize = 0;
        while i < n
            invariant
                self.wf(),
                n == self.collections.key_seq().len(),
                i <= n,
                due.wf(),
                due@.to_set() == Set::new(
                    |e: (u64, Seq<char>)|
                        due_entries(self@, now_unix_ms).contains(e) && exists|j: int|
                            0 <= j < i && self.collections.key_seq()[j] == e.1,
                ),
            decreases n - i,
        {
            let key = self.collections.key_at(i);
            let rec = self.collections.value_at(i);
            proof {
                self.lemma_view();
                self.collections.lemma_keys();
            }
            let ghost before = due@;
            match rec.scan_schedule {
                Some(sched) => {
                    if sched.next_due_at_unix_ms <= now_unix_ms {
                        due.insert(DueKey { due: sched.next_due_at_unix_ms, key: key.clone() });
                    }
                },
                None => {},
            }
            proof {
                let ks = self.collections.key_seq();
                assert forall|e: (u64, Seq<char>)| #[trigger] due@.to_set().contains(e) <==> (due_entries(self@, now_unix_ms).contains(e)
                    && exists|j: int| 0 <= j < i + 1 && ks[j] == e.1) by {
                    if exists|j: int| 0 <= j < i + 1 && ks[j] == e.1 {
                        let j = choose|j: int| 0 <= j < i + 1 && ks[j] == e.1;
                        if j != i {
                            assert(exists|j: int| 0 <= j < i && ks[j] == e.1);
                        }
                    }
                    if exists|j: int| 0 <= j < i && ks[j] == e.1 {
                        let j = choose|j: int| 0 <= j < i && ks[j] == e.1;
                        assert(0 <= j < i + 1 && ks[j] == e.1);
                        crate::collections::lemma_sorted_distinct::<String>(ks, j, i as int);
                    }
                }
                assert(due@.to_set() =~= Set::new(
                    |e: (u64, Seq<char>)|
                        due_entries(self@, now_unix_ms).contains(e) && exists|j: int|
                            0 <= j < i + 1 && self.collections.key_seq()[j] == e.1,
                ));
            }
            i = i + 1;
        }
        proof {
            assert forall|e: (u64, Seq<char>)| #[trigger] due_entries(self@, now_unix_ms).contains(e) implies exists|j: int|
                0 <= j < n && self.collections.key_seq()[j] == e.1 by {
                assert(self.collections.key_seq().to_set().contains(e.1));
            }
            assert(due@.to_set() =~= due_entries(self@, now_unix_ms));
        }
        let take = if limit < due.len() {
            limit
        } else {
            due.len()
        };
        let mut out: Vec<String> = Vec::new();
        let mut j: usize = 0;
        while j < take
            invariant
                take <= due@.len(),
                j <= take,
                crate::order::texts(out@) == due@.take(j as int).map_values(
                    |e: (u64, Seq<char>)| e.1,
                ),
            decreases take - j,
        {
            let entry = due.get(j);
            let k = entry.key.clone();
            assert(k@ == due@[j as int].1);
            let ghost prev = out@;
            out.push(k);
            assert(crate::order::texts(out@) =~= crate::order::texts(prev).push(k@));
            assert(due@.take(j + 1) =~= due@.take(j as int).push(due@[j as int]));
            assert(crate::order::texts(out@) =~= due@.take(j + 1).map_values(
                |e: (u64, Seq<char>)| e.1,
            ));
            j = j + 1;
        }
        proof {
            assert(due@.to_set() == due_entries(self@, now_unix_ms));
        }
        out
    }
}

/// Whether `x` is the operations summary of collection `key` at `now`.
pub open spec fn summary_of(
    x: ManagedCollectionOperationsSummary,
    v: InventoryView,
    key: Seq<char>,
    now: u64,
) -> bool {
    &&& x.collection_key@ == key
    &&& x.name@ == v.collections[key].name
    &&& x.members == v.collections[key].members.len()
    &&& x.scan_schedule == v.collections[key].scan_schedule
    &&& x.due_now == is_due(v.collections[key].scan_schedule, now)
}

/// Whether `x` is the snapshot of collection `key`.
pub open spec fn snapshot_of(x: ManagedCollection, v: InventoryView, key: Seq<char>) -> bool {
    &&& x.collection_key@ == key
    &&& x.name@ == v.collections[key].name
    &&& crate::order::texts(x.component_keys@) == v.collections[key].members
    &&& x.scan_schedule == v.collections[key].scan_schedule
}

impl ComponentInventory {
    /// Snapshots of all managed collections, in key order.
    pub fn collections(&self) -> (r: Vec<ManagedCollection>)
        requires
            self.wf(),
        ensures
            exists|s: Seq<Seq<char>>|
                #![trigger s.to_set()]
                key_order(s, self@.collections) && r@.len() == s.len() && forall|i: int|
                    0 <= i < s.len() ==> snapshot_of(#[trigger] r@[i], self@, s[i]),
    {
        proof {
            self.lemma_view();
            self.collections.lemma_keys();
        }
        let n = self.collections.len();
        let mut out: Vec<ManagedCollection> = Vec::new();
        let mut i: usize = 0;
        while i < n
            invariant
                self.wf(),
                n == self.collections.key_seq().len(),
                i <= n,
                out@.len() == i,
                forall|j: int|
                    0 <= j < i ==> snapshot_of(
                        #[trigger] out@[j],
                        self@,
                        self.collections.key_seq()[j],
                    ),
            decreases n - i,
        {
            let rec = self.collections.value_at(i);
            proof {
                self.lemma_view();
            }
            out.push(
                ManagedCollection {
                    collection_key: rec.registration.collection_key.clone(),
                    name: rec.registration.name.clone(),
                    component_keys: copy_members(&rec.component_keys),
                    scan_schedule: rec.scan_schedule,
                },
            );
            i = i + 1;
        }
        proof {
            assert(self.collections.key_seq().to_set() == self@.collections.dom());
        }
        out
    }

    /// Operations summaries of all managed collections: scheduled ones first
    /// by due time, then unscheduled ones, each group in key order.
    pub fn collection_operations_summaries(&self, now_unix_ms: u64) -> (r: Vec<
        ManagedCollectionOperationsSummary,
    >)
        requires
            self.wf(),
        ensures
            exists|s: Seq<(Option<u64>, Seq<char>)>|
                #![trigger s.to_set()]
                views_sorted::<ScheduleKey>(s) && s.to_set() == schedule_entries(self@)
                    && r@.len() == s.len() && forall|i: int|
                    0 <= i < s.len() ==> summary_of(#[trigger] r@[i], self@, s[i].1, now_unix_ms),
    {
        proof {
            self.lemma_view();
            self.collections.lemma_keys();
        }
        let mut order: OrderedSet<ScheduleKey> = OrderedSet::new();
        let n = self.collections.len();
        let mut i: usize = 0;
        while i < n
            invariant
                self.wf(),
                n == self.collections.key_seq().len(),
                i <= n,
                order.wf(),
                order@.to_set() == Set::new(
                    |e: (Option<u64>, Seq<char>)|
                        schedule_entries(self@).contains(e) && exists|j: int|
                            0 <= j < i && self.collections.key_seq()[j] == e.1,
                ),
            decreases n - i,
        {
            let key = self.collections.key_at(i);
            let rec = self.collections.value_at(i);
            proof {
                self.lemma_view();
                self.collections.lemma_keys();
            }
            let due = match rec.scan_schedule {
                Some(sched) => Some(sched.next_due_at_unix_ms),
                None => None,
            };
            order.insert(ScheduleKey { due, key: key.clone() });
            proof {
                let ks = self.collections.key_seq();
                assert forall|e: (Option<u64>, Seq<char>)| #[trigger] order@.to_set().contains(e) <==> (schedule_entries(self@).contains(e)
                    && exists|j: int| 0 <= j < i + 1 && ks[j] == e.1) by {
                    if exists|j: int| 0 <= j < i + 1 && ks[j] == e.1 {
                        let j = choose|j: int| 0 <= j < i + 1 && ks[j] == e.1;
                        if j != i {
                            assert(exists|j: int| 0 <= j < i && ks[j] == e.1);
                        }
                    }
                    if exists|j: int| 0 <= j < i && ks[j] == e.1 {
                        let j = choose|j: int| 0 <= j < i && ks[j] == e.1;
                        assert(0 <= j < i + 1 && ks[j] == e.1);
                        crate::collections::lemma_sorted_distinct::<String>(ks, j, i as int);
                    }
                }
                assert(order@.to_set() =~= Set::new(
                    |e: (Option<u64>, Seq<char>)|
                        schedule_entries(self@).contains(e) && exists|j: int|
                            0 <= j < i + 1 && self.collections.key_seq()[j] == e.1,
                ));
            }
            i = i + 1;
        }
        proof {
            assert forall|e: (Option<u64>, Seq<char>)| #[trigger] schedule_entries(self@).contains(e) implies exists|j: int|
                0 <= j < n && self.collections.key_seq()[j] == e.1 by {
                assert(self.collections.key_seq().to_set().contains(e.1));
            }
            assert(order@.to_set() =~= schedule_entries(self@));
        }
        let m = order.len();
        let mut out: Vec<ManagedCollectionOperationsSummary> = Vec::new();
        let mut j: usize = 0;
        while j < m
            invariant
                self.wf(),
                m == order@.len(),
                order@.to_set() == schedule_entries(self@),
                j <= m,
                out@.len() == j,
                forall|t: int|
                    0 <= t < j ==> summary_of(#[trigger] out@[t], self@, order@[t].1, now_unix_ms),
            decreases m - j,
        {
            let entry = order.get(j);
            proof {
                assert(order@.to_set().contains(order@[j as int]));
                self.lemma_view();
            }
            let rec = self.collections.get(&entry.key).unwrap();
            let due_now = match rec.scan_schedule {
                Some(sched) => sched.next_due_at_unix_ms <= now_unix_ms,
                None => false,
            };
            out.push(
                ManagedCollectionOperationsSummary {
                    collection_key: rec.registration.collection_key.clone(),
                    name: rec.registration.name.clone(),
                    members: rec.component_keys.len(),
                    scan_schedule: rec.scan_schedule,
                    due_now,
                },
            );
            j = j + 1;
        }
        out
    }
}

/// One managed (component, artifact) pair inside a collection's scope.
#[derive(Debug, PartialEq, Eq)]
pub struct CollectionScopedArtifact {
    pub component_key: String,
    pub artifact: ArtifactRef,
}

impl View for CollectionScopedArtifact {
    type V = (Seq<char>, (crate::findings::ArtifactKind, Seq<char>));

    open spec fn view(&self) -> (Seq<char>, (crate::findings::ArtifactKind, Seq<char>)) {
        (self.component_key@, self.artifact@)
    }
}

impl Clone for CollectionScopedArtifact {
    fn clone(&self) -> (r: Self)
        ensures
            r == *self,
    {
        CollectionScopedArtifact {
            component_key: self.component_key.clone(),
            artifact: self.artifact.clone(),
        }
    }
}

/// The (component, artifact) pairs owned by the given members, member by
/// member, each member's artifacts in artifact order.
pub open spec fn scope_of(v: InventoryView, members: Seq<Seq<char>>) -> Seq<
    (Seq<char>, (crate::findings::ArtifactKind, Seq<char>)),
>
    decreases members.len(),
{
    if members.len() == 0 {
        seq![]
    } else {
        let m = members.last();
        scope_of(v, members.drop_last()) + if v.components.contains_key(m) {
            v.components[m].artifacts.map_values(
                |a: (crate::findings::ArtifactKind, Seq<char>)| (m, a),
            )
        } else {
            seq![]
        }
    }
}

impl ComponentInventory {
    /// The scope of a collection: every artifact owned by each member.
    pub fn collection_scoped_artifacts(&self, collection_key: &str) -> (r: Option<
        Vec<CollectionScopedArtifact>,
    >)
        requires
            self.wf(),
        ensures
            r is Some <==> self@.collections.contains_key(collection_key@),
            r matches Some(v) ==> crate::collections::views_of(v@) == scope_of(
                self@,
                self@.collections[collection_key@].members,
            ),
    {
        let members = match self.collection_members(collection_key) {
            Some(m) => m,
            None => {
                return None;
            },
        };
        let ghost ms = crate::order::texts(members@);
        let mut out: Vec<CollectionScopedArtifact> = Vec::new();
        let mut i: usize = 0;
        while i < members.len()
            invariant
                self.wf(),
                ms == crate::order::texts(members@),
                i <= members@.len(),
                crate::collections::views_of(out@) == scope_of(self@, ms.take(i as int)),
            decreases members.len() - i,
        {
            let key = &members[i];
            assert(ms.take(i + 1).drop_last() =~= ms.take(i as int));
            assert(ms.take(i + 1).last() == key@);
            match self.bound_artifact_refs(key.as_str()) {
                Some(arts) => {
                    let mut j: usize = 0;
                    let ghost base = out@;
                    while j < arts.len()
                        invariant
                            j <= arts@.len(),
                            out@.len() == base.len() + j,
                            forall|t: int| 0 <= t < base.len() ==> out@[t] == base[t],
                            forall|t: int|
                                0 <= t < j ==> (#[trigger] out@[base.len() + t])@ == (
                                    key@,
                                    arts@[t]@,
                                ),
                        decreases arts.len() - j,
                    {
                        out.push(
                            CollectionScopedArtifact {
                                component_key: key.clone(),
                                artifact: arts[j].clone(),
                            },
                        );
                        j = j + 1;
                    }
                    proof {
                        let a = self@.components[key@].artifacts;
                        assert(crate::collections::views_of(arts@) == a);
                        assert(a.len() == arts@.len());
                        assert forall|t: int| 0 <= t < a.len() implies (out@[base.len() + t])@ == (key@, a[t]) by {
                            assert(crate::collections::views_of(arts@)[t] == arts@[t]@);
                        }
                        assert(crate::collections::views_of(out@) =~= crate::collections::views_of(
                            base,
                        ) + a.map_values(
                            |x: (crate::findings::ArtifactKind, Seq<char>)| (key@, x),
                        ));
                    }
                },
                None => {
                    assert(crate::collections::views_of(out@) =~= scope_of(
                        self@,
                        ms.take(i + 1),
                    ));
                },
            }
            i = i + 1;
        }
        assert(ms.take(i as int) =~= ms);
        Some(out)
    }
}

/// Copy the members of a collection, in key order.
fn copy_members(set: &OrderedSet<String>) -> (r: Vec<String>)
    ensures
        crate::order::texts(r@) == set@,
{
    let mut out: Vec<String> = Vec::new();
    let mut i: usize = 0;
    while i < set.len()
        invariant
            i <= set@.len(),
            crate::order::texts(out@) == set@.take(i as int),
        decreases set@.len() - i,
    {
        out.push(set.get(i).clone());
        assert(set@.take(i + 1) =~= set@.take(i as int).push(set@[i as int]));
        assert(crate::order::texts(out@) =~= set@.take(i + 1));
        i = i + 1;
    }
    assert(set@.take(i as int) =~= set@);
    out
}

/// What registering a component does to the inventory, and its answer.
pub open spec fn register_outcome(a: InventoryView, registration: ComponentRegistration, b: InventoryView, r: RegisterComponentResult) -> bool {
    &&& b.collections == a.collections
    &&& !a.components.contains_key(registration.component_key@) ==> {
            &&& r.change == RegisterComponentChange::Registered
            &&& b.components == a.components.insert(
                registration.component_key@,
                ComponentModel { name: registration.name@, artifacts: seq![], provider_key: None },
            )
        }
    &&& a.components.contains_key(registration.component_key@) ==> {
            &&& b.components == a.components
            &&& r.change == (if a.components[registration.component_key@].name
                == registration.name@ {
                RegisterComponentChange::Unchanged
            } else {
                RegisterComponentChange::Rejected
            })
        }
    &&& r.managed_components == b.components.len()
}

/// What binding an artifact to a component does to the inventory, and its answer.
pub open spec fn bind_outcome(a: InventoryView, component_key: Seq<char>, artifact: ArtifactRef, b: InventoryView, r: BindArtifactResult) -> bool {
    &&& b.collections == a.collections
    &&& b.components.dom() == a.components.dom()
    &&& forall|k: Seq<char>|
            k != component_key && #[trigger] a.components.contains_key(k)
                ==> b.components[k] == a.components[k]
    &&& owned_elsewhere(a, component_key, artifact@) ==> {
            &&& r.change == BindArtifactChange::Rejected
            &&& r.bound_artifacts == bound_count(a, component_key)
            &&& b == a
        }
    &&& !owned_elsewhere(a, component_key, artifact@)
            && !a.components.contains_key(component_key) ==> {
            &&& r.change == BindArtifactChange::Rejected
            &&& r.bound_artifacts == 0
            &&& b == a
        }
    &&& !owned_elsewhere(a, component_key, artifact@)
            && a.components.contains_key(component_key) ==> {
            let before = a.components[component_key];
            let after = b.components[component_key];
            &&& r.change == (if before.artifacts.contains(artifact@) {
                BindArtifactChange::Unchanged
            } else {
                BindArtifactChange::Bound
            })
            &&& after.name == before.name
            &&& after.provider_key == before.provider_key
            &&& after.artifacts.to_set() == before.artifacts.to_set().insert(artifact@)
            &&& r.bound_artifacts == after.artifacts.len()
        }
}

/// What configuring a component's provider does to the inventory, and its answer.
pub open spec fn provider_outcome(a: InventoryView, component_key: Seq<char>, provider_key: Seq<char>, b: InventoryView, r: ConfigureProviderResult) -> bool {
    &&& b.collections == a.collections
    &&& !a.components.contains_key(component_key) ==> {
            &&& r.change == ConfigureProviderChange::Rejected
            &&& r.provider_key is None
            &&& b == a
        }
    &&& a.components.contains_key(component_key) ==> {
            let before = a.components[component_key];
            &&& opt_text(r.provider_key) == Some(provider_key)
            &&& before.provider_key == Some(provider_key) ==> r.change
                == ConfigureProviderChange::Unchanged && b == a
            &&& before.provider_key != Some(provider_key) ==> r.change
                == ConfigureProviderChange::Configured && b.components
                == a.components.insert(
                component_key,
                ComponentModel { provider_key: Some(provider_key), ..before },
            )
        }
}

/// What registering a collection does to the inventory, and its answer.
pub open spec fn collection_outcome(a: InventoryView, registration: CollectionRegistration, b: InventoryView, r: RegisterCollectionResult) -> bool {
    &&& b.components == a.components
    &&& !a.collections.contains_key(registration.collection_key@) ==> {
            &&& r.change == RegisterCollectionChange::Created
            &&& b.collections == a.collections.insert(
                registration.collection_key@,
                CollectionModel { name: registration.name@, members: seq![], scan_schedule: None },
            )
        }
    &&& a.collections.contains_key(registration.collection_key@) ==> {
            &&& b.collections == a.collections
            &&& r.change == (if a.collections[registration.collection_key@].name
                == registration.name@ {
                RegisterCollectionChange::Unchanged
            } else {
                RegisterCollectionChange::Rejected
            })
        }
    &&& r.managed_collections == b.collections.len()
}

/// What adding a component to a collection does to the inventory, and its answer.
pub open spec fn member_added_outcome(a: InventoryView, collection_key: Seq<char>, component_key: Seq<char>, b: InventoryView, r: AddCollectionComponentResult) -> bool {
    &&& b.components == a.components
    &&& !a.components.contains_key(component_key) ==> {
            &&& r.change == AddCollectionComponentChange::Rejected
            &&& r.members == member_count(a, collection_key)
            &&& b == a
        }
    &&& a.components.contains_key(component_key)
            && !a.collections.contains_key(collection_key) ==> {
            &&& r.change == AddCollectionComponentChange::Rejected
            &&& r.members == 0
            &&& b == a
        }
    &&& a.components.contains_key(component_key)
            && a.collections.contains_key(collection_key) ==> {
            let before = a.collections[collection_key];
            let after = b.collections[collection_key];
            &&& r.change == (if before.members.contains(component_key) {
                AddCollectionComponentChange::Unchanged
            } else {
                AddCollectionComponentChange::Added
            })
            &&& b.collections.dom() == a.collections.dom()
            &&& forall|k: Seq<char>|
                k != collection_key && #[trigger] a.collections.contains_key(k)
                    ==> b.collections[k] == a.collections[k]
            &&& after.name == before.name
            &&& after.scan_schedule == before.scan_schedule
            &&& after.members.to_set() == before.members.to_set().insert(component_key)
            &&& r.members == after.members.len()
        }
}

/// What removing a component from a collection does to the inventory, and its answer.
pub open spec fn member_removed_outcome(a: InventoryView, collection_key: Seq<char>, component_key: Seq<char>, b: InventoryView, r: RemoveCollectionComponentResult) -> bool {
    &&& b.components == a.components
    &&& !a.collections.contains_key(collection_key) ==> {
            &&& r.change == RemoveCollectionComponentChange::Rejected
            &&& r.members == 0
            &&& b == a
        }
    &&& a.collections.contains_key(collection_key) ==> {
            let before = a.collections[collection_key];
            let after = b.collections[collection_key];
            &&& r.change == (if before.members.contains(component_key) {
                RemoveCollectionComponentChange::Removed
            } else {
                RemoveCollectionComponentChange::Unchanged
            })
            &&& b.collections.dom() == a.collections.dom()
            &&& forall|k: Seq<char>|
                k != collection_key && #[trigger] a.collections.contains_key(k)
                    ==> b.collections[k] == a.collections[k]
            &&& after.name == before.name
            &&& after.scan_schedule == before.scan_schedule
            &&& after.members.to_set() == before.members.to_set().remove(component_key)
            &&& r.members == after.members.len()
        }
}

/// What configuring a collection's scan schedule does to the inventory, and its answer.
pub open spec fn schedule_outcome(a: InventoryView, collection_key: Seq<char>, cadence_minutes: u32, freshness: EvidenceFreshness, next_due_at_unix_ms: u64, b: InventoryView, r: ConfigureCollectionScanScheduleResult) -> bool {
    &&& b.components == a.components
    &&& cadence_minutes == 0 || !a.collections.contains_key(collection_key) ==> {
            &&& r.change == ConfigureCollectionScanScheduleChange::Rejected
            &&& r.schedule is None
            &&& b == a
        }
    &&& cadence_minutes != 0 && a.collections.contains_key(collection_key) ==> {
            let before = a.collections[collection_key];
            let schedule = CollectionScanSchedule {
                cadence_minutes,
                freshness,
                next_due_at_unix_ms,
                last_materialized_at_unix_ms: match before.scan_schedule {
                    Some(s) => s.last_materialized_at_unix_ms,
                    None => None,
                },
                last_enqueued_commands: match before.scan_schedule {
                    Some(s) => s.last_enqueued_commands,
                    None => None,
                },
            };
            &&& r.schedule == Some(schedule)
            &&& r.change == (if before.scan_schedule == Some(schedule) {
                ConfigureCollectionScanScheduleChange::Unchanged
            } else {
                ConfigureCollectionScanScheduleChange::Configured
            })
            &&& b.collections == a.collections.insert(
                collection_key,
                CollectionModel { scan_schedule: Some(schedule), ..before },
            )
        }
}

/// What recording a scheduler pass over a collection does to the inventory, and its answer.
pub open spec fn materialization_outcome(a: InventoryView, collection_key: Seq<char>, next_due_at_unix_ms: u64, materialized_at_unix_ms: u64, enqueued_commands: u32, b: InventoryView, r: ConfigureCollectionScanScheduleResult) -> bool {
    &&& b.components == a.components
    &&& !a.collections.contains_key(collection_key)
            || a.collections[collection_key].scan_schedule is None ==> {
            &&& r.change == ConfigureCollectionScanScheduleChange::Rejected
            &&& r.schedule is None
            &&& b == a
        }
    &&& a.collections.contains_key(collection_key)
            && a.collections[collection_key].scan_schedule is Some ==> {
            let before = a.collections[collection_key];
            let existing = before.scan_schedule->0;
            let schedule = CollectionScanSchedule {
                cadence_minutes: existing.cadence_minutes,
                freshness: existing.freshness,
                next_due_at_unix_ms,
                last_materialized_at_unix_ms: Some(materialized_at_unix_ms),
                last_enqueued_commands: Some(enqueued_commands),
            };
            &&& r.schedule == Some(schedule)
            &&& r.change == (if existing == schedule {
                ConfigureCollectionScanScheduleChange::Unchanged
            } else {
                ConfigureCollectionScanScheduleChange::Configured
            })
            &&& b.collections == a.collections.insert(
                collection_key,
                CollectionModel { scan_schedule: Some(schedule), ..before },
            )
        }
}


/// Every component's artifacts and every collection's members are kept in
/// increasing order.
pub open spec fn inventory_sorted(v: InventoryView) -> bool {
    &&& forall|k: Seq<char>|
        #[trigger] v.components.contains_key(k) ==> views_sorted::<ArtifactRef>(
            v.components[k].artifacts,
        )
    &&& forall|k: Seq<char>|
        #[trigger] v.collections.contains_key(k) ==> views_sorted::<String>(v.collections[k].members)
}

/// What binding an artifact does is determined by the inventory before it
/// and the binding's arguments.
pub proof fn lemma_bind_determined(
    a: InventoryView,
    component_key: Seq<char>,
    artifact: ArtifactRef,
    b: InventoryView,
    x: BindArtifactResult,
    c: InventoryView,
    y: BindArtifactResult,
)
    requires
        inventory_sorted(b),
        inventory_sorted(c),
        bind_outcome(a, component_key, artifact, b, x),
        bind_outcome(a, component_key, artifact, c, y),
    ensures
        b == c,
        x.change == y.change,
{
    if !owned_elsewhere(a, component_key, artifact@) && a.components.contains_key(component_key) {
        lemma_sorted_unique::<ArtifactRef>(
            b.components[component_key].artifacts,
            c.components[component_key].artifacts,
        );
        assert(b.components[component_key] == c.components[component_key]);
        assert(b.components =~= c.components);
    }
}

/// What adding a member does is determined by the inventory before it and
/// the call's arguments.
pub proof fn lemma_member_added_determined(
    a: InventoryView,
    collection_key: Seq<char>,
    component_key: Seq<char>,
    b: InventoryView,
    x: AddCollectionComponentResult,
    c: InventoryView,
    y: AddCollectionComponentResult,
)
    requires
        inventory_sorted(b),
        inventory_sorted(c),
        member_added_outcome(a, collection_key, component_key, b, x),
        member_added_outcome(a, collection_key, component_key, c, y),
    ensures
        b == c,
        x.change == y.change,
{
    if a.components.contains_key(component_key) && a.collections.contains_key(collection_key) {
        lemma_sorted_unique::<String>(
            b.collections[collection_key].members,
            c.collections[collection_key].members,
        );
        assert(b.collections[collection_key] == c.collections[collection_key]);
        assert(b.collections =~= c.collections);
    }
}

/// A binding that answers anything but `Bound` leaves the inventory as it was.
pub proof fn lemma_binding_unchanged_keeps(
    a: InventoryView,
    component_key: Seq<char>,
    artifact: ArtifactRef,
    b: InventoryView,
    x: BindArtifactResult,
)
    requires
        inventory_sorted(a),
        inventory_sorted(b),
        bind_outcome(a, component_key, artifact, b, x),
        x.change != BindArtifactChange::Bound,
    ensures
        b == a,
{
    if !owned_elsewhere(a, component_key, artifact@) && a.components.contains_key(component_key) {
        let before = a.components[component_key];
        let after = b.components[component_key];
        assert(before.artifacts.contains(artifact@));
        assert(before.artifacts.to_set().insert(artifact@) =~= before.artifacts.to_set());
        lemma_sorted_unique::<ArtifactRef>(after.artifacts, before.artifacts);
        assert(after == before);
        assert(b.components =~= a.components);
    }
}

/// Adding a member that answers anything but `Added` leaves the inventory
/// as it was.
pub proof fn lemma_addition_unchanged_keeps(
    a: InventoryView,
    collection_key: Seq<char>,
    component_key: Seq<char>,
    b: InventoryView,
    x: AddCollectionComponentResult,
)
    requires
        inventory_sorted(a),
        inventory_sorted(b),
        member_added_outcome(a, collection_key, component_key, b, x),
        x.change != AddCollectionComponentChange::Added,
    ensures
        b == a,
{
    if a.components.contains_key(component_key) && a.collections.contains_key(collection_key) {
        let before = a.collections[collection_key];
        let after = b.collections[collection_key];
        assert(before.members.contains(component_key));
        assert(before.members.to_set().insert(component_key) =~= before.members.to_set());
        lemma_sorted_unique::<String>(after.members, before.members);
        assert(after == before);
        assert(b.collections =~= a.collections);
    }
}

/// Removing a member that answers anything but `Removed` leaves the
/// inventory as it was.
pub proof fn lemma_removal_unchanged_keeps(
    a: InventoryView,
    collection_key: Seq<char>,
    component_key: Seq<char>,
    b: InventoryView,
    x: RemoveCollectionComponentResult,
)
    requires
        inventory_sorted(a),
        inventory_sorted(b),
        member_removed_outcome(a, collection_key, component_key, b, x),
        x.change != RemoveCollectionComponentChange::Removed,
    ensures
        b == a,
{
    if a.collections.contains_key(collection_key) {
        let before = a.collections[collection_key];
        let after = b.collections[collection_key];
        assert(!before.members.contains(component_key));
        assert(before.members.to_set().remove(component_key) =~= before.members.to_set());
        lemma_sorted_unique::<String>(after.members, before.members);
        assert(after == before);
        assert(b.collections =~= a.collections);
    }
}

/// Removing a member undoes adding it: adding a component that was not a
/// member of a collection and then removing it leaves the inventory as it
/// was.
pub proof fn lemma_removal_undoes_addition(
    a: InventoryView,
    collection_key: Seq<char>,
    component_key: Seq<char>,
    b: InventoryView,
    x: AddCollectionComponentResult,
    c: InventoryView,
    y: RemoveCollectionComponentResult,
)
    requires
        inventory_sorted(a),
        inventory_sorted(c),
        member_added_outcome(a, collection_key, component_key, b, x),
        x.change == AddCollectionComponentChange::Added,
        member_removed_outcome(b, collection_key, component_key, c, y),
    ensures
        c == a,
{
    let before = a.collections[collection_key];
    let after = c.collections[collection_key];
    assert(!before.members.contains(component_key));
    assert(after.members.to_set() =~= before.members.to_set());
    lemma_sorted_unique::<String>(after.members, before.members);
    assert(after == before);
    assert(c.collections =~= a.collections);
}

/// Whether the managed component `k` owns the artifact `x`.
pub open spec fn owns(v: InventoryView, k: Seq<char>, x: (crate::findings::ArtifactKind, Seq<char>)) -> bool {
    v.components.contains_key(k) && v.components[k].artifacts.contains(x)
}

/// Registering a component gives no ownership: a new component owns
/// nothing, and what other components own stays.
pub proof fn lemma_registration_grants_no_ownership(
    a: InventoryView,
    registration: ComponentRegistration,
    b: InventoryView,
    r: RegisterComponentResult,
)
    requires
        register_outcome(a, registration, b, r),
    ensures
        forall|k: Seq<char>, x: (crate::findings::ArtifactKind, Seq<char>)|
            #[trigger] owns(b, k, x) <==> owns(a, k, x),
{
}

/// Configuring a provider gives no ownership and takes none away.
pub proof fn lemma_provider_grants_no_ownership(
    a: InventoryView,
    component_key: Seq<char>,
    provider_key: Seq<char>,
    b: InventoryView,
    r: ConfigureProviderResult,
)
    requires
        provider_outcome(a, component_key, provider_key, b, r),
    ensures
        forall|k: Seq<char>, x: (crate::findings::ArtifactKind, Seq<char>)|
            #[trigger] owns(b, k, x) <==> owns(a, k, x),
{
}

/// Binding gives exactly one ownership: after it, a component owns an
/// artifact exactly when it did before, or it is the bound component and
/// artifact of a binding that answered `Bound`. Together with the other
/// operations, which leave the components as they are or give none, a
/// component owns an artifact only after a binding of it that succeeded.
pub proof fn lemma_binding_grants_one_ownership(
    a: InventoryView,
    component_key: Seq<char>,
    artifact: ArtifactRef,
    b: InventoryView,
    r: BindArtifactResult,
)
    requires
        bind_outcome(a, component_key, artifact, b, r),
    ensures
        forall|k: Seq<char>, x: (crate::findings::ArtifactKind, Seq<char>)|
            #[trigger] owns(b, k, x) <==> owns(a, k, x) || (r.change == BindArtifactChange::Bound
                && k == component_key && x == artifact@),
{
    assert forall|k: Seq<char>, x: (crate::findings::ArtifactKind, Seq<char>)|
        #[trigger] owns(b, k, x) <==> owns(a, k, x) || (r.change == BindArtifactChange::Bound
            && k == component_key && x == artifact@) by {
        if k == component_key && !owned_elsewhere(a, component_key, artifact@)
            && a.components.contains_key(component_key) {
            let before = a.components[component_key];
            let after = b.components[component_key];
            assert(after.artifacts.to_set().contains(x) == after.artifacts.contains(x));
            assert(before.artifacts.to_set().contains(x) == before.artifacts.contains(x));
        }
    }
}

/// Ownership follows from a successful binding: afterwards the component
/// owns the artifact and no other component does.
pub proof fn lemma_bound_artifact_is_owned(
    a: InventoryView,
    component_key: Seq<char>,
    artifact: ArtifactRef,
    b: InventoryView,
    x: BindArtifactResult,
)
    requires
        bind_outcome(a, component_key, artifact, b, x),
        x.change == BindArtifactChange::Bound,
    ensures
        b.components.contains_key(component_key),
        b.components[component_key].artifacts.contains(artifact@),
        !owned_elsewhere(b, component_key, artifact@),
{
    let after = b.components[component_key];
    assert(after.artifacts.to_set().contains(artifact@));
    if owned_elsewhere(b, component_key, artifact@) {
        let o = choose|o: Seq<char>|
            #![trigger b.components[o]]
            o != component_key && b.components.contains_key(o) && b.components[o].artifacts.contains(
                artifact@,
            );
        assert(b.components[o] == a.components[o]);
        assert(owned_elsewhere(a, component_key, artifact@));
    }
}

/// What removing a member does is determined by the inventory before it and
/// the call's arguments.
pub proof fn lemma_member_removed_determined(
    a: InventoryView,
    collection_key: Seq<char>,
    component_key: Seq<char>,
    b: InventoryView,
    x: RemoveCollectionComponentResult,
    c: InventoryView,
    y: RemoveCollectionComponentResult,
)
    requires
        inventory_sorted(b),
        inventory_sorted(c),
        member_removed_outcome(a, collection_key, component_key, b, x),
        member_removed_outcome(a, collection_key, component_key, c, y),
    ensures
        b == c,
        x.change == y.change,
{
    if a.collections.contains_key(collection_key) {
        lemma_sorted_unique::<String>(
            b.collections[collection_key].members,
            c.collections[collection_key].members,
        );
        assert(b.collections[collection_key] == c.collections[collection_key]);
        assert(b.collections =~= c.collections);
    }
}

/// Registering a component that is already registered under the same name
/// answers `Unchanged` and changes nothing.
pub proof fn lemma_registration_is_idempotent(
    a: InventoryView,
    registration: ComponentRegistration,
    b: InventoryView,
    x: RegisterComponentResult,
    c: InventoryView,
    y: RegisterComponentResult,
)
    requires
        register_outcome(a, registration, b, x),
        register_outcome(b, registration, c, y),
    ensures
        y.change == RegisterComponentChange::Unchanged || x.change
            == RegisterComponentChange::Rejected,
        x.change != RegisterComponentChange::Rejected ==> c == b,
{
    if x.change != RegisterComponentChange::Rejected {
        assert(b.components.contains_key(registration.component_key@));
    }
}

/// Binding an artifact that the component already owns answers
/// `Unchanged` and changes nothing.
pub proof fn lemma_binding_is_idempotent(
    a: InventoryView,
    component_key: Seq<char>,
    artifact: ArtifactRef,
    b: InventoryView,
    x: BindArtifactResult,
    c: InventoryView,
    y: BindArtifactResult,
)
    requires
        inventory_sorted(b),
        inventory_sorted(c),
        bind_outcome(a, component_key, artifact, b, x),
        x.change == BindArtifactChange::Bound,
        bind_outcome(b, component_key, artifact, c, y),
    ensures
        y.change == BindArtifactChange::Unchanged,
        c == b,
{
    let after = b.components[component_key];
    assert(after.artifacts.to_set().contains(artifact@));
    assert(after.artifacts.contains(artifact@));
    if owned_elsewhere(b, component_key, artifact@) {
        let o = choose|o: Seq<char>|
            #![trigger b.components[o]]
            o != component_key && b.components.contains_key(o) && b.components[o].artifacts.contains(
                artifact@,
            );
        assert(b.components[o] == a.components[o]);
        assert(owned_elsewhere(a, component_key, artifact@));
    }
    assert(after.artifacts.to_set().insert(artifact@) =~= after.artifacts.to_set());
    lemma_sorted_unique::<ArtifactRef>(c.components[component_key].artifacts, after.artifacts);
    assert(c.components[component_key] == b.components[component_key]);
    assert(c.components =~= b.components);
}


/// No artifact is bound to two components.
pub open spec fn single_owners(v: InventoryView) -> bool {
    forall|k1: Seq<char>, k2: Seq<char>, x: (crate::findings::ArtifactKind, Seq<char>)|
        #![trigger v.components[k1].artifacts.contains(x), v.components[k2].artifacts.contains(x)]
        k1 != k2 && v.components.contains_key(k1) && v.components.contains_key(k2)
            && v.components[k1].artifacts.contains(x) ==> !v.components[k2].artifacts.contains(x)
}

/// Binding never gives an artifact a second owner.
pub proof fn lemma_binding_keeps_single_owners(
    a: InventoryView,
    component_key: Seq<char>,
    artifact: ArtifactRef,
    b: InventoryView,
    x: BindArtifactResult,
)
    requires
        single_owners(a),
        bind_outcome(a, component_key, artifact, b, x),
    ensures
        single_owners(b),
{
    if !owned_elsewhere(a, component_key, artifact@) && a.components.contains_key(component_key) {
        assert forall|k1: Seq<char>, k2: Seq<char>, z: (crate::findings::ArtifactKind, Seq<char>)|
            k1 != k2 && b.components.contains_key(k1) && b.components.contains_key(k2)
                && #[trigger] b.components[k1].artifacts.contains(z) implies !(
            #[trigger] b.components[k2].artifacts.contains(z)) by {
            let before = a.components[component_key].artifacts;
            let after = b.components[component_key].artifacts;
            assert(after.contains(z) <==> after.to_set().contains(z));
            assert(before.contains(z) <==> before.to_set().contains(z));
            if k1 == component_key {
                assert(b.components[k2] == a.components[k2]);
                if z == artifact@ {
                    if a.components[k2].artifacts.contains(z) {
                        assert(owned_elsewhere(a, component_key, artifact@));
                    }
                } else {
                    assert(before.contains(z));
                    assert(a.components[k1].artifacts.contains(z));
                }
            } else if k2 == component_key {
                assert(b.components[k1] == a.components[k1]);
                assert(a.components[k1].artifacts.contains(z));
                if z == artifact@ {
                    assert(owned_elsewhere(a, component_key, artifact@));
                } else if after.contains(z) {
                    assert(before.contains(z));
                    assert(a.components[k2].artifacts.contains(z));
                }
            } else {
                assert(b.components[k1] == a.components[k1]);
                assert(b.components[k2] == a.components[k2]);
                assert(a.components[k1].artifacts.contains(z));
            }
        }
    }
}

/// Registering a component never gives an artifact a second owner.
pub proof fn lemma_registration_keeps_single_owners(
    a: InventoryView,
    registration: ComponentRegistration,
    b: InventoryView,
    x: RegisterComponentResult,
)
    requires
        single_owners(a),
        register_outcome(a, registration, b, x),
    ensures
        single_owners(b),
{
    assert forall|k1: Seq<char>, k2: Seq<char>, z: (crate::findings::ArtifactKind, Seq<char>)|
        k1 != k2 && b.components.contains_key(k1) && b.components.contains_key(k2)
            && #[trigger] b.components[k1].artifacts.contains(z) implies !(
        #[trigger] b.components[k2].artifacts.contains(z)) by {
        if !a.components.contains_key(registration.component_key@) {
            if k1 != registration.component_key@ && k2 != registration.component_key@ {
                assert(a.components[k1].artifacts.contains(z));
            }
        } else {
            assert(a.components[k1].artifacts.contains(z));
        }
    }
}

} // verus!
