//! Turning managed ownership into canonical scan requests.

use crate::collections::views_of;
use crate::findings::finding_provider::{ArtifactKind, ArtifactRef, EvidenceFreshness, ScanRequest};
use crate::inventory::component_inventory::{scope_of, ComponentInventory, InventoryView};
use crate::order::owned;
use vstd::prelude::*;

verus! {

/// Canonical failure when planning a scan request.
#[derive(Debug, Clone, Copy, PartialEq, Eq, Structural)]
pub enum ScanPlanningError {
    /// The requested component is not under management.
    UnmanagedComponent,
    /// The requested artifact is not bound to the managed component.
    UnmanagedArtifact,
}

impl ScanPlanningError {
    pub fn as_str(self) -> (r: &'static str)
        ensures
            r@ == (match self {
                Self::UnmanagedComponent => "unmanaged-component"@,
                Self::UnmanagedArtifact => "unmanaged-artifact"@,
            }),
    {
        match self {
            Self::UnmanagedComponent => "unmanaged-component",
            Self::UnmanagedArtifact => "unmanaged-artifact",
        }
    }
}

/// Canonical failure when planning one collection scan batch.
#[derive(Debug, Clone, Copy, PartialEq, Eq, Structural)]
pub enum CollectionScanPlanningError {
    /// The requested collection is not under management.
    UnmanagedCollection,
}

impl CollectionScanPlanningError {
    pub fn as_str(self) -> (r: &'static str)
        ensures
            r@ == "unmanaged-collection"@,
    {
        match self {
            Self::UnmanagedCollection => "unmanaged-collection",
        }
    }
}

/// The model of one scan request: component, artifact, freshness.
pub type RequestView = (Seq<char>, (ArtifactKind, Seq<char>), EvidenceFreshness);

/// Canonical batch of scan requests derived from one closed collection scope.
#[derive(Debug, PartialEq, Eq)]
pub struct CollectionScanBatch {
    /// Stable collection identity that produced the batch.
    pub collection_key: String,
    /// Canonical scan requests expanded from the collection members and owned artifacts.
    pub requests: Vec<ScanRequest>,
}

/// The requests of a batch: every (member, owned artifact) pair of the
/// members, member by member, with the given freshness.
pub open spec fn batch_requests(
    v: InventoryView,
    members: Seq<Seq<char>>,
    freshness: EvidenceFreshness,
) -> Seq<RequestView> {
    scope_of(v, members).map_values(
        |p: (Seq<char>, (ArtifactKind, Seq<char>))| (p.0, p.1, freshness),
    )
}

/// Which planning error, if any, a single scan request meets.
pub open spec fn planning_error(
    v: InventoryView,
    component_key: Seq<char>,
    artifact: (ArtifactKind, Seq<char>),
) -> Option<ScanPlanningError> {
    if !v.components.contains_key(component_key) {
        Some(ScanPlanningError::UnmanagedComponent)
    } else if !v.components[component_key].artifacts.contains(artifact) {
        Some(ScanPlanningError::UnmanagedArtifact)
    } else {
        None
    }
}

/// Minimal domain service that turns managed ownership into canonical scan requests.
pub struct ScanPlanner<'a> {
    inventory: &'a ComponentInventory,
}

impl<'a> ScanPlanner<'a> {
    /// The inventory that the planner reads.
    pub closed spec fn inventory_view(&self) -> InventoryView {
        self.inventory@
    }

    pub closed spec fn wf(&self) -> bool {
        self.inventory.wf()
    }

    pub fn new(inventory: &'a ComponentInventory) -> (r: Self)
        requires
            inventory.wf(),
        ensures
            r.wf(),
            r.inventory_view() == inventory@,
    {
        ScanPlanner { inventory }
    }

    /// Create one canonical scan request for a managed component and owned artifact.
    pub fn plan(
        &self,
        component_key: &str,
        artifact: ArtifactRef,
        freshness: EvidenceFreshness,
    ) -> (r: Result<ScanRequest, ScanPlanningError>)
        requires
            self.wf(),
        ensures
            match planning_error(self.inventory_view(), component_key@, artifact@) {
                Some(e) => r == Err::<ScanRequest, ScanPlanningError>(e),
                None => r matches Ok(q) && q@ == (component_key@, artifact@, freshness)
                    && q.artifact == artifact,
            },
    {
        if !self.inventory.is_managed(component_key) {
            return Err(ScanPlanningError::UnmanagedComponent);
        }
        if !self.inventory.component_owns_artifact(component_key, &artifact) {
            return Err(ScanPlanningError::UnmanagedArtifact);
        }
        Ok(ScanRequest::new(component_key, artifact, freshness))
    }

    /// Create one canonical scan batch for a closed collection.
    pub fn plan_collection(&self, collection_key: &str, freshness: EvidenceFreshness) -> (r:
        Result<CollectionScanBatch, CollectionScanPlanningError>)
        requires
            self.wf(),
        ensures
            !self.inventory_view().collections.contains_key(collection_key@) ==> r == Err::<
                CollectionScanBatch,
                CollectionScanPlanningError,
            >(CollectionScanPlanningError::UnmanagedCollection),
            self.inventory_view().collections.contains_key(collection_key@) ==> (r matches Ok(b)
                && b.collection_key@ == collection_key@ && views_of(b.requests@) == batch_requests(
                self.inventory_view(),
                self.inventory_view().collections[collection_key@].members,
                freshness,
            )),
    {
        let scope = match self.inventory.collection_scoped_artifacts(collection_key) {
            Some(s) => s,
            None => {
                return Err(CollectionScanPlanningError::UnmanagedCollection);
            },
        };
        let ghost members = self.inventory@.collections[collection_key@].members;
        let mut requests: Vec<ScanRequest> = Vec::new();
        let mut i: usize = 0;
        while i < scope.len()
            invariant
                i <= scope@.len(),
                views_of(scope@) == scope_of(self.inventory@, members),
                requests@.len() == i,
                forall|j: int|
                    0 <= j < i ==> (#[trigger] requests@[j])@ == (
                        scope@[j].component_key@,
                        scope@[j].artifact@,
                        freshness,
                    ),
            decreases scope.len() - i,
        {
            let item = &scope[i];
            requests.push(
                ScanRequest::new(item.component_key.as_str(), item.artifact.clone(), freshness),
            );
            i = i + 1;
        }
        proof {
            assert(views_of(requests@) =~= batch_requests(self.inventory@, members, freshness)) by {
                assert forall|j: int| 0 <= j < requests@.len() implies views_of(requests@)[j]
                    == batch_requests(self.inventory@, members, freshness)[j] by {
                    assert(views_of(scope@)[j] == scope@[j]@);
                }
            }
        }
        Ok(CollectionScanBatch { collection_key: owned(collection_key), requests })
    }
}

} // verus!
