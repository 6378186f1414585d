//! Finding ingestion gated behind the inventory: only reports about managed
//! components and the artifacts bound to them reach the tracker.

use crate::findings::finding_provider::ProviderScanReport;
use crate::findings::finding_read_model::{FindingKeyView, ItemView};
use crate::findings::finding_tracker::{
    change_set_of, snapshot_at, snapshot_identities, FindingChangeSet, FindingTracker,
};
use crate::inventory::component_inventory::{inventory_sorted, ComponentInventory, InventoryView};
use vstd::prelude::*;

verus! {

/// Canonical failure when ingesting a provider scan report.
#[derive(Debug, Clone, Copy, PartialEq, Eq, Structural)]
pub enum FindingIngestionError {
    /// The report references a component that is not under management.
    UnmanagedComponent,
    /// The report references an artifact that is not bound to the component.
    UnmanagedArtifact,
}

impl FindingIngestionError {
    pub fn as_str(self) -> (r: &'static str)
        ensures
            r@ == (match self {
                Self::UnmanagedComponent => "unmanaged-component"@,
                Self::UnmanagedArtifact => "unmanaged-artifact"@,
            }),
    {
        match self {
            Self::UnmanagedComponent => "unmanaged-component",
            Self::UnmanagedArtifact => "unmanaged-artifact",
        }
    }
}

/// Which ingestion error, if any, a report meets against an inventory.
pub open spec fn ingestion_error(v: InventoryView, report: ProviderScanReport) -> Option<
    FindingIngestionError,
> {
    if !v.components.contains_key(report.component_key@) {
        Some(FindingIngestionError::UnmanagedComponent)
    } else if !v.components[report.component_key@].artifacts.contains(report.artifact@) {
        Some(FindingIngestionError::UnmanagedArtifact)
    } else {
        None
    }
}

/// Minimal domain service that gates finding ingestion behind inventory.
pub struct FindingIngestion {
    inventory: ComponentInventory,
    tracker: FindingTracker,
}

impl Default for FindingIngestion {
    fn default() -> (r: Self)
        ensures
            r.wf(),
            r.inventory_view().components.is_empty(),
            r.inventory_view().collections.is_empty(),
            r.tracker_view().is_empty(),
    {
        FindingIngestion::new()
    }
}

impl FindingIngestion {
    pub closed spec fn wf(&self) -> bool {
        self.inventory.wf() && self.tracker.wf()
    }

    /// The inventory that gates ingestion.
    pub closed spec fn inventory_view(&self) -> InventoryView {
        self.inventory@
    }

    /// The inventory keeps artifacts and members in order.
    pub proof fn lemma_inventory_sorted(&self)
        requires
            self.wf(),
        ensures
            inventory_sorted(self.inventory_view()),
    {
        self.inventory.lemma_sorted();
    }

    /// The last snapshot of each (component, artifact) that was ingested.
    pub closed spec fn tracker_view(&self) -> Map<ItemView, Set<FindingKeyView>> {
        self.tracker@
    }

    pub fn new() -> (r: Self)
        ensures
            r.wf(),
            r.inventory_view().components.is_empty(),
            r.inventory_view().collections.is_empty(),
            r.tracker_view().is_empty(),
    {
        let inventory = ComponentInventory::default();
        let tracker = FindingTracker::new();
        FindingIngestion { inventory, tracker }
    }

    pub fn inventory(&self) -> (r: &ComponentInventory)
        requires
            self.wf(),
        ensures
            r.wf(),
            r@ == self.inventory_view(),
    {
        &self.inventory
    }

    /// Mutable access to the inventory; the tracked snapshots stay as they are.
    pub fn inventory_mut(&mut self) -> (r: &mut ComponentInventory)
        requires
            old(self).wf(),
        ensures
            r.wf(),
            r@ == old(self).inventory_view(),
            final(r).wf() ==> final(self).wf(),
            final(self).inventory_view() == final(r)@,
            final(self).tracker_view() == old(self).tracker_view(),
    {
        &mut self.inventory
    }

    /// Record one provider report only if the component is managed and owns
    /// the reported artifact.
    pub fn record_scan_report(&mut self, report: &ProviderScanReport) -> (r: Result<
        FindingChangeSet,
        FindingIngestionError,
    >)
        requires
            old(self).wf(),
        ensures
            final(self).wf(),
            final(self).inventory_view() == old(self).inventory_view(),
            match ingestion_error(old(self).inventory_view(), *report) {
                Some(e) => r == Err::<FindingChangeSet, FindingIngestionError>(e)
                    && final(self).tracker_view() == old(self).tracker_view(),
                None => {
                    let item = (report.component_key@, report.artifact@);
                    let prev = snapshot_at(old(self).tracker_view(), item);
                    let cur = snapshot_identities(*report);
                    &&& r is Ok
                    &&& final(self).tracker_view() == old(self).tracker_view().insert(item, cur)
                    &&& (
                        r->Ok_0.discovered as int,
                        r->Ok_0.repeated as int,
                        r->Ok_0.withdrawn as int,
                        r->Ok_0.active as int,
                    ) == change_set_of(prev, cur)
                },
            },
    {
        if !self.inventory.is_managed(report.component_key.as_str()) {
            return Err(FindingIngestionError::UnmanagedComponent);
        }
        if !self.inventory.component_owns_artifact(report.component_key.as_str(), &report.artifact) {
            return Err(FindingIngestionError::UnmanagedArtifact);
        }
        Ok(self.tracker.record_scan_report(report))
    }
}

} // verus!
