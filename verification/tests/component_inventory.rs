use venom_domain::findings::{ArtifactKind, ArtifactRef, EvidenceFreshness};
use venom_domain::inventory::{
    AddCollectionComponentChange, BindArtifactChange, CollectionRegistration,
    CollectionScanSchedule, ComponentInventory, ComponentRegistration,
    ConfigureCollectionScanScheduleChange, ConfigureProviderChange, RegisterCollectionChange,
    RegisterComponentChange, RemoveCollectionComponentChange,
};

fn artifact(identity: &str) -> ArtifactRef {
    ArtifactRef::new(ArtifactKind::ContainerImage, identity)
}

#[test]
fn component_inventory_new_component_is_registered() {
    let mut inventory = ComponentInventory::default();
    let result = inventory.register(ComponentRegistration::new(
        "component:payments-api",
        "Payments API",
    ));
    assert_eq!(result.change, RegisterComponentChange::Registered);
    assert_eq!(result.managed_components, 1);
    assert!(inventory.is_managed("component:payments-api"));
}

#[test]
fn component_inventory_same_registration_is_idempotent() {
    let mut inventory = ComponentInventory::default();
    let registration = ComponentRegistration::new("component:payments-api", "Payments API");
    let _ = inventory.register(registration.clone());
    let result = inventory.register(registration);
    assert_eq!(result.change, RegisterComponentChange::Unchanged);
    assert_eq!(result.managed_components, 1);
}

#[test]
fn component_inventory_conflicting_registration_is_rejected() {
    let mut inventory = ComponentInventory::default();
    let _ = inventory.register(ComponentRegistration::new(
        "component:payments-api",
        "Payments API",
    ));
    let result = inventory.register(ComponentRegistration::new(
        "component:payments-api",
        "Billing API",
    ));
    assert_eq!(result.change, RegisterComponentChange::Rejected);
    assert_eq!(result.managed_components, 1);
}

#[test]
fn component_inventory_managed_component_can_bind_an_artifact() {
    let mut inventory = ComponentInventory::default();
    let _ = inventory.register(ComponentRegistration::new(
        "component:payments-api",
        "Payments API",
    ));
    let result = inventory.bind_artifact(
        "component:payments-api",
        artifact("registry.example/payments@sha256:111"),
    );
    assert_eq!(result.change, BindArtifactChange::Bound);
    assert_eq!(result.bound_artifacts, 1);
    assert!(inventory.component_owns_artifact(
        "component:payments-api",
        &artifact("registry.example/payments@sha256:111"),
    ));
}

#[test]
fn component_inventory_repeated_artifact_binding_is_idempotent() {
    let mut inventory = ComponentInventory::default();
    let _ = inventory.register(ComponentRegistration::new(
        "component:payments-api",
        "Payments API",
    ));
    let artifact = artifact("registry.example/payments@sha256:111");
    let _ = inventory.bind_artifact("component:payments-api", artifact.clone());
    let result = inventory.bind_artifact("component:payments-api", artifact);
    assert_eq!(result.change, BindArtifactChange::Unchanged);
    assert_eq!(result.bound_artifacts, 1);
}

#[test]
fn component_inventory_artifact_cannot_be_bound_to_two_components() {
    let mut inventory = ComponentInventory::default();
    let _ = inventory.register(ComponentRegistration::new(
        "component:payments-api",
        "Payments API",
    ));
    let _ = inventory.register(ComponentRegistration::new(
        "component:billing-api",
        "Billing API",
    ));
    let artifact = artifact("registry.example/shared@sha256:111");
    let _ = inventory.bind_artifact("component:payments-api", artifact.clone());
    let result = inventory.bind_artifact("component:billing-api", artifact);
    assert_eq!(result.change, BindArtifactChange::Rejected);
    assert_eq!(result.bound_artifacts, 0);
}

#[test]
fn component_inventory_managed_component_can_configure_one_provider() {
    let mut inventory = ComponentInventory::default();
    let _ = inventory.register(ComponentRegistration::new(
        "component:payments-api",
        "Payments API",
    ));
    let result = inventory.configure_provider("component:payments-api", "fixture-provider");
    assert_eq!(result.change, ConfigureProviderChange::Configured);
    assert_eq!(result.provider_key.as_deref(), Some("fixture-provider"));
    assert_eq!(
        inventory.configured_provider("component:payments-api"),
        Some("fixture-provider")
    );
}

#[test]
fn component_inventory_repeated_provider_configuration_is_idempotent() {
    let mut inventory = ComponentInventory::default();
    let _ = inventory.register(ComponentRegistration::new(
        "component:payments-api",
        "Payments API",
    ));
    let _ = inventory.configure_provider("component:payments-api", "fixture-provider");
    let result = inventory.configure_provider("component:payments-api", "fixture-provider");
    assert_eq!(result.change, ConfigureProviderChange::Unchanged);
    assert_eq!(result.provider_key.as_deref(), Some("fixture-provider"));
}

#[test]
fn component_inventory_unknown_component_cannot_configure_one_provider() {
    let mut inventory = ComponentInventory::default();
    let result = inventory.configure_provider("component:payments-api", "fixture-provider");
    assert_eq!(result.change, ConfigureProviderChange::Rejected);
    assert!(result.provider_key.is_none());
}

#[test]
fn new_collection_is_created() {
    let mut inventory = ComponentInventory::default();
    let result =
        inventory.register_collection(CollectionRegistration::new("release:2026.05", "May"));
    assert_eq!(result.change, RegisterCollectionChange::Created);
    assert_eq!(result.managed_collections, 1);
    assert!(inventory.is_collection_managed("release:2026.05"));
}

#[test]
fn same_collection_creation_is_idempotent() {
    let mut inventory = ComponentInventory::default();
    let registration = CollectionRegistration::new("release:2026.05", "May");
    let _ = inventory.register_collection(registration.clone());
    let result = inventory.register_collection(registration);
    assert_eq!(result.change, RegisterCollectionChange::Unchanged);
    assert_eq!(result.managed_collections, 1);
}

#[test]
fn conflicting_collection_creation_is_rejected() {
    let mut inventory = ComponentInventory::default();
    let _ = inventory.register_collection(CollectionRegistration::new("release:2026.05", "May"));
    let result =
        inventory.register_collection(CollectionRegistration::new("release:2026.05", "June"));
    assert_eq!(result.change, RegisterCollectionChange::Rejected);
    assert_eq!(result.managed_collections, 1);
}

#[test]
fn managed_component_can_join_one_collection() {
    let mut inventory = ComponentInventory::default();
    let _ = inventory.register(ComponentRegistration::new(
        "component:payments-api",
        "Payments API",
    ));
    let _ = inventory.register_collection(CollectionRegistration::new("release:2026.05", "May"));
    let result =
        inventory.add_component_to_collection("release:2026.05", "component:payments-api");
    assert_eq!(result.change, AddCollectionComponentChange::Added);
    assert_eq!(result.members, 1);
    assert_eq!(
        inventory.collection_members("release:2026.05"),
        Some(vec![String::from("component:payments-api")])
    );
}

#[test]
fn managed_collection_can_configure_one_periodic_scan_schedule() {
    let mut inventory = ComponentInventory::default();
    let _ = inventory.register_collection(CollectionRegistration::new(
        "release:2026.05",
        "May Release",
    ));
    let result = inventory.configure_collection_scan_schedule(
        "release:2026.05",
        60,
        EvidenceFreshness::Deterministic,
        1_000,
    );
    assert_eq!(
        result.change,
        ConfigureCollectionScanScheduleChange::Configured
    );
    assert_eq!(
        inventory.collection_scan_schedule("release:2026.05"),
        Some(CollectionScanSchedule {
            cadence_minutes: 60,
            freshness: EvidenceFreshness::Deterministic,
            next_due_at_unix_ms: 1_000,
            last_materialized_at_unix_ms: None,
            last_enqueued_commands: None,
        })
    );
}

#[test]
fn due_collections_are_ordered_by_due_time_then_key() {
    let mut inventory = ComponentInventory::default();
    let _ = inventory.register_collection(CollectionRegistration::new(
        "release:2026.05",
        "May Release",
    ));
    let _ = inventory.register_collection(CollectionRegistration::new(
        "release:2026.06",
        "June Release",
    ));
    let _ = inventory.configure_collection_scan_schedule(
        "release:2026.05",
        60,
        EvidenceFreshness::Deterministic,
        2_000,
    );
    let _ = inventory.configure_collection_scan_schedule(
        "release:2026.06",
        60,
        EvidenceFreshness::Deterministic,
        1_000,
    );
    let due = inventory.due_collection_keys(2_000, 8);
    assert_eq!(
        due,
        vec![
            String::from("release:2026.06"),
            String::from("release:2026.05"),
        ]
    );
}

#[test]
fn collection_operations_summaries_are_ordered_by_schedule_then_key() {
    let mut inventory = ComponentInventory::default();
    let _ = inventory.register(ComponentRegistration::new(
        "component:payments-api",
        "Payments API",
    ));
    let _ = inventory.register(ComponentRegistration::new(
        "component:billing-api",
        "Billing API",
    ));
    let _ = inventory.register_collection(CollectionRegistration::new(
        "release:2026.06",
        "June Release",
    ));
    let _ = inventory.register_collection(CollectionRegistration::new(
        "release:2026.05",
        "May Release",
    ));
    let _ = inventory.register_collection(CollectionRegistration::new(
        "release:2026.07",
        "July Release",
    ));
    let _ = inventory.add_component_to_collection("release:2026.05", "component:payments-api");
    let _ = inventory.add_component_to_collection("release:2026.06", "component:billing-api");
    let _ = inventory.configure_collection_scan_schedule(
        "release:2026.06",
        120,
        EvidenceFreshness::Deterministic,
        2_000,
    );
    let _ = inventory.configure_collection_scan_schedule(
        "release:2026.05",
        60,
        EvidenceFreshness::Deterministic,
        1_000,
    );
    let summaries = inventory.collection_operations_summaries(1_500);
    assert_eq!(summaries.len(), 3);
    assert_eq!(summaries[0].collection_key.as_str(), "release:2026.05");
    assert_eq!(summaries[0].members, 1);
    assert!(summaries[0].due_now);
    assert_eq!(summaries[1].collection_key.as_str(), "release:2026.06");
    assert!(!summaries[1].due_now);
    assert_eq!(summaries[2].collection_key.as_str(), "release:2026.07");
    assert!(summaries[2].scan_schedule.is_none());
}

#[test]
fn materialized_collection_schedule_keeps_last_run_metadata() {
    let mut inventory = ComponentInventory::default();
    let _ = inventory.register_collection(CollectionRegistration::new(
        "release:2026.05",
        "May Release",
    ));
    let _ = inventory.configure_collection_scan_schedule(
        "release:2026.05",
        60,
        EvidenceFreshness::Deterministic,
        1_000,
    );
    let result =
        inventory.record_collection_scan_materialization("release:2026.05", 3_601_500, 1_500, 1);
    assert_eq!(
        result.change,
        ConfigureCollectionScanScheduleChange::Configured
    );
    assert_eq!(
        inventory.collection_scan_schedule("release:2026.05"),
        Some(CollectionScanSchedule {
            cadence_minutes: 60,
            freshness: EvidenceFreshness::Deterministic,
            next_due_at_unix_ms: 3_601_500,
            last_materialized_at_unix_ms: Some(1_500),
            last_enqueued_commands: Some(1),
        })
    );
}

#[test]
fn unmanaged_component_cannot_join_one_collection() {
    let mut inventory = ComponentInventory::default();
    let _ = inventory.register_collection(CollectionRegistration::new("release:2026.05", "May"));
    let result =
        inventory.add_component_to_collection("release:2026.05", "component:payments-api");
    assert_eq!(result.change, AddCollectionComponentChange::Rejected);
    assert_eq!(result.members, 0);
}

#[test]
fn collection_member_can_be_removed() {
    let mut inventory = ComponentInventory::default();
    let _ = inventory.register(ComponentRegistration::new(
        "component:payments-api",
        "Payments API",
    ));
    let _ = inventory.register_collection(CollectionRegistration::new("release:2026.05", "May"));
    let _ = inventory.add_component_to_collection("release:2026.05", "component:payments-api");
    let result =
        inventory.remove_component_from_collection("release:2026.05", "component:payments-api");
    assert_eq!(result.change, RemoveCollectionComponentChange::Removed);
    assert_eq!(result.members, 0);
}

#[test]
fn new_component_is_registered() {
    component_inventory_new_component_is_registered();
}

#[test]
fn same_registration_is_idempotent() {
    component_inventory_same_registration_is_idempotent();
}

#[test]
fn conflicting_registration_is_rejected() {
    component_inventory_conflicting_registration_is_rejected();
}

#[test]
fn managed_component_can_bind_an_artifact() {
    component_inventory_managed_component_can_bind_an_artifact();
}

#[test]
fn repeated_artifact_binding_is_idempotent() {
    component_inventory_repeated_artifact_binding_is_idempotent();
}

#[test]
fn artifact_cannot_be_bound_to_two_components() {
    component_inventory_artifact_cannot_be_bound_to_two_components();
}

#[test]
fn managed_component_can_configure_one_provider() {
    component_inventory_managed_component_can_configure_one_provider();
}

#[test]
fn repeated_provider_configuration_is_idempotent() {
    component_inventory_repeated_provider_configuration_is_idempotent();
}

#[test]
fn unknown_component_cannot_configure_one_provider() {
    component_inventory_unknown_component_cannot_configure_one_provider();
}

#[test]
fn removing_a_member_undoes_adding_it() {
    let mut inventory = ComponentInventory::default();
    for key in ["component:payments-api", "component:ledger"] {
        let _ = inventory.register(ComponentRegistration::new(key, key));
    }
    let _ = inventory.register_collection(CollectionRegistration::new("release:2026.05", "May"));
    let _ = inventory.add_component_to_collection("release:2026.05", "component:payments-api");
    let before = inventory.collection_members("release:2026.05");

    let added = inventory.add_component_to_collection("release:2026.05", "component:ledger");
    assert_eq!(added.change, AddCollectionComponentChange::Added);
    let removed =
        inventory.remove_component_from_collection("release:2026.05", "component:ledger");
    assert_eq!(removed.change, RemoveCollectionComponentChange::Removed);

    assert_eq!(inventory.collection_members("release:2026.05"), before);
    assert_eq!(before, Some(vec!["component:payments-api".to_string()]));
}
