pub mod component_inventory;
pub mod context_profile;

pub use component_inventory::{
    AddCollectionComponentChange, AddCollectionComponentResult, BindArtifactChange,
    BindArtifactResult, CollectionRegistration, CollectionScopedArtifact, CollectionScanSchedule, ComponentInventory,
    ComponentRegistration, ConfigureCollectionScanScheduleChange,
    ConfigureCollectionScanScheduleResult, ConfigureProviderChange, ConfigureProviderResult,
    ManagedCollection, ManagedCollectionOperationsSummary, RegisterCollectionChange,
    RegisterCollectionResult, RegisterComponentChange, RegisterComponentResult,
    RemoveCollectionComponentChange, RemoveCollectionComponentResult,
};
pub use context_profile::{
    ContextFactorOrigin, ContextFactorSource, ContextProfileRef, ContextProfileValues,
    EffectiveContextFactorSources, EffectiveContextProfile, ManagedContextProfile,
};
