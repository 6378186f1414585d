pub mod integration_events;
pub mod integration_runtime;

pub use integration_events::{
    IntegrationEvent, IntegrationEventPublicationFailure, IntegrationEventPublishError,
    PendingIntegrationEvent, PublishIntegrationEventsResult,
};
pub use integration_runtime::{
    ConfigureIntegrationRuntimeChange, ConfigureIntegrationRuntimeResult, IntegrationRuntimeConfig,
};
