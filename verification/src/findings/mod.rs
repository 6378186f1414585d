pub mod collection_governance_overview;
pub mod collection_health;
pub mod contextual_risk;
pub mod finding_governance;
pub mod finding_ingestion;
pub mod finding_provider;
pub mod finding_provider_contract;
pub mod finding_read_model;
pub mod finding_tracker;
pub mod release_dashboard;

pub use finding_governance::{
    AcceptRiskChange, AcceptRiskResult, BulkAcceptRiskResult, BulkSuppressFindingResult, FindingDecision,
    FindingGovernance, FindingGovernanceState, FindingRef, ReopenFindingChange, ReopenFindingResult,
    BulkReopenFindingResult, RiskAcceptance,
    SuppressFindingChange, SuppressFindingResult, Suppression,
};
pub use finding_ingestion::{FindingIngestion, FindingIngestionError};
pub use finding_provider::{
    ArtifactKind, ArtifactRef, EvidenceFreshness, FindingProviderError,
    FindingProviderErrorKind, PackageCoordinate, ProviderScanReport, ReportedFinding, ScanRequest,
    Severity,
};
pub use finding_provider_contract::{
    as_provider_error, validate_provider_scan_report, FindingProviderContractViolation,
};
pub use finding_read_model::{
    ActiveFindingProjection, ActiveFindingsPage, ActiveFindingsQuery, BulkGovernanceQuery,
    FindingReadModel, ScopedActiveFinding, ScopedActiveFindingsPage, ScopedActiveFindingsQuery,
    DEFAULT_ACTIVE_FINDINGS_PAGE_LIMIT, MAX_ACTIVE_FINDINGS_PAGE_LIMIT,
};
pub use finding_tracker::{FindingChangeSet, FindingTracker};
pub use contextual_risk::{
    contextual_risk_level, ContextualActiveFindingProjection, ContextualFactorProvenance,
    ContextualPosture, ContextualRiskLevel,
};
pub use collection_health::{summarize_collection_health, CollectionHealthSummary, ComponentContext};
pub use collection_governance_overview::{
    query_collection_governance_overview, BulkGovernanceCohortSummary,
    CollectionGovernanceOverview,
};
pub use release_dashboard::{
    build_release_board, build_release_dashboard, ReleaseBoard, ReleaseBoardCollection,
    ReleaseDashboard, ReleaseDashboardCollection, ReleaseDashboardSummary,
};
