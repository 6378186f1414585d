pub mod collection_scan_scheduler;
pub mod durable_scan_runtime;
pub mod scan_execution;
pub mod scan_planning;
pub mod syft_grype;

pub use collection_scan_scheduler::{CollectionScanScheduler, DueCollectionScan};
pub use scan_execution::{complete_scan, ScanExecutionError, ScanExecutionResult};
pub use scan_planning::{
    CollectionScanBatch, CollectionScanPlanningError, ScanPlanner, ScanPlanningError,
};
pub use durable_scan_runtime::{
    CollectionScheduleOrigin, CompletedScanCommand, CorruptHistory, EnqueueScanResult,
    EnqueuedCommand, FailedScanCommand, RunNextScanResult, ScanCommandQueue, ScanCommandStatus,
    ScanQueueEvent,
};
