//! Applying what a provider answered to one canonical scan request.
//!
//! Asking the provider is asynchronous work at the edge; what follows the
//! answer (contract validation, then gated ingestion) is decided here.

use crate::findings::finding_ingestion::{ingestion_error, FindingIngestion, FindingIngestionError};
use crate::findings::finding_provider::{
    FindingProviderError, FindingProviderErrorKind, ProviderScanReport, ScanRequest,
};
use crate::findings::finding_provider_contract::{
    as_provider_error, contract_violation, validate_provider_scan_report, violation_message,
};
use crate::findings::finding_tracker::{
    change_set_of, snapshot_at, snapshot_identities, FindingChangeSet,
};
use crate::order::owned;
use vstd::prelude::*;

verus! {

/// Observable outcome of executing one canonical scan request.
#[derive(Debug, PartialEq, Eq)]
pub struct ScanExecutionResult {
    /// Provider that executed the request.
    pub provider_key: String,
    /// Number of findings present in the provider snapshot.
    pub findings_reported: usize,
    /// Business-visible change after applying the provider report.
    pub change_set: FindingChangeSet,
}

/// Canonical failure when executing one scan request.
#[derive(Debug, PartialEq, Eq)]
pub enum ScanExecutionError {
    /// The provider failed or returned an untrustworthy report.
    Provider(FindingProviderError),
    /// The provider report could not be applied to managed ownership.
    Ingestion(FindingIngestionError),
}

impl ScanExecutionError {
    pub fn as_str(&self) -> (r: &'static str)
        ensures
            r@ == (match self {
                Self::Provider(_) => "provider-error"@,
                Self::Ingestion(FindingIngestionError::UnmanagedComponent) => "unmanaged-component"@,
                Self::Ingestion(FindingIngestionError::UnmanagedArtifact) => "unmanaged-artifact"@,
            }),
    {
        match self {
            Self::Provider(_) => "provider-error",
            Self::Ingestion(FindingIngestionError::UnmanagedComponent) => "unmanaged-component",
            Self::Ingestion(FindingIngestionError::UnmanagedArtifact) => "unmanaged-artifact",
        }
    }
}

/// Finish one scan execution with the provider's answer: a provider error
/// is passed on, a report that breaks the provider contract becomes a
/// non-retryable corrupt-response error, and a valid report is ingested.
pub fn complete_scan(
    ingestion: &mut FindingIngestion,
    provider_key: &str,
    request: &ScanRequest,
    answer: Result<ProviderScanReport, FindingProviderError>,
) -> (r: Result<ScanExecutionResult, ScanExecutionError>)
    requires
        old(ingestion).wf(),
    ensures
        final(ingestion).wf(),
        final(ingestion).inventory_view() == old(ingestion).inventory_view(),
        match answer {
            Err(e) => r == Err::<ScanExecutionResult, ScanExecutionError>(
                ScanExecutionError::Provider(e),
            ) && final(ingestion).tracker_view() == old(ingestion).tracker_view(),
            Ok(report) => match contract_violation(provider_key@, *request, report) {
                Some(v) => r matches Err(ScanExecutionError::Provider(pe)) && pe.kind
                    == FindingProviderErrorKind::CorruptResponse && !pe.retryable && pe.message@
                    == violation_message(v) && final(ingestion).tracker_view() == old(
                    ingestion,
                ).tracker_view(),
                None => match ingestion_error(old(ingestion).inventory_view(), report) {
                    Some(e) => r == Err::<ScanExecutionResult, ScanExecutionError>(
                        ScanExecutionError::Ingestion(e),
                    ) && final(ingestion).tracker_view() == old(ingestion).tracker_view(),
                    None => {
                        let item = (report.component_key@, report.artifact@);
                        let prev = snapshot_at(old(ingestion).tracker_view(), item);
                        let cur = snapshot_identities(report);
                        &&& r matches Ok(x)
                        &&& x.provider_key@ == report.provider_key@
                        &&& x.findings_reported == report.findings@.len()
                        &&& (
                            x.change_set.discovered as int,
                            x.change_set.repeated as int,
                            x.change_set.withdrawn as int,
                            x.change_set.active as int,
                        ) == change_set_of(prev, cur)
                        &&& final(ingestion).tracker_view() == old(
                            ingestion,
                        ).tracker_view().insert(item, cur)
                    },
                },
            },
        },
{
    let report = match answer {
        Ok(report) => report,
        Err(e) => {
            return Err(ScanExecutionError::Provider(e));
        },
    };
    match validate_provider_scan_report(provider_key, request, &report) {
        Ok(()) => {},
        Err(v) => {
            return Err(ScanExecutionError::Provider(as_provider_error(v)));
        },
    }
    let findings_reported = report.findings.len();
    match ingestion.record_scan_report(&report) {
        Ok(change_set) => Ok(
            ScanExecutionResult {
                provider_key: owned(report.provider_key.as_str()),
                findings_reported,
                change_set,
            },
        ),
        Err(e) => Err(ScanExecutionError::Ingestion(e)),
    }
}

} // verus!
