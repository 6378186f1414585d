//! Durable integration events: what the library tells downstream systems,
//! with identities stable enough for idempotent delivery.

use crate::findings::finding_provider::{ArtifactRef, EvidenceFreshness};
use crate::findings::finding_tracker::FindingChangeSet;
use crate::order::owned;
use vstd::prelude::*;

verus! {

/// Canonical external event payload published by the library.
#[derive(Debug, PartialEq, Eq)]
pub enum IntegrationEvent {
    FindingChangesObserved {
        component_key: String,
        artifact: ArtifactRef,
        provider_key: String,
        freshness: EvidenceFreshness,
        observed_at_micros: u64,
        change_set: FindingChangeSet,
    },
    ScanCommandCompleted {
        command_id: String,
        component_key: String,
        artifact: ArtifactRef,
        provider_key: String,
        freshness: EvidenceFreshness,
        findings_reported: usize,
        change_set: FindingChangeSet,
    },
}

impl Clone for IntegrationEvent {
    fn clone(&self) -> (r: Self)
        ensures
            r == *self,
    {
        match self {
            Self::FindingChangesObserved {
                component_key,
                artifact,
                provider_key,
                freshness,
                observed_at_micros,
                change_set,
            } => Self::FindingChangesObserved {
                component_key: component_key.clone(),
                artifact: artifact.clone(),
                provider_key: provider_key.clone(),
                freshness: *freshness,
                observed_at_micros: *observed_at_micros,
                change_set: *change_set,
            },
            Self::ScanCommandCompleted {
                command_id,
                component_key,
                artifact,
                provider_key,
                freshness,
                findings_reported,
                change_set,
            } => Self::ScanCommandCompleted {
                command_id: command_id.clone(),
                component_key: component_key.clone(),
                artifact: artifact.clone(),
                provider_key: provider_key.clone(),
                freshness: *freshness,
                findings_reported: *findings_reported,
                change_set: *change_set,
            },
        }
    }
}

impl IntegrationEvent {
    pub fn kind_name(&self) -> (r: &'static str)
        ensures
            r@ == (match self {
                Self::FindingChangesObserved { .. } => "finding-changes-observed"@,
                Self::ScanCommandCompleted { .. } => "scan-command-completed"@,
            }),
    {
        match self {
            Self::FindingChangesObserved { .. } => "finding-changes-observed",
            Self::ScanCommandCompleted { .. } => "scan-command-completed",
        }
    }
}

/// Durable unpublished integration event.
#[derive(Debug, PartialEq, Eq)]
pub struct PendingIntegrationEvent {
    pub event_id: String,
    pub event: IntegrationEvent,
}

impl Clone for PendingIntegrationEvent {
    fn clone(&self) -> (r: Self)
        ensures
            r == *self,
    {
        PendingIntegrationEvent { event_id: self.event_id.clone(), event: self.event.clone() }
    }
}

/// The character of a decimal digit.
pub open spec fn digit_char(d: nat) -> char {
    (48 + d) as char
}

/// The decimal text of a number, without leading zeros.
pub open spec fn decimal(n: nat) -> Seq<char>
    decreases n,
{
    if n < 10 {
        seq![digit_char(n)]
    } else {
        decimal(n / 10) + seq![digit_char(n % 10)]
    }
}

fn digit_text(d: u128) -> (r: &'static str)
    requires
        d < 10,
    ensures
        r@ == seq![digit_char(d as nat)],
{
    proof {
        reveal_strlit("0");
        reveal_strlit("1");
        reveal_strlit("2");
        reveal_strlit("3");
        reveal_strlit("4");
        reveal_strlit("5");
        reveal_strlit("6");
        reveal_strlit("7");
        reveal_strlit("8");
        reveal_strlit("9");
    }
    if d == 0 {
        assert("0"@ =~= seq![digit_char(0)]);
        "0"
    } else if d == 1 {
        assert("1"@ =~= seq![digit_char(1)]);
        "1"
    } else if d == 2 {
        assert("2"@ =~= seq![digit_char(2)]);
        "2"
    } else if d == 3 {
        assert("3"@ =~= seq![digit_char(3)]);
        "3"
    } else if d == 4 {
        assert("4"@ =~= seq![digit_char(4)]);
        "4"
    } else if d == 5 {
        assert("5"@ =~= seq![digit_char(5)]);
        "5"
    } else if d == 6 {
        assert("6"@ =~= seq![digit_char(6)]);
        "6"
    } else if d == 7 {
        assert("7"@ =~= seq![digit_char(7)]);
        "7"
    } else if d == 8 {
        assert("8"@ =~= seq![digit_char(8)]);
        "8"
    } else {
        assert("9"@ =~= seq![digit_char(9)]);
        "9"
    }
}

/// The decimal text of a number.
pub fn decimal_text(n: u128) -> (r: String)
    ensures
        r@ == decimal(n as nat),
    decreases n,
{
    if n < 10 {
        owned(digit_text(n))
    } else {
        decimal_text(n / 10).concat(digit_text(n % 10))
    }
}

/// Identity of a fresh integration event: the prefix and the time it was made.
pub open spec fn event_id_text(prefix: Seq<char>, nanos: nat) -> Seq<char> {
    "integration-event-"@ + prefix + "-"@ + decimal(nanos)
}

/// Build the identity of an integration event made at `nanos` nanoseconds
/// after the Unix epoch.
pub fn integration_event_id(prefix: &str, nanos: u128) -> (r: String)
    ensures
        r@ == event_id_text(prefix@, nanos as nat),
{
    owned("integration-event-").concat(prefix).concat("-").concat(decimal_text(nanos).as_str())
}

/// Nanoseconds from the Unix epoch to now, through `SystemTime::now` and
/// `duration_since`; none when the clock reads a time before the epoch.
/// What the clock reads is not stated.
#[verifier::external_body]
pub(crate) fn unix_nanos_now() -> (r: Option<u128>) {
    match std::time::SystemTime::now().duration_since(std::time::UNIX_EPOCH) {
        Ok(d) => Some(d.as_nanos()),
        Err(_) => None,
    }
}

/// Microseconds from the Unix epoch to a time: what `duration_since` with
/// `UNIX_EPOCH` and `as_micros` give; none for a time before the epoch.
pub uninterp spec fn unix_micros(t: std::time::SystemTime) -> Option<u128>;

/// Microseconds that fit in a `u64`.
pub open spec fn fitting_micros(micros: Option<u128>) -> Option<u64> {
    match micros {
        Some(m) => if m <= u64::MAX {
            Some(m as u64)
        } else {
            None
        },
        None => None,
    }
}

/// Microseconds from the Unix epoch to `t`, through `duration_since` and
/// `as_micros`; none for a time before the epoch. The result is named.
#[verifier::external_body]
fn unix_micros_of(t: &std::time::SystemTime) -> (r: Option<u128>)
    ensures
        r == unix_micros(*t),
{
    match t.duration_since(std::time::UNIX_EPOCH) {
        Ok(d) => Some(d.as_micros()),
        Err(_) => None,
    }
}

/// The identity built from one reading of the clock: the nanoseconds since
/// the Unix epoch, or none when the clock read a time before it.
pub open spec fn id_from_clock(prefix: Seq<char>, nanos: Option<u128>, r: Option<String>) -> bool {
    match nanos {
        Some(n) => r matches Some(id) && id@ == event_id_text(prefix, n as nat),
        None => r is None,
    }
}

/// The event built from one reading of the clock and the observation time
/// in microseconds: none when the clock read a time before the Unix epoch or
/// the observation time does not fit, else one named by the reading.
pub open spec fn event_from_clock(
    nanos: Option<u128>,
    micros: Option<u64>,
    r: Option<PendingIntegrationEvent>,
) -> bool {
    match (nanos, micros) {
        (Some(n), Some(_)) => r matches Some(x) && x.event_id@ == event_id_text(
            "finding-changes"@,
            n as nat,
        ),
        _ => r is None,
    }
}

/// Build one fresh integration-event identity from the current time; none
/// when the clock reads a time before the Unix epoch.
pub fn next_integration_event_id(prefix: &str) -> (r: Option<String>)
    ensures
        exists|nanos: Option<u128>| #[trigger] id_from_clock(prefix@, nanos, r),
        r matches Some(id) ==> exists|nanos: nat| id@ == #[trigger] event_id_text(prefix@, nanos),
{
    let reading = unix_nanos_now();
    let r = match reading {
        Some(nanos) => {
            let id = integration_event_id(prefix, nanos);
            assert(id@ == event_id_text(prefix@, nanos as nat));
            Some(id)
        },
        None => None,
    };
    assert(id_from_clock(prefix@, reading, r));
    r
}

/// Microseconds of a time since the Unix epoch, when it fits in a `u64`.
pub fn micros_in_range(micros: Option<u128>) -> (r: Option<u64>)
    ensures
        r == fitting_micros(micros),
{
    match micros {
        Some(m) => if m <= u64::MAX as u128 {
            Some(m as u64)
        } else {
            None
        },
        None => None,
    }
}

/// Convert one system time into microseconds since the Unix epoch; none
/// for a time before the epoch or one whose microseconds overflow a `u64`.
pub fn system_time_to_micros(value: std::time::SystemTime) -> (r: Option<u64>)
    ensures
        r == fitting_micros(unix_micros(value)),
{
    micros_in_range(unix_micros_of(&value))
}

impl PendingIntegrationEvent {
    /// The event that one recorded provider snapshot changed findings,
    /// under a given identity and observation time.
    pub fn finding_changes_observed_as(
        event_id: String,
        component_key: &str,
        artifact: ArtifactRef,
        provider_key: &str,
        freshness: EvidenceFreshness,
        observed_at_micros: u64,
        change_set: FindingChangeSet,
    ) -> (r: Self)
        ensures
            r.event_id == event_id,
            r.event matches IntegrationEvent::FindingChangesObserved {
                component_key: c,
                artifact: a,
                provider_key: p,
                freshness: f,
                observed_at_micros: t,
                change_set: s,
            } && c@ == component_key@ && a == artifact && p@ == provider_key@ && f == freshness
                && t == observed_at_micros && s == change_set,
    {
        PendingIntegrationEvent {
            event_id,
            event: IntegrationEvent::FindingChangesObserved {
                component_key: owned(component_key),
                artifact,
                provider_key: owned(provider_key),
                freshness,
                observed_at_micros,
                change_set,
            },
        }
    }

    /// The event that findings changed, with a fresh identity and the
    /// observation time in microseconds; none when either time is before
    /// the Unix epoch or out of range.
    pub fn finding_changes_observed(
        component_key: &str,
        artifact: ArtifactRef,
        provider_key: &str,
        freshness: EvidenceFreshness,
        observed_at: std::time::SystemTime,
        change_set: FindingChangeSet,
    ) -> (r: Option<Self>)
        ensures
            r matches Some(x) ==> (exists|nanos: nat|
                x.event_id@ == #[trigger] event_id_text("finding-changes"@, nanos)),
            r matches Some(x) ==> (x.event matches IntegrationEvent::FindingChangesObserved {
                component_key: c,
                artifact: a,
                provider_key: p,
                freshness: f,
                observed_at_micros: t,
                change_set: s,
            } && c@ == component_key@ && a == artifact && p@ == provider_key@ && f == freshness
                && fitting_micros(unix_micros(observed_at)) == Some(t) && s == change_set),
            fitting_micros(unix_micros(observed_at)) is None ==> r is None,
            exists|nanos: Option<u128>|
                #[trigger] event_from_clock(nanos, fitting_micros(unix_micros(observed_at)), r),
    {
        let id_opt = next_integration_event_id("finding-changes");
        let ghost n = choose|n: Option<u128>| id_from_clock("finding-changes"@, n, id_opt);
        let ghost fits = fitting_micros(unix_micros(observed_at));
        let event_id = match id_opt {
            Some(id) => id,
            None => {
                assert(event_from_clock(n, fits, None));
                return None;
            },
        };
        let micros = match system_time_to_micros(observed_at) {
            Some(m) => m,
            None => {
                assert(event_from_clock(n, fits, None));
                return None;
            },
        };
        let r = Some(
            PendingIntegrationEvent::finding_changes_observed_as(
                event_id,
                component_key,
                artifact,
                provider_key,
                freshness,
                micros,
                change_set,
            ),
        );
        assert(event_from_clock(n, fits, r));
        r
    }

    /// The event that one scan command completed; its identity is derived
    /// from the command identity, so a retried completion reuses it.
    pub fn scan_command_completed(
        command_id: &str,
        component_key: &str,
        artifact: ArtifactRef,
        provider_key: &str,
        freshness: EvidenceFreshness,
        findings_reported: usize,
        change_set: FindingChangeSet,
    ) -> (r: Self)
        ensures
            r.event_id@ == "integration-event-scan-command-completed-"@ + command_id@,
            r.event matches IntegrationEvent::ScanCommandCompleted {
                command_id: i,
                component_key: c,
                artifact: a,
                provider_key: p,
                freshness: f,
                findings_reported: n,
                change_set: s,
            } && i@ == command_id@ && c@ == component_key@ && a == artifact && p@
                == provider_key@ && f == freshness && n == findings_reported && s == change_set,
    {
        PendingIntegrationEvent {
            event_id: owned("integration-event-scan-command-completed-").concat(command_id),
            event: IntegrationEvent::ScanCommandCompleted {
                command_id: owned(command_id),
                component_key: owned(component_key),
                artifact,
                provider_key: owned(provider_key),
                freshness,
                findings_reported,
                change_set,
            },
        }
    }
}

/// Explicit external publication error.
#[derive(Debug, PartialEq, Eq)]
pub struct IntegrationEventPublishError {
    pub retryable: bool,
    pub message: String,
}

impl IntegrationEventPublishError {
    pub fn new(retryable: bool, message: &str) -> (r: Self)
        ensures
            r.retryable == retryable,
            r.message@ == message@,
    {
        IntegrationEventPublishError { retryable, message: owned(message) }
    }
}

/// Explicit bounded publication result.
#[derive(Debug, PartialEq, Eq)]
pub struct PublishIntegrationEventsResult {
    pub attempted: usize,
    pub published: usize,
    pub pending_remaining: usize,
    pub last_failure: Option<IntegrationEventPublicationFailure>,
}

/// Last failure observed while publishing one bounded batch.
#[derive(Debug, PartialEq, Eq)]
pub struct IntegrationEventPublicationFailure {
    pub event_id: String,
    pub retryable: bool,
    pub message: String,
}

/// Whether a bounded publication batch may attempt one more event: no
/// attempt has failed and fewer than `max_events` were made.
pub open spec fn batch_open(progress: PublishIntegrationEventsResult, max_events: usize) -> bool {
    progress.last_failure is None && progress.attempted < max_events
}

/// The progress of a batch after one more attempt on the event `event_id`,
/// whose publication gave `outcome`, with `pending` events left.
pub open spec fn batch_advanced(
    before: PublishIntegrationEventsResult,
    after: PublishIntegrationEventsResult,
    event_id: Seq<char>,
    outcome: Result<(), IntegrationEventPublishError>,
    pending: nat,
) -> bool {
    &&& after.attempted == before.attempted + 1
    &&& after.pending_remaining == pending
    &&& match outcome {
        Ok(()) => after.published == before.published + 1 && after.last_failure
            == before.last_failure,
        Err(e) => after.published == before.published && (after.last_failure matches Some(f)
            && f.event_id@ == event_id && f.retryable == e.retryable && f.message@ == e.message@),
    }
}

impl PublishIntegrationEventsResult {
    /// The progress of a batch before any attempt, with `pending` events
    /// waiting.
    pub fn start(pending: usize) -> (r: Self)
        ensures
            r.attempted == 0,
            r.published == 0,
            r.pending_remaining == pending,
            r.last_failure is None,
    {
        PublishIntegrationEventsResult {
            attempted: 0,
            published: 0,
            pending_remaining: pending,
            last_failure: None,
        }
    }

    /// Count one more attempt on the event `event_id`, whose publication
    /// gave `outcome`, with `pending` events left.
    pub(crate) fn advance(
        &mut self,
        event_id: &str,
        outcome: Result<(), IntegrationEventPublishError>,
        pending: usize,
    )
        requires
            old(self).attempted < usize::MAX,
            old(self).published < usize::MAX,
        ensures
            batch_advanced(*old(self), *final(self), event_id@, outcome, pending as nat),
    {
        self.attempted = self.attempted + 1;
        self.pending_remaining = pending;
        match outcome {
            Ok(()) => {
                self.published = self.published + 1;
            },
            Err(e) => {
                self.last_failure = Some(
                    IntegrationEventPublicationFailure {
                        event_id: owned(event_id),
                        retryable: e.retryable,
                        message: e.message,
                    },
                );
            },
        }
    }
}

} // verus!
