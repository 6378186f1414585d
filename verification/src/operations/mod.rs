pub mod system_event_trace;

pub use system_event_trace::{
    query_system_events, SystemEvent, SystemEventCategory, SystemEventKind, SystemEventQueryIndex,
    SystemEventRecentWindows, SystemEventWindowTotals, SystemEventsPage, SystemEventsQuery,
    DEFAULT_SYSTEM_EVENTS_LIMIT, MAX_SYSTEM_EVENTS_LIMIT,
};
