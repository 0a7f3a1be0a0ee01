//! Event aggregation for a consensus node: the unified event type, the
//! deadline order of timeout requests, and the fixed-priority merge of the
//! node's four event sources.

pub mod aggregator;
pub mod event;
pub mod timeout;

pub use event::{Event, EventHandler, Height, InternalEvent, Round};
pub use aggregator::{Action, EventsAggregator, MergeState, Polled, Source};
pub use timeout::{TimeoutQueue, TimeoutRequest};
