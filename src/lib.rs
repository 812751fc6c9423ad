//! Feed ingestion and fan-out: the verified core of a feed reader.
//!
//! Sources are polled in cycles. For each RSS source whose document was fetched and parsed,
//! each entry's canonical link that the source does not have yet is enriched (best effort)
//! and stored once, and every subscriber of the source gets one unread notification for it.

pub mod model;
pub mod store;
pub mod catalog;
pub mod fanout;
pub mod ingest;
pub mod pipeline;
pub mod api;

pub use api::Mutation;
pub use catalog::{SourceCatalog, SubscriptionIndex};
pub use fanout::fan_out;
pub use ingest::ingest_entries;
pub use model::{Entry, Notification, ParsedEntry, Reaction, Source, SourceKind};
pub use pipeline::{process_source, run_cycle, FetchError, SourceJob, SourceOutcome};
pub use model::{ParsedLink, RawPayload};
pub use store::{FeedStore, InsertError, NotificationStore};
