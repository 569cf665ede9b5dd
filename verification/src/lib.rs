//! Ingestion and aggregation of syndication feeds, and the time-windowed
//! query over the aggregated snapshot.
//!
//! The crate holds the decisions of the ingester: how a source list is read,
//! how the answer of an origin server is classified, how the outcomes of many
//! fetches become one snapshot keyed by feed identity, and which entries a
//! window query returns, in which order. Sending requests and awaiting their
//! answers is left to the caller, which feeds each answer back in as an event.

pub mod document;
pub mod fetch;
pub mod identity;
pub mod lines;
pub mod model;
pub mod query;
pub mod sources;
pub mod state;
pub mod store;
pub mod time;
pub mod unique;

pub use model::{Entry, EntryView, Feed, FeedView, Image, ImageView};
pub use state::{FeedAggregator, FeedState};
pub use store::FeedStore;
pub use time::Timestamp;
