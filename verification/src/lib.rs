//! Conversion of a column-oriented table of news items into binary messages,
//! and the bookkeeping of a publisher that sends them one at a time.

pub mod publisher;
pub mod row;
pub mod table;
pub mod wire;

pub use crate::publisher::RedpandaProducer;
pub use crate::row::serialize_hackernews_row;
pub use crate::table::frame_into_protobuf;
