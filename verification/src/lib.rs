//! Incremental feed-polling engine: per-feed watermark tracking, the
//! new-item decision rule, a persistent watermark snapshot codec, and the
//! icon-resolution planning that backs each desktop notification.

pub mod config;
pub mod feed;
pub mod icon;
pub mod store;
pub mod notify;
pub mod snapshot;
pub mod textutil;
pub mod time;
