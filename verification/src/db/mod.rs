//! Rules of the storage layer.

pub mod accounts;
pub mod catalog;
pub mod cooccurrence;
pub mod cooccurrence_backfill;
pub mod digest;
pub mod effects;
pub mod feed;
pub mod hydrate_cache;
pub mod media;
pub mod post_statement;
pub mod posts;
pub mod profiles;
pub mod schema;
pub mod sessions;
pub mod sql;
pub mod tag_batch;
pub mod tags;
