//! Decision core of the account parser service.

pub mod api;
pub mod audit;
pub mod auth;
pub mod cache_pruner;
pub mod calibrate;
pub mod catalog_seed;
pub mod clock;
pub mod crypto;
pub mod db;
pub mod errors;
pub mod jobs;
pub mod load_monitor;
pub mod media_fetch_worker;
pub mod media_hydrator;
pub mod media_store;
pub mod models;
pub mod order;
pub mod seed;
pub mod server;
pub mod tally;
pub mod text;
pub mod timed;
