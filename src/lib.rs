//! Data protection core of a personal tab-sync backend: geo-IP access
//! gating, token sessions, and snapshot retention of stored documents.

pub mod text;
pub mod ip;
pub mod config;
pub mod gate;
pub mod auth;
pub mod retention;
pub mod snapshot;
pub mod logging;
pub mod models;
