//! Verified core of the Chronicle data API: identifiers, the session state
//! machine, event routing, subscriber queues, request validation and the
//! small encoders the service needs. Network, database and object-store I/O
//! live in the application crate that drives this library.

pub mod audio;
pub mod auth;
pub mod chunks;
pub mod config;
pub mod encoding;
pub mod error;
pub mod events;
pub mod ids;
pub mod metadata;
pub mod metrics;
pub mod requests;
pub mod sessions;
pub mod state;
pub mod storage;
pub mod text;
pub mod uniform;
pub mod ws;
