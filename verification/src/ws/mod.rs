//! The WebSocket event feed: subscription filters, the per-subscriber
//! drop-oldest queue and the per-connection decision logic.

pub mod filter;
pub mod queue;
pub mod session;
