//! Room presence for connected clients: a registry of who occupies which
//! room, the notifications that joins, leaves and moves produce, and the
//! decisions of one connection's reader loop.

pub mod error;
pub mod event;
pub mod models;
pub mod outbound;
pub mod registry;
pub mod sealed;
pub mod session;
