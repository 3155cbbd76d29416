//! Ticket lifecycle and access-control manager.
//!
//! A ticket is a persisted support request backed by a dedicated,
//! permission-scoped communication channel.  This crate keeps the ticket
//! record, the derived channel request, and the channel's participant
//! visibility mutually consistent across the open -> closed transition:
//! the store assigns identifiers monotonically, closing is terminal and
//! idempotent, and only the author, the resolved participants and the
//! moderator role may see an open ticket's channel.
//!
//! The crate holds the verified core only: the store model, the
//! participant resolver, the channel-request builder and the lifecycle
//! manager.  Network transports (the chat platform, the database wire
//! protocol) live outside it and consume the requests this crate builds.

pub mod text;
pub mod errors;
pub mod laws;
pub mod manager;
pub mod provision;
pub mod resolver;
pub mod store;
pub mod ticket;
