//! Core of a real-time control-and-chat relay.
//!
//! Multiple clients connect to one authoritative server over a persistent
//! bidirectional channel.  Clients exchange free-text chat messages and issue
//! control events; the server holds a single canonical operational state
//! machine, applies incoming control events to it, and broadcasts both chat
//! and state-change notifications to every registered connection.
//!
//! This crate is the transport-independent core: the typed message protocol,
//! the connection registry with its per-connection bounded send queues, the
//! state machine and its event-to-transition mapping, the broadcast
//! dispatcher, and the change-detection pass that turns a state mutation into
//! an outbound notice.  The low-level transport (sockets, framing, the accept
//! loop) lives outside; it registers connections, feeds received frames in,
//! and drains each connection's send queue.

pub mod chat_log;
pub mod dispatch;
pub mod machine;
pub mod protocol;
pub mod registry;
pub mod server;
pub mod translate;
