//! A WebSocket (RFC 6455) echo server library: the frame codec and its laws,
//! the handshake token, the validation of the upgrade request, and the
//! decisions of the connection workers and of the coordinator that owns the
//! registry of live connections.

pub mod codec_laws;
pub mod coordinator;
pub mod handshake;
pub mod packet;
pub mod upgrade;
pub mod worker;
