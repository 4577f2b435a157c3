//! The server side of the opening handshake, and a receiver for servers.

pub mod receiver;
pub mod request;
pub mod upgrade;
