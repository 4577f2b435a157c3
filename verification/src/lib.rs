//! A WebSocket (RFC 6455) library: frame headers, data frames, messages,
//! codecs, senders and receivers, and the opening handshake, with their
//! behaviour stated as contracts and proved.

pub mod codec;
pub mod dataframe;
pub mod message;
pub mod receiver;
pub mod result;
pub mod sender;
pub mod server;
pub mod util;
pub mod ws;
