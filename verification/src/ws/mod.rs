//! The lower layer: frame headers, masking and the generic frame, message,
//! sender and receiver traits.

pub mod client;
pub mod dataframe;
pub mod handshake;
pub mod message;
pub mod receiver;
pub mod sender;
pub mod util;
