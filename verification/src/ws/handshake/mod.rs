//! The opening handshake: requests, responses and HTTP versions.

pub mod check;
pub mod request;
pub mod response;
pub mod roundtrip;
pub mod version;
