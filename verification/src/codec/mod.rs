//! Codecs that turn a stream of bytes into data frames and messages, and back.

pub mod ws;
