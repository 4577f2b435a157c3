//! Utilities: SHA-1 and case-insensitive string comparison.

pub mod base64;
pub mod header;
pub mod header_roundtrip;
pub mod readuntilstr;
pub mod sha1;
pub mod strcmp;
pub mod text;

pub use self::header::HeaderCollection;
pub use self::readuntilstr::ReadUntilStr;
pub use self::strcmp::str_eq_ignore_case;
