//! Time-based one-time passwords from a plain-text secrets store.
//!
//! The crate computes HOTP (RFC 4226) and TOTP (RFC 6238) codes, reads base32
//! secrets and `otpauth://` URIs, and edits the line-oriented store that a
//! user's secrets live in.  Everything here is pure: the time, the environment
//! and the store's text are arguments.
pub mod algorithm;
pub mod base32;
pub mod bytes;
pub mod clipboard;
pub mod command;
pub mod decimal;
pub mod error;
pub mod hotp;
pub mod mac;
pub mod otpauth;
pub mod percent;
pub mod secret;
pub mod store;
pub mod text;
pub mod totp;

pub use crate::algorithm::Algorithm;
pub use crate::error::{Error, Problem};
pub use crate::hotp::hotp;
pub use crate::otpauth::{parse_otpauth, resolve_secret};
pub use crate::secret::decode_base32;
pub use crate::store::{find_entry, parse_store, validate_service_name, Entry};
pub use crate::totp::{seconds_remaining, totp_at, TotpParams};
