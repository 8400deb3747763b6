//! Member identity and group membership state for an MLS-style secure
//! group-messaging protocol.
//!
//! A member's long-term identity and signing key are bound together in a
//! [`credential::Credential`]; the ordered list of per-slot member
//! credentials is a [`roster::Roster`], compacted as members leave. The
//! wire encoding of each value follows the TLS presentation language:
//! length-prefixed opaque byte strings and a tagged union.

pub mod codec;
pub mod credential;
pub mod error;
pub mod roster;
pub mod sig;
