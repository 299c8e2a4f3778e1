//! Core client of a content-addressed, end-to-end-encrypted personal storage
//! network.
//!
//! The library derives a long-lived cryptographic identity from three user
//! secrets (keyword, PIN, password), persists that identity as an encrypted
//! session packet on a content-addressed store, retrieves it again with the
//! same secrets, and offers hybrid payload encryption for all later
//! authenticated data exchange.

pub mod account;
pub mod client;
pub mod codec;
pub mod crypto;
pub mod errors;
pub mod name;
pub mod nfs;
pub mod registry;
pub mod store;
pub mod transport;
