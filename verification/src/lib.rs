//! A minimal secret-escrow library.
//!
//! A caller deposits a secret payload and receives an opaque handle; any
//! later caller may redeem that handle to read the secret, but only within
//! a bounded time window and only a bounded number of times. Once the
//! window elapses or the unlock budget is exhausted, the entry is evicted
//! and the secret is permanently unobtainable.

pub mod hex;
pub mod laws;
pub mod models;
pub mod policy;
pub mod vault;

pub use hex::HexSlice;
pub use models::Safe;
pub use models::SafeRepresentation;
pub use models::SafeView;
pub use vault::Vault;
