//! Persistent store of TLS trust anchors and the trust-on-first-use workflow
//! that decides which certificate authorities the user grants trust to.

pub mod anchor;
pub mod text;
pub mod key;
pub mod error;
pub mod codec;
pub mod store;
pub mod cert;
pub mod trust;

pub use anchor::OwnedTrustAnchor;
