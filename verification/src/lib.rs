//! X.509 certification path construction: given a leaf certificate, a pool of
//! untrusted intermediates, a set of trust anchors and a policy, find a chain
//! from the leaf to an anchor.

pub mod budget;
pub mod builder;
pub mod certificate;
pub mod der;
pub mod error;
pub mod hosts;
pub mod laws;
pub mod name_chain;
pub mod ops;
pub mod policy;
pub mod text;
pub mod trust_store;
pub mod types;

pub use budget::Budget;
pub use builder::{verify, Chain, ChainBuilder};
pub use error::{DuplicateExtensionsError, ErrorView, ValidationError};
