//! What holds of path construction as a whole.

pub mod addresses;
pub mod constraints;
pub mod decided;
pub mod encoding;
pub mod errors;
pub mod hosts;
pub mod issuers;
pub mod labels;
pub mod names;
pub mod sans;
pub mod search;
pub mod steps;
pub mod trust;
pub mod work;
