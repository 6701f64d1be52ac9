//! Rewrites domain names inside wire-format DNS messages.

pub mod bytes;
pub mod compress;
pub mod constants;
pub mod errors;
pub mod laws;
pub mod name;
pub mod packet;
pub mod renamer;
