//! The bodies of the coordinator's requests and what it does with them.

pub mod host;
pub mod secret;
pub mod system;
