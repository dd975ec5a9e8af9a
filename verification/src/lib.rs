//! Verified core of a fleet configuration-deployment control plane.
//!
//! A coordinator owns the authoritative state of a fleet: which hosts are
//! enrolled, who may do what, which encrypted secrets exist and which host may
//! read them. An agent on every host reconciles the node with what the
//! coordinator asks for. This crate holds the rules both sides follow; sockets,
//! files and child processes belong to the programs built around it.

pub mod activate;
pub mod agent;
pub mod auth;
pub mod cli;
pub mod download;
pub mod endpoint;
pub mod generation;
pub mod host;
pub mod key;
pub mod keyed;
pub mod keys;
pub mod names;
pub mod number;
pub mod path;
pub mod persist;
pub mod routes;
pub mod secret;
pub mod secret_store;
pub mod settings;
pub mod signature;
pub mod state;
pub mod switch;
pub mod text;
pub mod update;
pub mod version;
