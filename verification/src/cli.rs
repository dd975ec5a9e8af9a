//! What the command line decides.
//!
//! A command is given some of what it needs on the command line and asks the
//! user for the rest. Each command here is a function from what is known so
//! far to what happens next: a question to the user, a request to the
//! coordinator, or the end of the command. Whoever runs the command asks the
//! question, fills in the answer and calls the function again.

pub mod approve;
pub mod common;
pub mod host;
pub mod hosts;
pub mod publish;
pub mod secret;
