//! Approving a host.

use crate::cli::common::{ask, asks, Field, Kind, Next};
use crate::host::VerificationArtifacts;
use crate::routes::system::VerificationAcceptance;
use vstd::prelude::*;

verus! {

/// Approves the attempt of a host to enrol under a name. The name is asked
/// for first, then the code.
pub fn approve(code: Option<u32>, hostname: Option<String>) -> (next: Next<VerificationAcceptance>)
    ensures
        match (hostname, code) {
            (None, _) => asks(next, Field::Hostname, Kind::Text, "Hostname:"@),
            (Some(_), None) => asks(next, Field::Code, Kind::Number, "Approval code:"@),
            (Some(hostname), Some(code)) => next matches Next::Send(request) && request.code
                == code && request.hostname == hostname,
        },
{
    let hostname = match hostname {
        Some(hostname) => hostname,
        None => {
            return ask(Field::Hostname, Kind::Text, "Hostname:");
        },
    };
    match code {
        Some(code) => Next::Send(VerificationAcceptance { code, hostname }),
        None => ask(Field::Code, Kind::Number, "Approval code:"),
    }
}

/// What is done with what the host handed in: facts about the host are
/// written to a file, which is asked for where none is named, and without
/// facts there is nothing to do.
pub fn keep_facts(artifacts: VerificationArtifacts, output: Option<String>) -> (next: Next<
    (String, String),
>)
    ensures
        match artifacts.nixos_facter {
            None => next is Stop,
            Some(facts) => match output {
                None => asks(next, Field::Output, Kind::Text, "Facter Output:"@),
                Some(file) => next == Next::Send((file, facts)),
            },
        },
{
    let facts = match artifacts.nixos_facter {
        Some(facts) => facts,
        None => {
            return Next::Stop;
        },
    };
    match output {
        Some(file) => Next::Send((file, facts)),
        None => ask(Field::Output, Kind::Text, "Facter Output:"),
    }
}

/// Why a file cannot be the one to write the facts to.
#[derive(Debug, Clone, Copy, PartialEq, Eq, Structural)]
pub enum BadOutput {
    /// The path has no directory above it.
    NotADirectory,
    /// The directory is not there.
    NoDirectory,
    /// The file is there already.
    Exists,
}

/// Whether a file can be the one to write the facts to: its path has to have
/// a directory above it, that directory has to be there, and the file must
/// not be.
pub open spec fn output_verdict(has_parent: bool, parent_exists: bool, exists: bool) -> Result<
    (),
    BadOutput,
> {
    if !has_parent {
        Err(BadOutput::NotADirectory)
    } else if !parent_exists {
        Err(BadOutput::NoDirectory)
    } else if exists {
        Err(BadOutput::Exists)
    } else {
        Ok(())
    }
}

/// Whether a file can be the one to write the facts to, from what is known
/// of it: whether its path has a directory above it, whether that directory
/// is there, and whether the file is.
pub fn check_output(has_parent: bool, parent_exists: bool, exists: bool) -> (verdict: Result<
    (),
    BadOutput,
>)
    ensures
        verdict == output_verdict(has_parent, parent_exists, exists),
{
    if !has_parent {
        Err(BadOutput::NotADirectory)
    } else if !parent_exists {
        Err(BadOutput::NoDirectory)
    } else if exists {
        Err(BadOutput::Exists)
    } else {
        Ok(())
    }
}

} // verus!
