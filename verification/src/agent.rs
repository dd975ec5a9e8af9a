//! What an agent does between two waits: whether it enrols, waits for
//! approval or asks what to do, and what it does about the answer.

use crate::generation::{decimal, decimal_of};
use crate::update::{Command, Phase, Update};
use crate::version::{AgentAction, RemoteStorePath};
use vstd::prelude::*;
use vstd::string::StringExecFns;

verus! {

/// Where an agent stands with the coordinator.
#[derive(Debug, Clone, Copy, PartialEq, Eq, Structural)]
pub enum Enrollment {
    /// The agent has not asked to be enrolled, as far as it remembers.
    Unverified,
    /// The agent has asked and was given this code to show to an
    /// administrator.
    PendingCode(u32),
    /// The coordinator knows the host.
    Verified,
}

/// What an agent does once it knows whether the coordinator knows its host.
#[derive(Debug, Clone, Copy, PartialEq, Eq, Structural)]
pub enum Duty {
    /// Ask to be enrolled, handing in facts about the host where `facts` is
    /// set, and then wait.
    Enroll { facts: bool },
    /// Go on waiting for an administrator to approve the attempt with this
    /// code.
    Wait { code: u32 },
    /// Ask the coordinator what to do.
    Poll,
}

impl Enrollment {
    /// What the agent does when the coordinator has said whether it knows the
    /// host, and where the agent stands then. A code that was given once is
    /// shown again rather than a new one asked for; it is forgotten once the
    /// host is known.
    pub fn checked(self, verified: bool, facts: bool) -> (next: (Enrollment, Duty))
        ensures
            next == if verified {
                (Enrollment::Verified, Duty::Poll)
            } else {
                match self {
                    Enrollment::PendingCode(code) => (self, Duty::Wait { code }),
                    _ => (Enrollment::Unverified, Duty::Enroll { facts }),
                }
            },
    {
        if verified {
            (Enrollment::Verified, Duty::Poll)
        } else {
            match self {
                Enrollment::PendingCode(code) => (self, Duty::Wait { code }),
                _ => (Enrollment::Unverified, Duty::Enroll { facts }),
            }
        }
    }

    /// Where the agent stands once it has asked to be enrolled and was given
    /// `code`.
    pub fn asked(self, code: u32) -> (next: Enrollment)
        ensures
            next == Enrollment::PendingCode(code),
    {
        Enrollment::PendingCode(code)
    }
}

/// An agent between two waits: where it stands with the coordinator, and how
/// it was told to run.
#[derive(Debug, Clone, Copy, PartialEq, Eq, Structural)]
pub struct Agent {
    /// Where the agent stands with the coordinator.
    pub enrollment: Enrollment,
    /// How many seconds the agent waits between two rounds, and before it
    /// tries again after a failure.
    pub sleep: u64,
    /// Whether the agent hands in facts about the host when it enrols.
    pub facter: bool,
}

/// What an agent does when a round has failed.
#[derive(Debug, Clone, Copy, PartialEq, Eq, Structural)]
pub struct Retry {
    /// How many seconds to wait before the next round.
    pub after: u64,
}

/// An agent that has not asked to be enrolled yet, waits `sleep` seconds
/// between two rounds and hands in facts about the host where `facter` is
/// set.
pub fn agent(sleep: u64, facter: bool) -> (agent: Agent)
    ensures
        agent == (Agent { enrollment: Enrollment::Unverified, sleep, facter }),
{
    Agent { enrollment: Enrollment::Unverified, sleep, facter }
}

impl Agent {
    /// What the agent does in a round, once the coordinator has said whether
    /// it knows the host.
    pub fn agent_loop(&mut self, verified: bool) -> (duty: Duty)
        ensures
            (final(self).enrollment, duty) == if verified {
                (Enrollment::Verified, Duty::Poll)
            } else {
                match old(self).enrollment {
                    Enrollment::PendingCode(code) => (old(self).enrollment, Duty::Wait { code }),
                    _ => (Enrollment::Unverified, Duty::Enroll { facts: old(self).facter }),
                }
            },
            final(self).sleep == old(self).sleep,
            final(self).facter == old(self).facter,
    {
        let (enrollment, duty) = self.enrollment.checked(verified, self.facter);
        self.enrollment = enrollment;
        duty
    }

    /// Notes the code that the coordinator gave when the agent asked to be
    /// enrolled.
    pub fn enrolled_with(&mut self, code: u32)
        ensures
            *final(self) == (Agent { enrollment: Enrollment::PendingCode(code), ..*old(self) }),
    {
        self.enrollment = self.enrollment.asked(code);
    }

    /// What the agent does when a round has failed: it waits as long as
    /// between two rounds and begins anew, however often it has failed.
    pub fn retry(&self) -> (retry: Retry)
        ensures
            retry.after == self.sleep,
    {
        Retry { after: self.sleep }
    }
}

/// What is said while the host waits to be approved with `code`.
pub open spec fn waiting_message_of(code: u32) -> Seq<char> {
    "Verification requested but not yet approved. Code: "@ + decimal_of(code as nat)
}

/// What is said while the host waits to be approved with `code`.
pub fn waiting_message(code: u32) -> (message: String)
    ensures
        message@ == waiting_message_of(code),
{
    let mut message = String::from_str("Verification requested but not yet approved. Code: ");
    message.append(decimal(code as u64).as_str());
    message
}

/// What is said when the host has just asked to be enrolled.
pub const WAITING: &'static str = "Waiting for verification";

/// What the agent does about the coordinator's answer: it begins an update
/// where it is told to switch, and has nothing to do otherwise.
pub fn agent_action(action: AgentAction) -> (begun: Option<(Update, Command)>)
    ensures
        match action {
            AgentAction::SwitchTo(version) => begun matches Some((update, command)) && update == (
            Update { version, previous: None, phase: Phase::Download }) && (
            command matches Command::Download { version: wanted } && wanted@ == version@),
            _ => begun is None,
        },
{
    match action {
        AgentAction::Nothing => None,
        AgentAction::Detach => None,
        AgentAction::SwitchTo(version) => Some(Update::start(version)),
    }
}

} // verus!
