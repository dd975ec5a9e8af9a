//! Hosts and the attempts by which they enrol.

use crate::auth::{copy_tags, Tag, TagSet};
use crate::key::PublicKey;
use crate::version::{RemoteStorePath, RemoteView, StorePath};
use vstd::prelude::*;

verus! {

/// A host of the fleet.
#[derive(Debug)]
pub struct Host {
    /// The name of the host. No two hosts have the same.
    pub name: String,
    /// The key of the host's agent. No two hosts have the same.
    pub key: PublicKey,
    /// The tags of the host, by which policies reach it.
    pub tags: TagSet,
    /// The version that the host last said it runs.
    pub current_version: Option<StorePath>,
    /// The version that the host is to run, once one has been published.
    pub desired_version: Option<RemoteStorePath>,
    /// Whether the host may detach itself.
    pub detach_allowed: bool,
    /// Whether the host is detached: it keeps what it runs.
    pub detached: bool,
}

/// What a host is, as plain values.
pub struct HostView {
    pub name: Seq<char>,
    pub key: PublicKey,
    pub tags: Set<Tag>,
    pub current_version: Option<Seq<char>>,
    pub desired_version: Option<RemoteView>,
    pub detach_allowed: bool,
    pub detached: bool,
}

impl View for Host {
    type V = HostView;

    open spec fn view(&self) -> HostView {
        HostView {
            name: self.name@,
            key: self.key,
            tags: self.tags@,
            current_version: match self.current_version {
                Some(path) => Some(path@),
                None => None,
            },
            desired_version: match self.desired_version {
                Some(remote) => Some(remote@),
                None => None,
            },
            detach_allowed: self.detach_allowed,
            detached: self.detached,
        }
    }
}

impl Host {
    /// A copy.
    pub fn copy(&self) -> (copy: Host)
        ensures
            copy@ == self@,
    {
        Host {
            name: self.name.clone(),
            key: self.key,
            tags: copy_tags(&self.tags),
            current_version: match &self.current_version {
                Some(path) => Some(path.clone()),
                None => None,
            },
            desired_version: match &self.desired_version {
                Some(remote) => Some(remote.copy()),
                None => None,
            },
            detach_allowed: self.detach_allowed,
            detached: self.detached,
        }
    }
}

/// What an agent hands in along with its wish to enrol.
#[derive(Debug, Clone, PartialEq, Eq)]
pub struct VerificationArtifacts {
    /// The facts that the host collected about its hardware.
    pub nixos_facter: Option<String>,
}

/// What the artifacts are, as plain values.
pub struct ArtifactsView {
    pub nixos_facter: Option<Seq<char>>,
}

impl View for VerificationArtifacts {
    type V = ArtifactsView;

    open spec fn view(&self) -> ArtifactsView {
        ArtifactsView {
            nixos_facter: match self.nixos_facter {
                Some(facts) => Some(facts@),
                None => None,
            },
        }
    }
}

/// The wish of an agent to enrol its host.
#[derive(Debug, Clone, PartialEq, Eq)]
pub struct VerificationAttempt {
    /// The key of the agent.
    pub key: PublicKey,
    /// The version that the host runs.
    pub store_path: StorePath,
    /// What the agent hands in with it.
    pub artifacts: VerificationArtifacts,
}

/// An attempt that waits for an administrator to approve it.
#[derive(Debug)]
pub struct PendingAttempt {
    /// The code by which the administrator names the attempt: four digits.
    pub code: u32,
    /// The key of the agent.
    pub key: PublicKey,
    /// The version that the host runs.
    pub store_path: StorePath,
    /// What the agent handed in with it.
    pub artifacts: VerificationArtifacts,
    /// When the attempt was made, in seconds.
    pub created_at: u64,
}

/// What a pending attempt is, as plain values.
pub struct AttemptView {
    pub code: u32,
    pub key: PublicKey,
    pub store_path: Seq<char>,
    pub artifacts: ArtifactsView,
    pub created_at: u64,
}

impl View for PendingAttempt {
    type V = AttemptView;

    open spec fn view(&self) -> AttemptView {
        AttemptView {
            code: self.code,
            key: self.key,
            store_path: self.store_path@,
            artifacts: self.artifacts@,
            created_at: self.created_at,
        }
    }
}

/// For how many seconds an attempt can be approved.
pub const ATTEMPT_LIFETIME: u64 = 3600;

/// The smallest code.
pub const FIRST_CODE: u32 = 1000;

/// How many codes there are: those of four digits.
pub const CODES: u32 = 9000;

/// Whether an attempt made at `created_at` can still be approved at `now`.
pub open spec fn alive(created_at: u64, now: u64) -> bool {
    now - created_at < ATTEMPT_LIFETIME
}

impl PendingAttempt {
    /// Whether the attempt can still be approved at `now`. An attempt lives
    /// for `ATTEMPT_LIFETIME` seconds; one that claims to have been made
    /// after `now` counts as just made.
    pub fn is_alive(&self, now: u64) -> (yes: bool)
        ensures
            yes == alive(self.created_at, now),
    {
        now < self.created_at || now - self.created_at < ATTEMPT_LIFETIME
    }
}

} // verus!
