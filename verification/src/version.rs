//! Versions of a host's configuration and what the coordinator tells an agent
//! to do about them.

use vstd::prelude::*;

verus! {

/// The path of an immutable artifact in the local store. It is a value: two
/// versions are the same exactly when their paths are.
pub type StorePath = String;

/// A version together with what is needed to fetch it.
#[derive(Debug, Clone, PartialEq, Eq)]
pub struct RemoteStorePath {
    /// The store path of the version.
    pub store_path: StorePath,
    /// The cache from which it can be fetched.
    pub substitutor: String,
    /// The public key with which that cache signs.
    pub public_key: String,
}

/// What a remote store path is, as plain values.
pub struct RemoteView {
    pub store_path: Seq<char>,
    pub substitutor: Seq<char>,
    pub public_key: Seq<char>,
}

impl View for RemoteStorePath {
    type V = RemoteView;

    open spec fn view(&self) -> RemoteView {
        RemoteView {
            store_path: self.store_path@,
            substitutor: self.substitutor@,
            public_key: self.public_key@,
        }
    }
}

impl RemoteStorePath {
    /// A copy.
    pub fn copy(&self) -> (copy: RemoteStorePath)
        ensures
            copy@ == self@,
    {
        RemoteStorePath {
            store_path: self.store_path.clone(),
            substitutor: self.substitutor.clone(),
            public_key: self.public_key.clone(),
        }
    }
}

/// What an agent is told when it reports the version it runs.
#[derive(Debug, Clone, PartialEq, Eq)]
pub enum AgentAction {
    /// The host runs what it should.
    Nothing,
    /// The host is detached: it keeps what it runs.
    Detach,
    /// The host is to switch to this version.
    SwitchTo(RemoteStorePath),
}

/// What an agent action is, as plain values.
pub enum ActionView {
    Nothing,
    Detach,
    SwitchTo(RemoteView),
}

impl View for AgentAction {
    type V = ActionView;

    open spec fn view(&self) -> ActionView {
        match self {
            AgentAction::Nothing => ActionView::Nothing,
            AgentAction::Detach => ActionView::Detach,
            AgentAction::SwitchTo(remote) => ActionView::SwitchTo(remote@),
        }
    }
}

} // verus!
