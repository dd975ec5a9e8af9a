//! The requests that the coordinator answers.

use crate::auth::{Action, Host, Secret, Settings, Status};
use crate::text::same;
use vstd::prelude::*;

verus! {

/// How a request is made.
#[derive(Debug, Clone, Copy, PartialEq, Eq, Structural)]
pub enum Method {
    Get,
    Post,
}

/// A request that the coordinator answers.
#[derive(Debug, Clone, Copy, PartialEq, Eq, Structural)]
pub enum Endpoint {
    /// An agent says which version its host runs and is told what to do.
    SystemCheck,
    /// Versions are published for hosts.
    SystemUpdate,
    /// An attempt to enrol is approved.
    VerifyAccept,
    /// An agent asks whether its host is enrolled.
    IsVerified,
    /// An agent asks to enrol its host.
    AddVerification,
    /// A key is made known.
    KeyAdd,
    /// A key is forgotten.
    KeyRemove,
    /// The hosts are listed.
    Status,
    /// The hosts are listed by their keys.
    HostsByKey,
    /// A host is removed.
    HostRemove,
    /// A host is renamed.
    HostRename,
    /// A host is detached.
    Detach,
    /// A host asks whether it may detach itself.
    IsDetachAllowed,
    /// It is set whether hosts may detach themselves.
    SetDetachPermission,
    /// It is asked whether hosts may detach themselves.
    IsDetachGlobalAllowed,
    /// A secret is stored.
    SecretAdd,
    /// A secret is renamed.
    SecretRename,
    /// A secret is forgotten.
    SecretRemove,
    /// A host is let read a secret, or no longer.
    SecretAcl,
    /// All access lists are read.
    SecretAclAll,
    /// The secrets are listed.
    SecretList,
    /// The recipient of the coordinator is asked for.
    ServerKey,
    /// A host asks for a secret.
    Secret,
}

/// What one may have to be allowed to do to make a request, where that is one
/// action.
pub open spec fn action_of(endpoint: Endpoint) -> Option<Action> {
    match endpoint {
        Endpoint::SystemUpdate => Some(Action::Host(Host::Update)),
        Endpoint::VerifyAccept => Some(Action::Host(Host::Accept)),
        Endpoint::Status => Some(Action::Status(Status::ListHosts)),
        Endpoint::HostsByKey => Some(Action::Status(Status::ListHostnameByKey)),
        Endpoint::HostRemove => Some(Action::Host(Host::Remove)),
        Endpoint::HostRename => Some(Action::Host(Host::Rename)),
        Endpoint::Detach => Some(Action::Host(Host::Attach)),
        Endpoint::SetDetachPermission => Some(Action::Host(Host::DetachPermission)),
        Endpoint::IsDetachGlobalAllowed => Some(Action::Settings(Settings::DetachGlobal)),
        Endpoint::SecretAdd => Some(Action::Secret(Secret::CreateOrUpdate)),
        Endpoint::SecretRename => Some(Action::Secret(Secret::Rename)),
        Endpoint::SecretRemove => Some(Action::Secret(Secret::Remove)),
        Endpoint::SecretAcl | Endpoint::SecretAclAll => Some(Action::Secret(Secret::ACL)),
        Endpoint::SecretList => Some(Action::Secret(Secret::ListSecrets)),
        // These are for agents, which speak for their own host only, or are
        // open to whoever signs.
        Endpoint::SystemCheck | Endpoint::IsVerified | Endpoint::AddVerification
        | Endpoint::IsDetachAllowed | Endpoint::ServerKey | Endpoint::Secret | Endpoint::KeyAdd
        | Endpoint::KeyRemove => None,
    }
}

/// How and where each request is made.
pub open spec fn place_of(endpoint: Endpoint) -> (Method, Seq<char>) {
    match endpoint {
        Endpoint::SystemCheck => (Method::Post, "/system/check"@),
        Endpoint::SystemUpdate => (Method::Post, "/system/update"@),
        Endpoint::VerifyAccept => (Method::Post, "/system/verify/accept"@),
        Endpoint::IsVerified => (Method::Get, "/system/verify"@),
        Endpoint::AddVerification => (Method::Post, "/system/verify"@),
        Endpoint::KeyAdd => (Method::Post, "/key/add"@),
        Endpoint::KeyRemove => (Method::Post, "/key/remove"@),
        Endpoint::Status => (Method::Get, "/status"@),
        Endpoint::HostsByKey => (Method::Get, "/status/host_by_key"@),
        Endpoint::HostRemove => (Method::Post, "/host/remove"@),
        Endpoint::HostRename => (Method::Post, "/host/rename"@),
        Endpoint::Detach => (Method::Post, "/system/detach"@),
        Endpoint::IsDetachAllowed => (Method::Get, "/system/detach/permission"@),
        Endpoint::SetDetachPermission => (Method::Post, "/detach/permission"@),
        Endpoint::IsDetachGlobalAllowed => (Method::Get, "/detach/permission"@),
        Endpoint::SecretAdd => (Method::Post, "/secret/add"@),
        Endpoint::SecretRename => (Method::Post, "/secret/rename"@),
        Endpoint::SecretRemove => (Method::Post, "/secret/remove"@),
        Endpoint::SecretAcl => (Method::Post, "/secret/acl"@),
        Endpoint::SecretAclAll => (Method::Get, "/secret/acl/all"@),
        Endpoint::SecretList => (Method::Get, "/secret/list"@),
        Endpoint::ServerKey => (Method::Get, "/secret/server_key"@),
        Endpoint::Secret => (Method::Post, "/secret"@),
    }
}

impl Endpoint {
    /// What one may have to be allowed to do to make this request.
    pub fn action(&self) -> (action: Option<Action>)
        ensures
            action == action_of(*self),
    {
        match self {
            Endpoint::SystemUpdate => Some(Action::Host(Host::Update)),
            Endpoint::VerifyAccept => Some(Action::Host(Host::Accept)),
            Endpoint::Status => Some(Action::Status(Status::ListHosts)),
            Endpoint::HostsByKey => Some(Action::Status(Status::ListHostnameByKey)),
            Endpoint::HostRemove => Some(Action::Host(Host::Remove)),
            Endpoint::HostRename => Some(Action::Host(Host::Rename)),
            Endpoint::Detach => Some(Action::Host(Host::Attach)),
            Endpoint::SetDetachPermission => Some(Action::Host(Host::DetachPermission)),
            Endpoint::IsDetachGlobalAllowed => Some(Action::Settings(Settings::DetachGlobal)),
            Endpoint::SecretAdd => Some(Action::Secret(Secret::CreateOrUpdate)),
            Endpoint::SecretRename => Some(Action::Secret(Secret::Rename)),
            Endpoint::SecretRemove => Some(Action::Secret(Secret::Remove)),
            Endpoint::SecretAcl => Some(Action::Secret(Secret::ACL)),
            Endpoint::SecretAclAll => Some(Action::Secret(Secret::ACL)),
            Endpoint::SecretList => Some(Action::Secret(Secret::ListSecrets)),
            _ => None,
        }
    }

    /// How this request is made.
    pub fn method(&self) -> (method: Method)
        ensures
            method == place_of(*self).0,
    {
        match self {
            Endpoint::IsVerified | Endpoint::Status | Endpoint::HostsByKey
            | Endpoint::IsDetachAllowed | Endpoint::IsDetachGlobalAllowed | Endpoint::SecretAclAll
            | Endpoint::SecretList | Endpoint::ServerKey => Method::Get,
            _ => Method::Post,
        }
    }

    /// Where this request is made.
    pub fn path(&self) -> (path: &'static str)
        ensures
            path@ == place_of(*self).1,
    {
        match self {
            Endpoint::SystemCheck => "/system/check",
            Endpoint::SystemUpdate => "/system/update",
            Endpoint::VerifyAccept => "/system/verify/accept",
            Endpoint::IsVerified => "/system/verify",
            Endpoint::AddVerification => "/system/verify",
            Endpoint::KeyAdd => "/key/add",
            Endpoint::KeyRemove => "/key/remove",
            Endpoint::Status => "/status",
            Endpoint::HostsByKey => "/status/host_by_key",
            Endpoint::HostRemove => "/host/remove",
            Endpoint::HostRename => "/host/rename",
            Endpoint::Detach => "/system/detach",
            Endpoint::IsDetachAllowed => "/system/detach/permission",
            Endpoint::SetDetachPermission => "/detach/permission",
            Endpoint::IsDetachGlobalAllowed => "/detach/permission",
            Endpoint::SecretAdd => "/secret/add",
            Endpoint::SecretRename => "/secret/rename",
            Endpoint::SecretRemove => "/secret/remove",
            Endpoint::SecretAcl => "/secret/acl",
            Endpoint::SecretAclAll => "/secret/acl/all",
            Endpoint::SecretList => "/secret/list",
            Endpoint::ServerKey => "/secret/server_key",
            Endpoint::Secret => "/secret",
        }
    }
}

/// Every request that the coordinator answers.
pub fn routes() -> (all: Vec<Endpoint>)
    ensures
        forall|endpoint: Endpoint| all@.contains(endpoint),
        all@.no_duplicates(),
{
    let mut all: Vec<Endpoint> = Vec::new();
    all.push(Endpoint::SystemCheck);
    all.push(Endpoint::SystemUpdate);
    all.push(Endpoint::VerifyAccept);
    all.push(Endpoint::IsVerified);
    all.push(Endpoint::AddVerification);
    all.push(Endpoint::KeyAdd);
    all.push(Endpoint::KeyRemove);
    all.push(Endpoint::Status);
    all.push(Endpoint::HostsByKey);
    all.push(Endpoint::HostRemove);
    all.push(Endpoint::HostRename);
    all.push(Endpoint::Detach);
    all.push(Endpoint::IsDetachAllowed);
    all.push(Endpoint::SetDetachPermission);
    all.push(Endpoint::IsDetachGlobalAllowed);
    all.push(Endpoint::SecretAdd);
    all.push(Endpoint::SecretRename);
    all.push(Endpoint::SecretRemove);
    all.push(Endpoint::SecretAcl);
    all.push(Endpoint::SecretAclAll);
    all.push(Endpoint::SecretList);
    all.push(Endpoint::ServerKey);
    all.push(Endpoint::Secret);
    proof {
        assert forall|endpoint: Endpoint| all@.contains(endpoint) by {
            let at: int = match endpoint {
                Endpoint::SystemCheck => 0,
                Endpoint::SystemUpdate => 1,
                Endpoint::VerifyAccept => 2,
                Endpoint::IsVerified => 3,
                Endpoint::AddVerification => 4,
                Endpoint::KeyAdd => 5,
                Endpoint::KeyRemove => 6,
                Endpoint::Status => 7,
                Endpoint::HostsByKey => 8,
                Endpoint::HostRemove => 9,
                Endpoint::HostRename => 10,
                Endpoint::Detach => 11,
                Endpoint::IsDetachAllowed => 12,
                Endpoint::SetDetachPermission => 13,
                Endpoint::IsDetachGlobalAllowed => 14,
                Endpoint::SecretAdd => 15,
                Endpoint::SecretRename => 16,
                Endpoint::SecretRemove => 17,
                Endpoint::SecretAcl => 18,
                Endpoint::SecretAclAll => 19,
                Endpoint::SecretList => 20,
                Endpoint::ServerKey => 21,
                Endpoint::Secret => 22,
            };
            assert(all@[at] == endpoint);
        }
    }
    all
}

/// The request that is made in this way at this place, if there is one.
pub fn find(method: Method, path: &str) -> (found: Option<Endpoint>)
    ensures
        match found {
            Some(endpoint) => place_of(endpoint) == (method, path@),
            None => forall|endpoint: Endpoint| place_of(endpoint) != (method, path@),
        },
{
    let all = routes();
    let mut i: usize = 0;
    while i < all.len()
        invariant
            i <= all.len(),
            forall|k: int| 0 <= k < i ==> place_of(#[trigger] all[k]) != (method, path@),
            forall|endpoint: Endpoint| all@.contains(endpoint),
        decreases all.len() - i,
    {
        let endpoint = all[i];
        if endpoint.method() == method && same(endpoint.path(), path) {
            return Some(endpoint);
        }
        i += 1;
    }
    proof {
        assert forall|endpoint: Endpoint| place_of(endpoint) != (method, path@) by {
            assert(all@.contains(endpoint));
            let k = choose|k: int| 0 <= k < all.len() && all@[k] == endpoint;
            assert(place_of(all[k]) != (method, path@));
        }
    }
    None
}

} // verus!
