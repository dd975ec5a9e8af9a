//! Requests about hosts.

use crate::auth::{Action, Host};
use crate::key::PublicKey;
use crate::state::{access, renaming, AppState, StateError, StateView};
use crate::host::HostView;
use crate::routes::secret::OK;
use crate::secret_store::renamed_host;
use crate::text::without;
use vstd::prelude::*;

verus! {

/// Remove a host.
#[derive(Debug, Clone, PartialEq, Eq)]
pub struct HostRemoveRequest {
    pub hostname: String,
}

/// Give a host another name.
#[derive(Debug, Clone, PartialEq, Eq)]
pub struct HostRenameRequest {
    pub new_name: String,
    pub current_name: String,
}

/// Removes a host and takes it off every access list.
pub fn remove_host(state: &mut AppState, key: &PublicKey, request: HostRemoveRequest) -> (result:
    Result<u16, StateError>)
    ensures
        match access(old(state)@, *key, Action::Host(Host::Remove), request.hostname@) {
            Err(error) => result == Err::<u16, StateError>(error) && final(state)@ == old(state)@,
            Ok(_) => result matches Ok(200) && final(state)@ == (StateView {
                hosts: old(state)@.hosts.remove(request.hostname@),
                acl: old(state)@.acl.map_values(
                    |hosts: Seq<Seq<char>>| without(hosts, request.hostname@),
                ),
                ..old(state)@
            }),
        },
{
    match state.remove_host(key, request.hostname.as_str()) {
        Ok(()) => Ok(OK),
        Err(error) => Err(error),
    }
}

/// Gives a host another name, on the access lists too.
pub fn rename_host(state: &mut AppState, key: &PublicKey, request: HostRenameRequest) -> (result:
    Result<u16, StateError>)
    ensures
        match renaming(old(state)@, *key, request.current_name@, request.new_name@) {
            Err(error) => result == Err::<u16, StateError>(error) && final(state)@ == old(state)@,
            Ok(host) => result matches Ok(200) && final(state)@ == (StateView {
                hosts: old(state)@.hosts.remove(request.current_name@).insert(
                    request.new_name@,
                    HostView { name: request.new_name@, ..host },
                ),
                acl: old(state)@.acl.map_values(
                    |hosts: Seq<Seq<char>>| renamed_host(hosts, request.current_name@, request.new_name@),
                ),
                ..old(state)@
            }),
        },
{
    match state.rename_host(key, request.current_name.as_str(), request.new_name.as_str()) {
        Ok(()) => Ok(OK),
        Err(error) => Err(error),
    }
}

} // verus!
