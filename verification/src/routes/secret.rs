//! Requests about secrets and what the coordinator does with them.
//!
//! Each handler takes the state, the key that the request's signature spoke
//! for, and the body of the request. It lets the caller pass or turns it
//! away, and then does to the state what the request asks.

use crate::auth::{Action, Secret, TagSet};
use crate::key::PublicKey;
use crate::keys::{is_recipient, plaintext, public_key};
use crate::secret_store::{lists_all, moved, readers, sets, with_grant, SecretStoreError};
use crate::state::{host_with, permitted, read_answers, AppState, StateError, StateView};
use crate::text::{texts, without};
use std::collections::HashSet;
use vstd::prelude::*;

verus! {

/// The status that says a request was carried out.
pub const OK: u16 = 200;

/// Whether `key` may perform `action` on the secrets. Secrets carry no tags,
/// so no policy reaches them: this is for administrators.
pub open spec fn may(state: StateView, key: PublicKey, action: Secret) -> bool {
    permitted(state, key, Action::Secret(action), Set::empty())
}

/// Lets `key` pass where it may perform `action` on the secrets.
fn pass(state: &AppState, key: &PublicKey, action: Secret) -> (verdict: Result<(), StateError>)
    ensures
        verdict == if may(state@, *key, action) {
            Ok::<(), StateError>(())
        } else {
            Err::<(), StateError>(StateError::Forbidden)
        },
{
    let none: TagSet = HashSet::new();
    state.authorize(key, Action::Secret(action), &none)
}

/// Store a secret, encrypted to the coordinator's recipient.
#[derive(Debug, Clone, PartialEq, Eq)]
pub struct AddSecretRequest {
    pub name: String,
    pub secret: Vec<u8>,
}

/// File a secret under another name.
#[derive(Debug, Clone, PartialEq, Eq)]
pub struct RenameSecretRequest {
    pub current_name: String,
    pub new_name: String,
}

/// Forget a secret.
#[derive(Debug, Clone, PartialEq, Eq)]
pub struct RemoveSecretRequest {
    pub secret_name: String,
}

/// Change who may read a secret.
#[derive(Debug, Clone, PartialEq, Eq)]
pub enum AclSecretRequest {
    AllowHost { secret: String, host: String },
    RemoveHost { secret: String, host: String },
}

/// Ask who may read a secret.
#[derive(Debug, Clone, PartialEq, Eq)]
pub struct AclBySecretRequest {
    pub secret: String,
}

/// Ask for a secret, encrypted to `recipient`.
#[derive(Debug, Clone, PartialEq, Eq)]
pub struct GetSecretRequest {
    pub recipient: String,
    pub secret: String,
}

/// Stores a secret.
pub fn add_secret(state: &mut AppState, key: &PublicKey, request: AddSecretRequest) -> (result:
    Result<u16, StateError>)
    ensures
        if !may(old(state)@, *key, Secret::CreateOrUpdate) {
            result matches Err(StateError::Forbidden) && final(state)@ == old(state)@
        } else {
            match plaintext(old(state)@.identity, request.secret@) {
                Some(_) => result matches Ok(200) && final(state)@ == (StateView {
                    secrets: old(state)@.secrets.insert(request.name@, request.secret@),
                    ..old(state)@
                }),
                None => result matches Err(StateError::Secret(SecretStoreError::DecryptionError(_)))
                    && final(state)@ == old(state)@,
            }
        },
{
    match pass(state, key, Secret::CreateOrUpdate) {
        Ok(()) => {},
        Err(error) => {
            return Err(error);
        },
    }
    match state.add_secret(request.name.as_str(), request.secret) {
        Ok(()) => Ok(OK),
        Err(error) => Err(error),
    }
}

/// Files a secret under another name.
pub fn rename_secret(state: &mut AppState, key: &PublicKey, request: RenameSecretRequest) -> (result:
    Result<u16, StateError>)
    ensures
        if !may(old(state)@, *key, Secret::Rename) {
            result matches Err(StateError::Forbidden) && final(state)@ == old(state)@
        } else {
            result matches Ok(200) && final(state)@ == (StateView {
                secrets: moved(old(state)@.secrets, request.current_name@, request.new_name@),
                acl: moved(old(state)@.acl, request.current_name@, request.new_name@),
                ..old(state)@
            })
        },
{
    match pass(state, key, Secret::Rename) {
        Ok(()) => {},
        Err(error) => {
            return Err(error);
        },
    }
    state.rename_secret(request.current_name.as_str(), request.new_name.as_str());
    Ok(OK)
}

/// Forgets a secret.
pub fn remove_secret(state: &mut AppState, key: &PublicKey, request: RemoveSecretRequest) -> (result:
    Result<u16, StateError>)
    ensures
        if !may(old(state)@, *key, Secret::Remove) {
            result matches Err(StateError::Forbidden) && final(state)@ == old(state)@
        } else {
            result matches Ok(200) && final(state)@ == (StateView {
                secrets: old(state)@.secrets.remove(request.secret_name@),
                acl: old(state)@.acl.remove(request.secret_name@),
                ..old(state)@
            })
        },
{
    match pass(state, key, Secret::Remove) {
        Ok(()) => {},
        Err(error) => {
            return Err(error);
        },
    }
    state.remove_secret(request.secret_name.as_str());
    Ok(OK)
}

/// The access lists once `request` has been carried out.
pub open spec fn acl_after(acl: Map<Seq<char>, Seq<Seq<char>>>, request: AclSecretRequest) -> Map<
    Seq<char>,
    Seq<Seq<char>>,
> {
    match request {
        AclSecretRequest::AllowHost { secret, host } => with_grant(acl, secret@, host@),
        AclSecretRequest::RemoveHost { secret, host } => acl.insert(
            secret@,
            without(readers(acl, secret@), host@),
        ),
    }
}

/// Lets a host read a secret, or no longer.
pub fn set_acl(state: &mut AppState, key: &PublicKey, request: AclSecretRequest) -> (result: Result<
    u16,
    StateError,
>)
    ensures
        if !may(old(state)@, *key, Secret::ACL) {
            result matches Err(StateError::Forbidden) && final(state)@ == old(state)@
        } else {
            result matches Ok(200) && final(state)@ == (StateView {
                acl: acl_after(old(state)@.acl, request),
                ..old(state)@
            })
        },
{
    match pass(state, key, Secret::ACL) {
        Ok(()) => {},
        Err(error) => {
            return Err(error);
        },
    }
    match request {
        AclSecretRequest::AllowHost { secret, host } => {
            state.secret_add_access_for(secret.as_str(), host.as_str());
        },
        AclSecretRequest::RemoveHost { secret, host } => {
            state.secret_remove_access_for(secret.as_str(), host.as_str());
        },
    }
    Ok(OK)
}

/// Every access list with the name of its secret, each secret once and on
/// each list each host once.
pub fn get_all_acl(state: &AppState, key: &PublicKey) -> (result: Result<
    Vec<(String, Vec<String>)>,
    StateError,
>)
    ensures
        if !may(state@, *key, Secret::ACL) {
            result matches Err(StateError::Forbidden)
        } else {
            result matches Ok(lists) && lists_all(state@.acl, lists@) && sets(state@.acl)
        },
{
    match pass(state, key, Secret::ACL) {
        Ok(()) => Ok(state.get_all_acl()),
        Err(error) => Err(error),
    }
}

/// The hosts that may read a secret, each once.
pub fn get_acl_by_secret(state: &AppState, key: &PublicKey, request: AclBySecretRequest) -> (result:
    Result<Vec<String>, StateError>)
    ensures
        if !may(state@, *key, Secret::ACL) {
            result matches Err(StateError::Forbidden)
        } else {
            result matches Ok(hosts) && texts(hosts@) == readers(state@.acl, request.secret@)
                && texts(hosts@).no_duplicates()
        },
{
    match pass(state, key, Secret::ACL) {
        Ok(()) => Ok(state.get_acl_by_secret(request.secret.as_str())),
        Err(error) => Err(error),
    }
}

/// The names of the secrets, each once.
pub fn list(state: &AppState, key: &PublicKey) -> (result: Result<Vec<String>, StateError>)
    ensures
        if !may(state@, *key, Secret::ListSecrets) {
            result matches Err(StateError::Forbidden)
        } else {
            result matches Ok(names) && texts(names@).to_set() == state@.secrets.dom() && texts(
                names@,
            ).no_duplicates()
        },
{
    match pass(state, key, Secret::ListSecrets) {
        Ok(()) => Ok(state.list_secrets()),
        Err(error) => Err(error),
    }
}

/// The recipient to which secrets for the coordinator are encrypted. Whoever
/// signs a request may know it.
pub fn get_server_recipient(state: &AppState, key: &PublicKey) -> (result: Result<String, StateError>)
    ensures
        result matches Ok(recipient) && recipient@ == public_key(state@.identity),
{
    Ok(state.get_server_recipient())
}

/// Hands a secret to the host that asks for it.
pub fn get_secret(state: &AppState, key: &PublicKey, request: GetSecretRequest) -> (result: Result<
    Option<Vec<u8>>,
    StateError,
>)
    ensures
        match host_with(state@.hosts, *key) {
            None => result matches Err(StateError::Unauthorized),
            Some(host) => if !is_recipient(request.recipient@) {
                result matches Err(StateError::Malformed)
            } else {
                read_answers(state@, request.secret@, host.name, request.recipient@, result)
            },
        },
{
    state.get_secret(request.secret.as_str(), request.recipient.as_str(), key)
}

} // verus!
