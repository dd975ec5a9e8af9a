//! Requests by which hosts enrol, report and are told what to run.

use crate::host::{HostView, VerificationArtifacts, VerificationAttempt, AttemptView};
use crate::key::PublicKey;
use crate::routes::secret::OK;
use crate::state::{
    admission, approval, decision, host_with, names_of, others, paths_of, publishable, published,
    AppState, StateError, StateView,
};
use crate::version::AgentAction;
use vstd::prelude::*;

verus! {

/// The status that says there is no such thing.
pub const NOT_FOUND: u16 = 404;

/// What an agent says when it asks what to do: the version its host runs.
#[derive(Debug, Clone, PartialEq, Eq)]
pub struct VersionRequest {
    pub store_path: String,
}

/// The approval of an attempt to enrol.
#[derive(Debug, Clone, PartialEq, Eq)]
pub struct VerificationAcceptance {
    /// The code of the attempt.
    pub code: u32,
    /// The name that the host is to have.
    pub hostname: String,
}

/// Versions to publish.
#[derive(Debug, Clone, PartialEq, Eq)]
pub struct HostUpdateRequest {
    /// For each host named, the store path it is to run.
    pub hosts: Vec<(String, String)>,
    /// The key with which the cache signs.
    pub public_key: String,
    /// The cache from which the hosts fetch.
    pub substitutor: String,
}

/// Tells a host what to do.
pub fn system_check(state: &mut AppState, key: &PublicKey, request: VersionRequest) -> (result:
    Result<AgentAction, StateError>)
    ensures
        match host_with(old(state)@.hosts, *key) {
            None => result matches Err(StateError::Unauthorized) && final(state)@ == old(state)@,
            Some(host) => result matches Ok(action) && action@ == decision(
                host,
                request.store_path@,
            ) && final(state)@ == (StateView {
                hosts: old(state)@.hosts.insert(
                    host.name,
                    HostView { current_version: Some(request.store_path@), ..host },
                ),
                ..old(state)@
            }),
        },
{
    state.system_check(key, request.store_path.as_str())
}

/// Publishes versions.
pub fn update_hosts(state: &mut AppState, key: &PublicKey, request: HostUpdateRequest) -> (result:
    Result<u16, StateError>)
    ensures
        match publishable(old(state)@, *key, names_of(request.hosts@)) {
            Err(error) => result == Err::<u16, StateError>(error) && final(state)@ == old(state)@,
            Ok(()) => result matches Ok(200) && final(state)@ == (StateView {
                hosts: published(
                    old(state)@.hosts,
                    names_of(request.hosts@),
                    paths_of(request.hosts@),
                    request.substitutor@,
                    request.public_key@,
                ),
                ..old(state)@
            }),
        },
{
    match state.update_hosts(
        key,
        &request.hosts,
        request.public_key.as_str(),
        request.substitutor.as_str(),
    ) {
        Ok(()) => Ok(OK),
        Err(error) => Err(error),
    }
}

/// Notes an attempt to enrol and hands out its code. Anyone may ask: this is
/// how a host that is not known yet makes itself known.
pub fn add_verification_attempt(
    state: &mut AppState,
    attempt: VerificationAttempt,
    seed: u32,
    now: u64,
) -> (result: Result<u32, StateError>)
    ensures
        match admission(old(state)@, attempt.key, seed, now) {
            None => result matches Err(StateError::Conflict) && final(state)@ == old(state)@,
            Some(code) => result == Ok::<u32, StateError>(code) && final(state)@ == (StateView {
                attempts: others(old(state)@.attempts, attempt.key, now).insert(
                    code,
                    AttemptView {
                        code,
                        key: attempt.key,
                        store_path: attempt.store_path@,
                        artifacts: attempt.artifacts@,
                        created_at: now,
                    },
                ),
                ..old(state)@
            }),
        },
{
    state.add_verification_attempt(attempt, seed, now)
}

/// Says whether the caller's host is enrolled: with the status for success
/// where it is, and with the one for what is not there where it is not.
pub fn is_host_verified(state: &AppState, key: &PublicKey) -> (status: u16)
    ensures
        status == if host_with(state@.hosts, *key) is Some {
            200u16
        } else {
            404u16
        },
{
    if state.is_host_verified(key) {
        OK
    } else {
        NOT_FOUND
    }
}

/// Approves an attempt to enrol.
pub fn verify_attempt(
    state: &mut AppState,
    key: &PublicKey,
    request: VerificationAcceptance,
    now: u64,
) -> (result: Result<VerificationArtifacts, StateError>)
    ensures
        match approval(old(state)@, *key, request.code, request.hostname@, now) {
            Err(error) => result == Err::<VerificationArtifacts, StateError>(error) && final(state)@ == old(state)@,
            Ok(host) => result matches Ok(artifacts) && artifacts@ == old(state)@.attempts[request.code].artifacts && final(state)@ == (StateView {
                hosts: old(state)@.hosts.insert(request.hostname@, host),
                attempts: old(state)@.attempts.remove(request.code),
                ..old(state)@
            }),
        },
{
    state.verify_attempt(key, request.code, request.hostname.as_str(), now)
}

} // verus!
