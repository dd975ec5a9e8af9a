//! What the coordinator knows and what a request does to it.
//!
//! The state is changed by one request at a time. Every operation says what
//! it answers and what the state is afterwards; what an operation does not
//! mention stays as it was. The operations on hosts take the key of the
//! caller and turn away who may not perform them. Those on secrets, tags and
//! policies do what they are told: who may ask for them is decided where the
//! request comes in, in `routes`.

use crate::auth::{Action, PolicyStore, Tag, TagSet};
use crate::host::{
    alive, ArtifactsView, AttemptView, Host, HostView, PendingAttempt, VerificationArtifacts,
    VerificationAttempt, CODES, FIRST_CODE,
};
use crate::key::PublicKey;
use crate::keyed::{
    distinct, lemma_same_keys, lemma_table_at, lemma_table_push, lemma_table_remove,
    lemma_table_update, listed, place, table,
};
use crate::keys::{plaintext, public_key, Identity, Recipient};
use crate::secret_store::{
    lists_all, moved, readers, renamed_host, sets, with_grant, SecretStore, SecretStoreError,
};
use crate::text::{texts, without};
use crate::version::{ActionView, AgentAction, RemoteStorePath, RemoteView};
use std::collections::HashSet;
use vstd::prelude::*;

pub mod snapshot;

verus! {

broadcast use vstd::std_specs::hash::group_hash_axioms;

/// Why a request is turned away.
#[derive(Debug)]
pub enum StateError {
    /// The caller is not known: its key is not that of an enrolled host.
    Unauthorized,
    /// The caller is known and may not do this. Which rule said so is not
    /// told.
    Forbidden,
    /// There is no such host, secret or attempt.
    NotFound,
    /// The request collides with what is there: a name or a key is taken.
    Conflict,
    /// The request makes no sense: a recipient that is none.
    Malformed,
    /// A secret could not be decrypted or encrypted.
    Secret(SecretStoreError),
}

impl StateError {
    /// The HTTP status that reports this error.
    pub fn status(&self) -> (code: u16)
        ensures
            code == match self {
                StateError::Unauthorized => 401u16,
                StateError::Forbidden => 403u16,
                StateError::NotFound => 404u16,
                StateError::Conflict => 409u16,
                StateError::Malformed => 400u16,
                StateError::Secret(_) => 500u16,
            },
    {
        match self {
            StateError::Unauthorized => 401,
            StateError::Forbidden => 403,
            StateError::NotFound => 404,
            StateError::Conflict => 409,
            StateError::Malformed => 400,
            StateError::Secret(error) => error.status(),
        }
    }
}

impl From<SecretStoreError> for StateError {
    fn from(error: SecretStoreError) -> (wrapped: StateError) {
        StateError::Secret(error)
    }
}

impl vstd::std_specs::convert::FromSpecImpl<SecretStoreError> for StateError {
    open spec fn obeys_from_spec() -> bool {
        true
    }

    open spec fn from_spec(error: SecretStoreError) -> StateError {
        StateError::Secret(error)
    }
}

/// The state of the coordinator, as plain values.
pub struct StateView {
    /// The hosts, by name.
    pub hosts: Map<Seq<char>, HostView>,
    /// The attempts to enrol that wait for approval, by code.
    pub attempts: Map<u32, AttemptView>,
    /// The keys of the administrators.
    pub admins: Set<PublicKey>,
    /// The stored ciphertexts, by the secret's name.
    pub secrets: Map<Seq<char>, Seq<u8>>,
    /// The access lists, by the secret's name.
    pub acl: Map<Seq<char>, Seq<Seq<char>>>,
    /// The known tags.
    pub tags: Set<Tag>,
    /// The policies.
    pub policies: Map<(PublicKey, Action), Set<Tag>>,
    /// The identity for which the secrets are encrypted.
    pub identity: Seq<char>,
}

/// The host that has `key`, if there is one.
pub open spec fn host_with(hosts: Map<Seq<char>, HostView>, key: PublicKey) -> Option<HostView> {
    if exists|name: Seq<char>| hosts.contains_key(name) && (#[trigger] hosts[name]).key == key {
        Some(hosts[choose|name: Seq<char>| hosts.contains_key(name) && (#[trigger] hosts[name]).key == key])
    } else {
        None
    }
}

/// What holds of every state: a host is filed under its name, an attempt
/// under its code, no two hosts have the same key and no key has made two
/// attempts.
pub open spec fn coherent(state: StateView) -> bool {
    &&& forall|name: Seq<char>|
        state.hosts.contains_key(name) ==> (#[trigger] state.hosts[name]).name == name
    &&& forall|one: Seq<char>, other: Seq<char>|
        state.hosts.contains_key(one) && state.hosts.contains_key(other) && (
        #[trigger] state.hosts[one]).key == (#[trigger] state.hosts[other]).key ==> one == other
    &&& forall|code: u32|
        state.attempts.contains_key(code) ==> (#[trigger] state.attempts[code]).code == code
    &&& forall|one: u32, other: u32|
        state.attempts.contains_key(one) && state.attempts.contains_key(other) && (
        #[trigger] state.attempts[one]).key == (#[trigger] state.attempts[other]).key ==> one
            == other
}

/// The state that these lists stand for.
pub open spec fn assembled(
    hosts: Seq<HostView>,
    attempts: Seq<AttemptView>,
    admins: Seq<PublicKey>,
    secrets: Seq<(Seq<char>, Seq<u8>)>,
    acl: Seq<(Seq<char>, Seq<Seq<char>>)>,
    tags: Set<Tag>,
    policies: Seq<(PublicKey, Action, Set<Tag>)>,
    identity: Seq<char>,
) -> StateView {
    StateView {
        hosts: table(hosts, |host: HostView| host.name).map_values(|host: HostView| host),
        attempts: table(attempts, |attempt: AttemptView| attempt.code).map_values(
            |attempt: AttemptView| attempt,
        ),
        admins: admins.to_set(),
        secrets: crate::secret_store::pairs_map(secrets),
        acl: crate::secret_store::pairs_map(acl),
        tags,
        policies: crate::auth::grants_map(policies),
        identity,
    }
}

/// Whether `key` may perform `action` on a resource that carries `tags`: an
/// administrator may do anything, and anyone else what a policy grants for
/// one of the tags.
pub open spec fn permitted(state: StateView, key: PublicKey, action: Action, tags: Set<Tag>) -> bool {
    state.admins.contains(key) || exists|tag: Tag|
        tags.contains(tag) && #[trigger] crate::auth::tags_under(
            state.policies,
            (key, action),
        ).contains(tag)
}

spec fn host_name() -> spec_fn(Host) -> Seq<char> {
    |host: Host| host.name@
}

spec fn host_key() -> spec_fn(Host) -> PublicKey {
    |host: Host| host.key
}

spec fn attempt_code() -> spec_fn(PendingAttempt) -> u32 {
    |attempt: PendingAttempt| attempt.code
}

spec fn attempt_key() -> spec_fn(PendingAttempt) -> PublicKey {
    |attempt: PendingAttempt| attempt.key
}

/// Everything the coordinator knows.
pub struct AppState {
    hosts: Vec<Host>,
    verification_attempts: Vec<PendingAttempt>,
    secret_store: SecretStore,
    policy_store: PolicyStore<PublicKey>,
    server_identity: Identity,
    admin_keys: Vec<PublicKey>,
}

impl View for AppState {
    type V = StateView;

    closed spec fn view(&self) -> StateView {
        StateView {
            hosts: table(self.hosts@, host_name()).map_values(|host: Host| host@),
            attempts: table(self.verification_attempts@, attempt_code()).map_values(
                |attempt: PendingAttempt| attempt@,
            ),
            admins: self.admin_keys@.to_set(),
            secrets: self.secret_store.secrets(),
            acl: self.secret_store.acl(),
            tags: self.policy_store.tags(),
            policies: self.policy_store.policies(),
            identity: self.server_identity@,
        }
    }
}

impl AppState {
    /// What the lists behind the state are held to.
    #[verifier::type_invariant]
    pub closed spec fn well_formed(self) -> bool {
        &&& distinct(self.hosts@, host_name())
        &&& distinct(self.hosts@, host_key())
        &&& distinct(self.verification_attempts@, attempt_code())
        &&& distinct(self.verification_attempts@, attempt_key())
    }

    /// The hosts in the order in which they are kept.
    pub closed spec fn host_list(&self) -> Seq<HostView> {
        self.hosts@.map_values(|host: Host| host@)
    }

    /// The attempts in the order in which they are kept.
    pub closed spec fn attempt_list(&self) -> Seq<AttemptView> {
        self.verification_attempts@.map_values(|attempt: PendingAttempt| attempt@)
    }

    /// The keys of the administrators in the order in which they are kept.
    pub closed spec fn admin_list(&self) -> Seq<PublicKey> {
        self.admin_keys@
    }

    /// The secrets in the order in which they are kept.
    pub closed spec fn secret_list(&self) -> Seq<(Seq<char>, Seq<u8>)> {
        self.secret_store.secret_list()
    }

    /// The access lists in the order in which they are kept.
    pub closed spec fn acl_list(&self) -> Seq<(Seq<char>, Seq<Seq<char>>)> {
        self.secret_store.acl_list()
    }

    /// The policies in the order in which they are kept.
    pub closed spec fn policy_list(&self) -> Seq<(PublicKey, Action, Set<Tag>)> {
        self.policy_store.policy_list()
    }

    /// The known tags.
    pub closed spec fn tag_set(&self) -> Set<Tag> {
        self.policy_store.tags()
    }

    /// The identity for which the secrets are encrypted.
    pub closed spec fn identity(&self) -> Seq<char> {
        self.server_identity@
    }

    /// Whether the stores inside the state are sound.
    pub closed spec fn stores_sound(&self) -> bool {
        self.secret_store.sound() && self.policy_store.sound()
    }

    /// The state is what its lists stand for.
    pub proof fn lemma_view_from_lists(self)
        requires
            self.well_formed(),
            self.stores_sound(),
        ensures
            self@ == assembled(
                self.host_list(),
                self.attempt_list(),
                self.admin_list(),
                self.secret_list(),
                self.acl_list(),
                self.tag_set(),
                self.policy_list(),
                self.identity(),
            ),
    {
        self.secret_store.lemma_lists();
        self.policy_store.lemma_list();
        let shown = self.host_list();
        let name = |host: HostView| host.name;
        let a = self@.hosts;
        let b = table(shown, name).map_values(|host: HostView| host);
        assert forall|i: int| 0 <= i < shown.len() implies name(#[trigger] shown[i]) == host_name()(
            self.hosts@[i],
        ) by {}
        assert forall|i: int, j: int| 0 <= i < j < shown.len() implies name(#[trigger] shown[i])
            != name(#[trigger] shown[j]) by {
            assert(host_name()(self.hosts@[i]) != host_name()(self.hosts@[j]));
        }
        assert forall|k: Seq<char>| a.contains_key(k) <==> b.contains_key(k) by {
            if a.contains_key(k) {
                let i = place(self.hosts@, host_name(), k);
                assert(name(shown[i]) == k);
            }
            if b.contains_key(k) {
                let i = place(shown, name, k);
                assert(host_name()(self.hosts@[i]) == k);
            }
        }
        assert forall|k: Seq<char>| a.contains_key(k) implies #[trigger] a[k] == b[k] by {
            let i = place(self.hosts@, host_name(), k);
            lemma_table_at(self.hosts@, host_name(), i);
            assert(name(shown[i]) == k);
            lemma_table_at(shown, name, i);
        }
        assert(a =~= b);
        let tried = self.attempt_list();
        let code = |attempt: AttemptView| attempt.code;
        let c = self@.attempts;
        let d = table(tried, code).map_values(|attempt: AttemptView| attempt);
        assert forall|i: int| 0 <= i < tried.len() implies code(#[trigger] tried[i])
            == attempt_code()(self.verification_attempts@[i]) by {}
        assert forall|i: int, j: int| 0 <= i < j < tried.len() implies code(#[trigger] tried[i])
            != code(#[trigger] tried[j]) by {
            assert(attempt_code()(self.verification_attempts@[i]) != attempt_code()(
                self.verification_attempts@[j],
            ));
        }
        assert forall|k: u32| c.contains_key(k) <==> d.contains_key(k) by {
            if c.contains_key(k) {
                let i = place(self.verification_attempts@, attempt_code(), k);
                assert(code(tried[i]) == k);
            }
            if d.contains_key(k) {
                let i = place(tried, code, k);
                assert(attempt_code()(self.verification_attempts@[i]) == k);
            }
        }
        assert forall|k: u32| c.contains_key(k) implies #[trigger] c[k] == d[k] by {
            let i = place(self.verification_attempts@, attempt_code(), k);
            lemma_table_at(self.verification_attempts@, attempt_code(), i);
            assert(code(tried[i]) == k);
            lemma_table_at(tried, code, i);
        }
        assert(c =~= d);
    }

    /// A well-formed state is coherent.
    pub proof fn lemma_coherent(self)
        requires
            self.well_formed(),
        ensures
            coherent(self@),
    {
        let hosts = self.hosts@;
        assert forall|name: Seq<char>| self@.hosts.contains_key(name) implies (
        #[trigger] self@.hosts[name]).name == name by {
            let i = place(hosts, host_name(), name);
            lemma_table_at(hosts, host_name(), i);
        }
        assert forall|one: Seq<char>, other: Seq<char>|
            self@.hosts.contains_key(one) && self@.hosts.contains_key(other) && (
            #[trigger] self@.hosts[one]).key == (#[trigger] self@.hosts[other]).key implies one
            == other by {
            let i = place(hosts, host_name(), one);
            let j = place(hosts, host_name(), other);
            lemma_table_at(hosts, host_name(), i);
            lemma_table_at(hosts, host_name(), j);
            if i < j {
                assert(host_key()(hosts[i]) != host_key()(hosts[j]));
            }
            if j < i {
                assert(host_key()(hosts[j]) != host_key()(hosts[i]));
            }
        }
        let attempts = self.verification_attempts@;
        assert forall|code: u32| self@.attempts.contains_key(code) implies (
        #[trigger] self@.attempts[code]).code == code by {
            let i = place(attempts, attempt_code(), code);
            lemma_table_at(attempts, attempt_code(), i);
        }
        assert forall|one: u32, other: u32|
            self@.attempts.contains_key(one) && self@.attempts.contains_key(other) && (
            #[trigger] self@.attempts[one]).key == (#[trigger] self@.attempts[other]).key implies one
            == other by {
            let i = place(attempts, attempt_code(), one);
            let j = place(attempts, attempt_code(), other);
            lemma_table_at(attempts, attempt_code(), i);
            lemma_table_at(attempts, attempt_code(), j);
            if i < j {
                assert(attempt_key()(attempts[i]) != attempt_key()(attempts[j]));
            }
            if j < i {
                assert(attempt_key()(attempts[j]) != attempt_key()(attempts[i]));
            }
        }
    }

    /// A state without hosts, secrets, policies and administrators, whose
    /// secrets will be encrypted for `server_identity`.
    pub fn new(server_identity: Identity) -> (state: AppState)
        ensures
            state@ == (StateView {
                hosts: Map::empty(),
                attempts: Map::empty(),
                admins: Set::empty(),
                secrets: Map::empty(),
                acl: Map::empty(),
                tags: Set::empty(),
                policies: Map::empty(),
                identity: server_identity@,
            }),
    {
        let state = AppState {
            hosts: Vec::new(),
            verification_attempts: Vec::new(),
            secret_store: SecretStore::new(),
            policy_store: PolicyStore::new(),
            server_identity,
            admin_keys: Vec::new(),
        };
        assert(state@.hosts =~= Map::<Seq<char>, HostView>::empty());
        assert(state@.attempts =~= Map::<u32, AttemptView>::empty());
        assert(state@.admins =~= Set::<PublicKey>::empty());
        state
    }

    /// Whether there is an administrator.
    pub fn has_admin_credential(&self) -> (yes: bool)
        ensures
            yes == (self@.admins != Set::<PublicKey>::empty()),
    {
        if self.admin_keys.len() > 0 {
            assert(self.admin_keys@.to_set().contains(self.admin_keys@[0]));
            true
        } else {
            assert(self.admin_keys@.to_set() =~= Set::<PublicKey>::empty());
            false
        }
    }

    /// Whether `key` is that of an administrator.
    pub fn is_admin(&self, key: &PublicKey) -> (yes: bool)
        ensures
            yes == self@.admins.contains(*key),
    {
        let mut i: usize = 0;
        while i < self.admin_keys.len()
            invariant
                i <= self.admin_keys.len(),
                forall|k: int| 0 <= k < i ==> self.admin_keys@[k] != *key,
            decreases self.admin_keys.len() - i,
        {
            if self.admin_keys[i] == *key {
                assert(self.admin_keys@.contains(self.admin_keys@[i as int]));
                return true;
            }
            i += 1;
        }
        false
    }

    /// The keys that the coordinator knows: those of the administrators and
    /// those of the hosts.
    pub fn known_keys(&self) -> (keys: Vec<PublicKey>)
        ensures
            forall|key: PublicKey|
                keys@.contains(key) <==> self@.admins.contains(key) || host_with(self@.hosts, key)
                    is Some,
    {
        proof {
            use_type_invariant(self);
        }
        let mut keys: Vec<PublicKey> = Vec::new();
        let mut i: usize = 0;
        while i < self.admin_keys.len()
            invariant
                i <= self.admin_keys.len(),
                keys@ == self.admin_keys@.take(i as int),
            decreases self.admin_keys.len() - i,
        {
            keys.push(self.admin_keys[i]);
            assert(self.admin_keys@.take(i + 1) =~= self.admin_keys@.take(i as int).push(
                self.admin_keys[i as int],
            ));
            i += 1;
        }
        assert(self.admin_keys@.take(self.admin_keys.len() as int) =~= self.admin_keys@);
        let ghost admins = keys@;
        let mut j: usize = 0;
        while j < self.hosts.len()
            invariant
                j <= self.hosts.len(),
                admins == self.admin_keys@,
                keys.len() == admins.len() + j,
                forall|k: int| 0 <= k < admins.len() ==> keys[k] == admins[k],
                forall|k: int| 0 <= k < j ==> keys[admins.len() + k] == self.hosts[k].key,
            decreases self.hosts.len() - j,
        {
            keys.push(self.hosts[j].key);
            j += 1;
        }
        proof {
            assert forall|key: PublicKey| keys@.contains(key) <==> self@.admins.contains(key)
                || host_with(self@.hosts, key) is Some by {
                if keys@.contains(key) {
                    let k = choose|k: int| 0 <= k < keys.len() && keys[k] == key;
                    if k < admins.len() {
                        assert(admins[k] == key);
                        assert(self.admin_keys@.contains(key));
                    } else {
                        let at = (k - admins.len()) as usize;
                        assert(self.hosts[at as int].key == key);
                        lemma_host_with(self.hosts@, key, Some(at));
                    }
                }
                if self@.admins.contains(key) {
                    let k = choose|k: int| 0 <= k < admins.len() && admins[k] == key;
                    assert(keys[k] == key);
                }
                if host_with(self@.hosts, key) is Some {
                    if listed(self.hosts@, host_key(), key) {
                        let at = place(self.hosts@, host_key(), key);
                        assert(keys[admins.len() + at] == key);
                    } else {
                        lemma_host_with(self.hosts@, key, None);
                    }
                }
            }
        }
        keys
    }

    /// Makes `key` the key of an administrator.
    pub fn add_admin_key(&mut self, key: PublicKey)
        ensures
            final(self)@ == (StateView { admins: old(self)@.admins.insert(key), ..old(self)@ }),
    {
        proof {
            use_type_invariant(&*self);
        }
        if !self.is_admin(&key) {
            let mut keys: Vec<PublicKey> = Vec::new();
            std::mem::swap(&mut keys, &mut self.admin_keys);
            let ghost before = keys@;
            keys.push(key);
            proof {
                assert forall|k: PublicKey| keys@.to_set().contains(k) <==> before.to_set().insert(
                    key,
                ).contains(k) by {
                    if keys@.to_set().contains(k) {
                        let i = choose|i: int| 0 <= i < keys@.len() && keys@[i] == k;
                        if i < before.len() {
                            assert(before[i] == k);
                        }
                    }
                    if before.to_set().contains(k) {
                        let i = choose|i: int| 0 <= i < before.len() && before[i] == k;
                        assert(keys@[i] == k);
                    }
                    if k == key {
                        assert(keys@[before.len() as int] == k);
                    }
                }
                assert(keys@.to_set() =~= before.to_set().insert(key));
            }
            self.admin_keys = keys;
        } else {
            assert(self@.admins.insert(key) =~= self@.admins);
        }
    }

    /// Makes `key` no longer the key of an administrator. Only an
    /// administrator can do this.
    pub fn remove_admin_key(&mut self, caller: &PublicKey, key: &PublicKey) -> (result: Result<
        (),
        StateError,
    >)
        ensures
            if old(self)@.admins.contains(*caller) {
                result is Ok && final(self)@ == (StateView {
                    admins: old(self)@.admins.remove(*key),
                    ..old(self)@
                })
            } else {
                result matches Err(StateError::Forbidden) && final(self)@ == old(self)@
            },
    {
        proof {
            use_type_invariant(&*self);
        }
        if !self.is_admin(caller) {
            return Err(StateError::Forbidden);
        }
        let mut keys: Vec<PublicKey> = Vec::new();
        std::mem::swap(&mut keys, &mut self.admin_keys);
        let ghost before = keys@;
        let mut kept: Vec<PublicKey> = Vec::new();
        let mut i: usize = 0;
        while i < keys.len()
            invariant
                i <= keys.len(),
                keys@ == before,
                forall|k: PublicKey|
                    kept@.contains(k) <==> before.take(i as int).contains(k) && k != *key,
            decreases keys.len() - i,
        {
            let ghost was = kept@;
            let ghost done = before.take(i as int);
            let ghost now = before.take(i + 1);
            if keys[i] != *key {
                kept.push(keys[i]);
            }
            proof {
                assert forall|k: PublicKey| kept@.contains(k) <==> now.contains(k) && k
                    != *key by {
                    if kept@.contains(k) {
                        let at = choose|at: int| 0 <= at < kept.len() && kept[at] == k;
                        if at < was.len() {
                            assert(was[at] == k);
                            assert(was.contains(k));
                            assert(done.contains(k));
                            let from = choose|from: int| 0 <= from < done.len() && done[from] == k;
                            assert(now[from] == k);
                        } else {
                            assert(now[i as int] == k);
                        }
                    }
                    if now.contains(k) && k != *key {
                        let from = choose|from: int| 0 <= from < now.len() && now[from] == k;
                        if from < i {
                            assert(done[from] == k);
                            assert(done.contains(k));
                            assert(was.contains(k));
                            let at = choose|at: int| 0 <= at < was.len() && was[at] == k;
                            assert(kept[at] == k);
                        } else {
                            assert(keys[i as int] == k);
                            assert(kept[kept.len() - 1] == k);
                        }
                    }
                }
            }
            i += 1;
        }
        proof {
            assert(before.take(keys.len() as int) =~= before);
            assert(kept@.to_set() =~= before.to_set().remove(*key));
        }
        self.admin_keys = kept;
        Ok(())
    }

    /// Whether the host of the caller may detach itself. A caller whose key
    /// is not that of an enrolled host is turned away.
    pub fn is_detach_allowed(&self, key: &PublicKey) -> (result: Result<bool, StateError>)
        ensures
            result == match host_with(self@.hosts, *key) {
                Some(host) => Ok::<bool, StateError>(host.detach_allowed),
                None => Err::<bool, StateError>(StateError::Unauthorized),
            },
    {
        proof {
            use_type_invariant(self);
        }
        let found = find_host_by_key(&self.hosts, key);
        proof {
            lemma_host_with(self.hosts@, *key, found);
        }
        match found {
            Some(at) => Ok(self.hosts[at].detach_allowed),
            None => Err(StateError::Unauthorized),
        }
    }

    /// The name of the host that has `key`, for a caller that may know it:
    /// `None` where there is no such host, and where the caller may not know.
    pub fn hostname_by_key(&self, caller: &PublicKey, key: &PublicKey) -> (name: Option<String>)
        ensures
            match host_with(self@.hosts, *key) {
                Some(host) => if permitted(
                    self@,
                    *caller,
                    Action::Status(crate::auth::Status::ListHostnameByKey),
                    host.tags,
                ) {
                    name matches Some(found) && found@ == host.name
                } else {
                    name is None
                },
                None => name is None,
            },
    {
        proof {
            use_type_invariant(self);
        }
        let found = find_host_by_key(&self.hosts, key);
        proof {
            lemma_host_with(self.hosts@, *key, found);
        }
        match found {
            Some(at) => {
                let may = self.authorize(
                    caller,
                    Action::Status(crate::auth::Status::ListHostnameByKey),
                    &self.hosts[at].tags,
                );
                if may.is_ok() {
                    Some(self.hosts[at].name.clone())
                } else {
                    None
                }
            },
            None => None,
        }
    }

    /// Lets an administrator pass and turns everyone else away.
    pub fn auth_admin(&self, key: &PublicKey) -> (verdict: Result<(), StateError>)
        ensures
            verdict == if self@.admins.contains(*key) {
                Ok::<(), StateError>(())
            } else {
                Err::<(), StateError>(StateError::Forbidden)
            },
    {
        if self.is_admin(key) {
            Ok(())
        } else {
            Err(StateError::Forbidden)
        }
    }

    /// Lets `key` pass where it may perform `action` on a resource that
    /// carries `tags`, and turns it away otherwise.
    pub fn authorize(&self, key: &PublicKey, action: Action, tags: &TagSet) -> (verdict: Result<
        (),
        StateError,
    >)
        ensures
            verdict == if permitted(self@, *key, action, tags@) {
                Ok::<(), StateError>(())
            } else {
                Err::<(), StateError>(StateError::Forbidden)
            },
    {
        if self.is_admin(key) {
            return Ok(());
        }
        let granted = self.policy_store.check_permission(*key, action, tags);
        proof {
            assert(key@ == *key);
            let under = crate::auth::tags_under(self@.policies, (*key, action));
            assert(under == self.policy_store.granted(key@, action));
            if granted {
                let tag = choose|tag: Tag|
                    tags@.contains(tag) && #[trigger] self.policy_store.granted(key@, action).contains(tag);
                assert(under.contains(tag));
            } else {
                assert forall|tag: Tag| tags@.contains(tag) implies !(#[trigger] under.contains(
                    tag,
                )) by {
                    assert(!self.policy_store.granted(key@, action).contains(tag));
                }
            }
        }
        if granted {
            Ok(())
        } else {
            Err(StateError::Forbidden)
        }
    }

    /// Reserves a tag for resources and policies that was not known before
    /// and that no policy grants.
    pub fn create_tag(&mut self) -> (tag: Tag)
        ensures
            !old(self)@.tags.contains(tag),
            forall|key: (PublicKey, Action)|
                old(self)@.policies.contains_key(key) ==> !(#[trigger] old(self)@.policies[key]).contains(
                    tag,
                ),
            final(self)@ == (StateView { tags: old(self)@.tags.insert(tag), ..old(self)@ }),
    {
        proof {
            use_type_invariant(&*self);
        }
        let mut store: PolicyStore<PublicKey> = PolicyStore::new();
        std::mem::swap(&mut store, &mut self.policy_store);
        let tag = store.create_tag();
        self.policy_store = store;
        tag
    }

    /// Forgets a tag: no policy grants it any more. Hosts that carry it keep
    /// it, to no effect.
    pub fn delete_tag(&mut self, tag: &Tag)
        ensures
            final(self)@ == (StateView {
                tags: old(self)@.tags.remove(*tag),
                policies: old(self)@.policies.map_values(|granted: Set<Tag>| granted.remove(*tag)),
                ..old(self)@
            }),
    {
        proof {
            use_type_invariant(&*self);
        }
        let mut store: PolicyStore<PublicKey> = PolicyStore::new();
        std::mem::swap(&mut store, &mut self.policy_store);
        store.delete_tag(tag);
        self.policy_store = store;
    }

    /// Lets `owner` perform `action` on what carries one of `tags`, in place
    /// of what it was granted for that action before.
    pub fn set_policy(&mut self, owner: PublicKey, action: Action, tags: TagSet)
        ensures
            final(self)@ == (StateView {
                policies: old(self)@.policies.insert((owner, action), tags@),
                ..old(self)@
            }),
    {
        proof {
            use_type_invariant(&*self);
        }
        let mut store: PolicyStore<PublicKey> = PolicyStore::new();
        std::mem::swap(&mut store, &mut self.policy_store);
        store.set_policy(owner, action, tags);
        self.policy_store = store;
    }

    /// Withdraws what `owner` was granted for `action`.
    pub fn delete_policy(&mut self, owner: PublicKey, action: Action)
        ensures
            final(self)@ == (StateView {
                policies: old(self)@.policies.remove((owner, action)),
                ..old(self)@
            }),
    {
        proof {
            use_type_invariant(&*self);
        }
        let mut store: PolicyStore<PublicKey> = PolicyStore::new();
        std::mem::swap(&mut store, &mut self.policy_store);
        let _ = store.delete_policy(owner, action);
        self.policy_store = store;
    }

    /// Gives a host its tags, in place of those it had. Tells whether there
    /// is such a host.
    pub fn set_host_tags(&mut self, hostname: &str, tags: TagSet) -> (found: bool)
        ensures
            found == old(self)@.hosts.contains_key(hostname@),
            final(self)@ == if found {
                StateView {
                    hosts: old(self)@.hosts.insert(
                        hostname@,
                        HostView { tags: tags@, ..old(self)@.hosts[hostname@] },
                    ),
                    ..old(self)@
                }
            } else {
                old(self)@
            },
    {
        proof {
            use_type_invariant(&*self);
        }
        let name = hostname.to_owned();
        match find_host(&self.hosts, &name) {
            Some(at) => {
                proof {
                    lemma_table_at(self.hosts@, host_name(), at as int);
                }
                let mut hosts: Vec<Host> = Vec::new();
                std::mem::swap(&mut hosts, &mut self.hosts);
                let mut host = hosts[at].copy();
                host.tags = tags;
                replace_host(&mut hosts, at, host);
                self.hosts = hosts;
                true
            },
            None => false,
        }
    }

    /// The recipient to which secrets for the coordinator are encrypted.
    pub fn get_server_recipient(&self) -> (recipient: String)
        ensures
            recipient@ == public_key(self@.identity),
    {
        self.server_identity.to_public().as_str().to_owned()
    }

    /// Stores a secret, which has to be encrypted to the server's recipient.
    /// One that the server cannot decrypt is turned away.
    pub fn add_secret(&mut self, name: &str, secret: Vec<u8>) -> (result: Result<(), StateError>)
        ensures
            match plaintext(old(self)@.identity, secret@) {
                Some(_) => result is Ok && final(self)@ == (StateView {
                    secrets: old(self)@.secrets.insert(name@, secret@),
                    ..old(self)@
                }),
                None => result matches Err(StateError::Secret(SecretStoreError::DecryptionError(_)))
                    && final(self)@ == old(self)@,
            },
    {
        proof {
            use_type_invariant(&*self);
        }
        let mut store = SecretStore::new();
        std::mem::swap(&mut store, &mut self.secret_store);
        let result = store.add_secret(name, secret, &self.server_identity);
        self.secret_store = store;
        match result {
            Ok(()) => Ok(()),
            Err(error) => Err(StateError::from(error)),
        }
    }

    /// Files a secret and its access list under another name.
    pub fn rename_secret(&mut self, current: &str, new: &str)
        ensures
            final(self)@ == (StateView {
                secrets: moved(old(self)@.secrets, current@, new@),
                acl: moved(old(self)@.acl, current@, new@),
                ..old(self)@
            }),
    {
        proof {
            use_type_invariant(&*self);
        }
        let mut store = SecretStore::new();
        std::mem::swap(&mut store, &mut self.secret_store);
        store.rename_secret(current, new);
        self.secret_store = store;
    }

    /// Forgets a secret and its access list.
    pub fn remove_secret(&mut self, name: &str)
        ensures
            final(self)@ == (StateView {
                secrets: old(self)@.secrets.remove(name@),
                acl: old(self)@.acl.remove(name@),
                ..old(self)@
            }),
    {
        proof {
            use_type_invariant(&*self);
        }
        let mut store = SecretStore::new();
        std::mem::swap(&mut store, &mut self.secret_store);
        store.remove_secret(name);
        self.secret_store = store;
    }

    /// Lets `host` read `secret`: puts it on the access list unless it is
    /// there already.
    pub fn secret_add_access_for(&mut self, secret: &str, host: &str)
        ensures
            final(self)@ == (StateView {
                acl: with_grant(old(self)@.acl, secret@, host@),
                ..old(self)@
            }),
            readers(old(self)@.acl, secret@).contains(host@) ==> final(self)@ == old(self)@,
            readers(final(self)@.acl, secret@).contains(host@),
    {
        proof {
            use_type_invariant(&*self);
        }
        let mut store = SecretStore::new();
        std::mem::swap(&mut store, &mut self.secret_store);
        store.add_access_for(secret, host);
        self.secret_store = store;
    }

    /// No longer lets `host` read `secret`.
    pub fn secret_remove_access_for(&mut self, secret: &str, host: &str)
        ensures
            final(self)@ == (StateView {
                acl: old(self)@.acl.insert(
                    secret@,
                    without(readers(old(self)@.acl, secret@), host@),
                ),
                ..old(self)@
            }),
    {
        proof {
            use_type_invariant(&*self);
        }
        let mut store = SecretStore::new();
        std::mem::swap(&mut store, &mut self.secret_store);
        store.remove_access_for(secret, host);
        self.secret_store = store;
    }

    /// Every access list with the name of its secret, each secret once and
    /// on each list each host once.
    pub fn get_all_acl(&self) -> (lists: Vec<(String, Vec<String>)>)
        ensures
            lists_all(self@.acl, lists@),
            sets(self@.acl),
    {
        self.secret_store.get_all_acl()
    }

    /// The hosts that may read `secret`, each once.
    pub fn get_acl_by_secret(&self, secret: &str) -> (hosts: Vec<String>)
        ensures
            texts(hosts@) == readers(self@.acl, secret@),
            texts(hosts@).no_duplicates(),
    {
        self.secret_store.get_acl_by_secret(secret)
    }

    /// The names of the secrets, each once.
    pub fn list_secrets(&self) -> (names: Vec<String>)
        ensures
            texts(names@).to_set() == self@.secrets.dom(),
            texts(names@).no_duplicates(),
    {
        self.secret_store.list_secrets()
    }

    /// Whether `key` is that of an enrolled host.
    pub fn is_host_verified(&self, key: &PublicKey) -> (yes: bool)
        ensures
            yes == host_with(self@.hosts, *key) is Some,
    {
        proof {
            use_type_invariant(self);
        }
        let found = find_host_by_key(&self.hosts, key);
        proof {
            lemma_host_with(self.hosts@, *key, found);
        }
        found.is_some()
    }

    /// Tells a host what to do, from the version it says it runs, and notes
    /// that version.
    ///
    /// A caller whose key is not that of an enrolled host is turned away. A
    /// detached host is told so. A host for which a version has been
    /// published that it does not run is told to switch to it. Any other host
    /// has nothing to do.
    pub fn system_check(&mut self, key: &PublicKey, store_path: &str) -> (result: Result<
        AgentAction,
        StateError,
    >)
        ensures
            match host_with(old(self)@.hosts, *key) {
                None => result matches Err(StateError::Unauthorized) && final(self)@ == old(self)@,
                Some(host) => result matches Ok(action) && action@ == decision(host, store_path@)
                    && final(self)@ == (StateView {
                    hosts: old(self)@.hosts.insert(
                        host.name,
                        HostView { current_version: Some(store_path@), ..host },
                    ),
                    ..old(self)@
                }),
            },
    {
        proof {
            use_type_invariant(&*self);
        }
        let found = find_host_by_key(&self.hosts, key);
        proof {
            lemma_host_with(self.hosts@, *key, found);
        }
        match found {
            None => Err(StateError::Unauthorized),
            Some(i) => {
                let action = decide(&self.hosts[i], store_path);
                let mut hosts: Vec<Host> = Vec::new();
                std::mem::swap(&mut hosts, &mut self.hosts);
                let mut host = hosts[i].copy();
                host.current_version = Some(store_path.to_owned());
                replace_host(&mut hosts, i, host);
                self.hosts = hosts;
                assert(self@.hosts =~= old(self)@.hosts.insert(
                    host@.name,
                    HostView { current_version: Some(store_path@), ..old(self).hosts@[i as int]@ },
                ));
                Ok(action)
            },
        }
    }

    /// Notes the wish of an agent to enrol its host and assigns the code by
    /// which an administrator can approve it.
    ///
    /// The attempt is turned away where the key is that of a host already,
    /// and where no code is free. Otherwise the attempts that have outlived
    /// their time are forgotten, and so is an earlier attempt by the same
    /// key, and the new one gets the first code that no other attempt has,
    /// counting from the one that `seed` names.
    pub fn add_verification_attempt(
        &mut self,
        attempt: VerificationAttempt,
        seed: u32,
        now: u64,
    ) -> (result: Result<u32, StateError>)
        ensures
            match admission(old(self)@, attempt.key, seed, now) {
                None => result matches Err(StateError::Conflict) && final(self)@ == old(self)@,
                Some(code) => result == Ok::<u32, StateError>(code) && final(self)@ == (StateView {
                    attempts: others(old(self)@.attempts, attempt.key, now).insert(
                        code,
                        AttemptView {
                            code,
                            key: attempt.key,
                            store_path: attempt.store_path@,
                            artifacts: attempt.artifacts@,
                            created_at: now,
                        },
                    ),
                    ..old(self)@
                }),
            },
    {
        proof {
            use_type_invariant(&*self);
        }
        let known = find_host_by_key(&self.hosts, &attempt.key);
        proof {
            lemma_host_with(self.hosts@, attempt.key, known);
        }
        if known.is_some() {
            return Err(StateError::Conflict);
        }
        let mut attempts: Vec<PendingAttempt> = Vec::new();
        std::mem::swap(&mut attempts, &mut self.verification_attempts);
        let ghost before = attempts@;
        let kept = keep_others(&attempts, &attempt.key, now);
        let code = match free_code(&kept, seed) {
            Some(code) => code,
            None => {
                self.verification_attempts = attempts;
                return Err(StateError::Conflict);
            },
        };
        let mut kept = kept;
        proof {
            let entry = PendingAttempt {
                code,
                key: attempt.key,
                store_path: attempt.store_path,
                artifacts: attempt.artifacts,
                created_at: now,
            };
            lemma_table_push(kept@, attempt_code(), entry);
            lemma_push_keeps_distinct(kept@, attempt_key(), entry);
        }
        kept.push(
            PendingAttempt {
                code,
                key: attempt.key,
                store_path: attempt.store_path,
                artifacts: attempt.artifacts,
                created_at: now,
            },
        );
        self.verification_attempts = kept;
        assert(self@.attempts =~= others(old(self)@.attempts, attempt.key, now).insert(
            code,
            AttemptView {
                code,
                key: attempt.key,
                store_path: attempt.store_path@,
                artifacts: attempt.artifacts@,
                created_at: now,
            },
        ));
        Ok(code)
    }

    /// Makes the attempt with `code` a host named `hostname` and hands out
    /// what the agent handed in.
    ///
    /// Only who may accept hosts can do this. There has to be such an attempt
    /// and it must not have outlived its time; the name and the key must not
    /// be those of a host. The new host has no tags, is attached and may not
    /// detach itself; the version it runs is the one the agent named.
    pub fn verify_attempt(&mut self, caller: &PublicKey, code: u32, hostname: &str, now: u64) -> (result:
        Result<VerificationArtifacts, StateError>)
        ensures
            match approval(old(self)@, *caller, code, hostname@, now) {
                Err(error) => result == Err::<VerificationArtifacts, StateError>(error) && final(self)@ == old(self)@,
                Ok(host) => result matches Ok(artifacts) && artifacts@ == old(self)@.attempts[code].artifacts && final(self)@ == (StateView {
                    hosts: old(self)@.hosts.insert(hostname@, host),
                    attempts: old(self)@.attempts.remove(code),
                    ..old(self)@
                }),
            },
    {
        proof {
            use_type_invariant(&*self);
        }
        let none: TagSet = HashSet::new();
        match self.authorize(caller, Action::Host(crate::auth::Host::Accept), &none) {
            Err(error) => {
                return Err(error);
            },
            Ok(()) => {},
        }
        let at = match find_attempt(&self.verification_attempts, code) {
            Some(at) => at,
            None => {
                return Err(StateError::NotFound);
            },
        };
        proof {
            lemma_table_at(self.verification_attempts@, attempt_code(), at as int);
        }
        if !self.verification_attempts[at].is_alive(now) {
            return Err(StateError::NotFound);
        }
        let name = hostname.to_owned();
        let key = self.verification_attempts[at].key;
        let taken = find_host(&self.hosts, &name);
        let known = find_host_by_key(&self.hosts, &key);
        proof {
            lemma_host_with(self.hosts@, key, known);
        }
        if taken.is_some() || known.is_some() {
            proof {
                if taken.is_some() {
                    lemma_table_at(self.hosts@, host_name(), taken.unwrap() as int);
                }
            }
            return Err(StateError::Conflict);
        }
        let mut attempts: Vec<PendingAttempt> = Vec::new();
        std::mem::swap(&mut attempts, &mut self.verification_attempts);
        proof {
            lemma_table_remove(attempts@, attempt_code(), at as int);
            lemma_remove_keeps_distinct(attempts@, attempt_key(), at as int);
        }
        let attempt = attempts.remove(at);
        self.verification_attempts = attempts;
        assert(self@.attempts =~= old(self)@.attempts.remove(code));
        let host = Host {
            name,
            key: attempt.key,
            tags: HashSet::new(),
            current_version: Some(attempt.store_path),
            desired_version: None,
            detach_allowed: false,
            detached: false,
        };
        let mut hosts: Vec<Host> = Vec::new();
        std::mem::swap(&mut hosts, &mut self.hosts);
        proof {
            lemma_table_push(hosts@, host_name(), host);
            lemma_table_push(hosts@, host_key(), host);
        }
        hosts.push(host);
        self.hosts = hosts;
        assert(self@.hosts =~= old(self)@.hosts.insert(hostname@, host@));
        Ok(attempt.artifacts)
    }

    /// Removes a host and takes it off every access list.
    ///
    /// Only who may remove the host can do this; who could not remove it if
    /// it were there does not learn whether it is.
    pub fn remove_host(&mut self, caller: &PublicKey, hostname: &str) -> (result: Result<
        (),
        StateError,
    >)
        ensures
            match access(old(self)@, *caller, Action::Host(crate::auth::Host::Remove), hostname@) {
                Err(error) => result == Err::<(), StateError>(error) && final(self)@ == old(self)@,
                Ok(_) => result is Ok && final(self)@ == (StateView {
                    hosts: old(self)@.hosts.remove(hostname@),
                    acl: old(self)@.acl.map_values(
                        |hosts: Seq<Seq<char>>| without(hosts, hostname@),
                    ),
                    ..old(self)@
                }),
            },
    {
        proof {
            use_type_invariant(&*self);
        }
        let name = hostname.to_owned();
        let at = match self.find_accessible(caller, Action::Host(crate::auth::Host::Remove), &name) {
            Ok(at) => at,
            Err(error) => {
                return Err(error);
            },
        };
        let mut hosts: Vec<Host> = Vec::new();
        std::mem::swap(&mut hosts, &mut self.hosts);
        proof {
            lemma_table_remove(hosts@, host_name(), at as int);
            lemma_remove_keeps_distinct(hosts@, host_key(), at as int);
        }
        let _ = hosts.remove(at);
        self.hosts = hosts;
        assert(self@.hosts =~= old(self)@.hosts.remove(hostname@));
        let mut store = SecretStore::new();
        std::mem::swap(&mut store, &mut self.secret_store);
        store.remove_host(hostname);
        self.secret_store = store;
        Ok(())
    }

    /// Gives a host another name and writes the new name wherever an access
    /// list has the old one.
    ///
    /// Only who may rename the host can do this; who could not rename it if
    /// it were there does not learn whether it is. The new name must not be
    /// that of another host.
    pub fn rename_host(&mut self, caller: &PublicKey, current: &str, new: &str) -> (result: Result<
        (),
        StateError,
    >)
        ensures
            match renaming(old(self)@, *caller, current@, new@) {
                Err(error) => result == Err::<(), StateError>(error) && final(self)@ == old(self)@,
                Ok(host) => result is Ok && final(self)@ == (StateView {
                    hosts: old(self)@.hosts.remove(current@).insert(
                        new@,
                        HostView { name: new@, ..host },
                    ),
                    acl: old(self)@.acl.map_values(
                        |hosts: Seq<Seq<char>>| renamed_host(hosts, current@, new@),
                    ),
                    ..old(self)@
                }),
            },
    {
        proof {
            use_type_invariant(&*self);
        }
        let name = current.to_owned();
        let at = match self.find_accessible(caller, Action::Host(crate::auth::Host::Rename), &name) {
            Ok(at) => at,
            Err(error) => {
                return Err(error);
            },
        };
        let new_name = new.to_owned();
        let taken = find_host(&self.hosts, &new_name);
        proof {
            lemma_table_at(self.hosts@, host_name(), at as int);
            if taken.is_some() {
                lemma_table_at(self.hosts@, host_name(), taken.unwrap() as int);
            }
        }
        match taken {
            Some(other) => {
                if other != at {
                    return Err(StateError::Conflict);
                }
            },
            None => {},
        }
        let mut hosts: Vec<Host> = Vec::new();
        std::mem::swap(&mut hosts, &mut self.hosts);
        let ghost before = hosts@;
        proof {
            lemma_table_remove(hosts@, host_name(), at as int);
            lemma_remove_keeps_distinct(hosts@, host_key(), at as int);
        }
        let mut host = hosts.remove(at);
        host.name = new_name;
        proof {
            let rest = hosts@;
            // The new name is free among the other hosts, and so is the key.
            if listed(rest, host_name(), new@) {
                let k = place(rest, host_name(), new@);
                let k0 = if k < at { k } else { k + 1 };
                assert(rest[k] == before[k0]);
                assert(host_name()(before[k0]) == new@);
                lemma_table_at(before, host_name(), k0);
            }
            if listed(rest, host_key(), host.key) {
                let k = place(rest, host_key(), host.key);
                let k0 = if k < at { k } else { k + 1 };
                assert(rest[k] == before[k0]);
                if k0 < at {
                    assert(host_key()(before[k0]) != host_key()(before[at as int]));
                } else {
                    assert(host_key()(before[at as int]) != host_key()(before[k0]));
                }
            }
            lemma_table_push(rest, host_name(), host);
            lemma_table_push(rest, host_key(), host);
        }
        hosts.push(host);
        self.hosts = hosts;
        assert(self@.hosts =~= old(self)@.hosts.remove(current@).insert(
            new@,
            HostView { name: new@, ..old(self).hosts@[at as int]@ },
        ));
        let mut store = SecretStore::new();
        std::mem::swap(&mut store, &mut self.secret_store);
        store.rename_host(current, new);
        self.secret_store = store;
        Ok(())
    }

    /// Hands `secret` to the host that asks for it, encrypted to the
    /// recipient it names.
    ///
    /// The caller has to be an enrolled host and `recipient` a recipient.
    /// The host gets the secret where it is on the secret's access list, and
    /// `None` where it is not or there is no such secret.
    pub fn get_secret(&self, secret: &str, recipient: &str, key: &PublicKey) -> (result: Result<
        Option<Vec<u8>>,
        StateError,
    >)
        ensures
            match host_with(self@.hosts, *key) {
                None => result matches Err(StateError::Unauthorized),
                Some(host) => if !crate::keys::is_recipient(recipient@) {
                    result matches Err(StateError::Malformed)
                } else {
                    read_answers(self@, secret@, host.name, recipient@, result)
                },
            },
    {
        proof {
            use_type_invariant(self);
        }
        let found = find_host_by_key(&self.hosts, key);
        proof {
            lemma_host_with(self.hosts@, *key, found);
        }
        let host = match found {
            Some(i) => &self.hosts[i],
            None => {
                return Err(StateError::Unauthorized);
            },
        };
        let recipient = match Recipient::parse(recipient) {
            Some(recipient) => recipient,
            None => {
                return Err(StateError::Malformed);
            },
        };
        match self.secret_store.get_secret_for(
            secret,
            &self.server_identity,
            host.name.as_str(),
            &recipient,
        ) {
            Ok(answer) => Ok(answer),
            Err(error) => Err(StateError::from(error)),
        }
    }

    /// Publishes versions: each host named in `updates` is to run the store
    /// path given with it, fetched from `substitutor`, which signs with
    /// `public_key`.
    ///
    /// The caller has to be allowed to update every host named, and every
    /// host named has to be there; otherwise nothing is published, and the
    /// first name in the list that fails says why. Where a host is named more
    /// than once, the last store path stands.
    pub fn update_hosts(
        &mut self,
        caller: &PublicKey,
        updates: &Vec<(String, String)>,
        public_key: &str,
        substitutor: &str,
    ) -> (result: Result<(), StateError>)
        ensures
            match publishable(old(self)@, *caller, names_of(updates@)) {
                Err(error) => result == Err::<(), StateError>(error) && final(self)@ == old(self)@,
                Ok(()) => result is Ok && final(self)@ == (StateView {
                    hosts: published(
                        old(self)@.hosts,
                        names_of(updates@),
                        paths_of(updates@),
                        substitutor@,
                        public_key@,
                    ),
                    ..old(self)@
                }),
            },
    {
        proof {
            use_type_invariant(&*self);
        }
        let ghost names = names_of(updates@);
        let ghost paths = paths_of(updates@);
        let mut i: usize = 0;
        assert(names.skip(0) =~= names);
        while i < updates.len()
            invariant
                i <= updates.len(),
                names == names_of(updates@),
                publishable(self@, *caller, names) == publishable(self@, *caller, names.skip(i as int)),
                forall|k: int| 0 <= k < i ==> self@.hosts.contains_key(#[trigger] names[k]),
            decreases updates.len() - i,
        {
            assert(names.skip(i as int)[0] == updates[i as int].0@);
            assert(names.skip(i as int).skip(1) =~= names.skip(i + 1));
            match self.find_accessible(
                caller,
                Action::Host(crate::auth::Host::Update),
                &updates[i].0,
            ) {
                Ok(_) => {},
                Err(error) => {
                    return Err(error);
                },
            }
            i += 1;
        }
        assert(names.skip(updates.len() as int) =~= Seq::<Seq<char>>::empty());
        let mut hosts: Vec<Host> = Vec::new();
        std::mem::swap(&mut hosts, &mut self.hosts);
        let ghost before = hosts_of(hosts@);
        let mut j: usize = 0;
        assert(names.take(0) =~= Seq::<Seq<char>>::empty());
        assert(paths.take(0) =~= Seq::<Seq<char>>::empty());
        while j < updates.len()
            invariant
                j <= updates.len(),
                names == names_of(updates@),
                paths == paths_of(updates@),
                names.len() == paths.len(),
                distinct(hosts@, host_name()),
                distinct(hosts@, host_key()),
                forall|k: int| 0 <= k < names.len() ==> before.contains_key(#[trigger] names[k]),
                hosts_of(hosts@).dom() == before.dom(),
                hosts_of(hosts@) == published(
                    before,
                    names.take(j as int),
                    paths.take(j as int),
                    substitutor@,
                    public_key@,
                ),
            decreases updates.len() - j,
        {
            proof {
                assert(names.take(j + 1).drop_last() =~= names.take(j as int));
                assert(paths.take(j + 1).drop_last() =~= paths.take(j as int));
                assert(names.take(j + 1).last() == updates[j as int].0@);
                assert(paths.take(j + 1).last() == updates[j as int].1@);
                assert(before.contains_key(names[j as int]));
            }
            match find_host(&hosts, &updates[j].0) {
                Some(at) => {
                    proof {
                        lemma_table_at(hosts@, host_name(), at as int);
                    }
                    let mut host = hosts[at].copy();
                    host.desired_version = Some(
                        RemoteStorePath {
                            store_path: updates[j].1.clone(),
                            substitutor: substitutor.to_owned(),
                            public_key: public_key.to_owned(),
                        },
                    );
                    let ghost was = hosts_of(hosts@);
                    replace_host(&mut hosts, at, host);
                    assert(hosts_of(hosts@).dom() =~= was.dom());
                },
                None => {
                    assert(hosts_of(hosts@).dom().contains(names[j as int]));
                },
            }
            j += 1;
        }
        assert(names.take(updates.len() as int) =~= names);
        assert(paths.take(updates.len() as int) =~= paths);
        self.hosts = hosts;
        Ok(())
    }

    /// Detaches a host: it keeps the version it runs whatever is published.
    ///
    /// A host may detach itself where it is allowed to; who may attach hosts
    /// may detach any of them. A caller that may do neither does not learn
    /// whether there is such a host.
    pub fn detach_host(&mut self, caller: &PublicKey, hostname: &str) -> (result: Result<
        (),
        StateError,
    >)
        ensures
            match detaching(old(self)@, *caller, hostname@) {
                Err(error) => result == Err::<(), StateError>(error) && final(self)@ == old(self)@,
                Ok(host) => result is Ok && final(self)@ == (StateView {
                    hosts: old(self)@.hosts.insert(hostname@, HostView { detached: true, ..host }),
                    ..old(self)@
                }),
            },
    {
        proof {
            use_type_invariant(&*self);
        }
        let name = hostname.to_owned();
        let found = find_host(&self.hosts, &name);
        let own = match found {
            Some(at) => {
                proof {
                    lemma_table_at(self.hosts@, host_name(), at as int);
                }
                self.hosts[at].key == *caller && self.hosts[at].detach_allowed
            },
            None => false,
        };
        let at = if own {
            found.unwrap()
        } else {
            match self.find_accessible(caller, Action::Host(crate::auth::Host::Attach), &name) {
                Ok(at) => at,
                Err(error) => {
                    return Err(error);
                },
            }
        };
        proof {
            lemma_table_at(self.hosts@, host_name(), at as int);
        }
        let mut hosts: Vec<Host> = Vec::new();
        std::mem::swap(&mut hosts, &mut self.hosts);
        let mut host = hosts[at].copy();
        host.detached = true;
        replace_host(&mut hosts, at, host);
        self.hosts = hosts;
        Ok(())
    }

    /// Says whether a host may detach itself.
    ///
    /// Only who may set this for the host can do so; who could not if the
    /// host were there does not learn whether it is.
    pub fn set_detach_permission(&mut self, caller: &PublicKey, hostname: &str, allowed: bool) -> (result:
        Result<(), StateError>)
        ensures
            match access(
                old(self)@,
                *caller,
                Action::Host(crate::auth::Host::DetachPermission),
                hostname@,
            ) {
                Err(error) => result == Err::<(), StateError>(error) && final(self)@ == old(self)@,
                Ok(host) => result is Ok && final(self)@ == (StateView {
                    hosts: old(self)@.hosts.insert(
                        hostname@,
                        HostView { detach_allowed: allowed, ..host },
                    ),
                    ..old(self)@
                }),
            },
    {
        proof {
            use_type_invariant(&*self);
        }
        let name = hostname.to_owned();
        let at = match self.find_accessible(
            caller,
            Action::Host(crate::auth::Host::DetachPermission),
            &name,
        ) {
            Ok(at) => at,
            Err(error) => {
                return Err(error);
            },
        };
        let mut hosts: Vec<Host> = Vec::new();
        std::mem::swap(&mut hosts, &mut self.hosts);
        let mut host = hosts[at].copy();
        host.detach_allowed = allowed;
        replace_host(&mut hosts, at, host);
        self.hosts = hosts;
        Ok(())
    }

    /// The hosts that the caller may list, each once.
    pub fn status(&self, caller: &PublicKey) -> (hosts: Vec<Host>)
        ensures
            forall|i: int|
                0 <= i < hosts.len() ==> self@.hosts.contains_key((#[trigger] hosts[i]).name@)
                    && self@.hosts[hosts[i].name@] == hosts[i]@ && visible(
                    self@,
                    *caller,
                    hosts[i]@,
                ),
            forall|name: Seq<char>|
                self@.hosts.contains_key(name) && visible(self@, *caller, self@.hosts[name])
                    ==> exists|i: int| 0 <= i < hosts.len() && (#[trigger] hosts[i]).name@ == name,
            forall|i: int, j: int|
                0 <= i < j < hosts.len() ==> (#[trigger] hosts[i]).name@ != (#[trigger] hosts[j]).name@,
    {
        proof {
            use_type_invariant(self);
        }
        let mut listed_hosts: Vec<Host> = Vec::new();
        let ghost mut origin: Seq<int> = Seq::empty();
        let mut i: usize = 0;
        while i < self.hosts.len()
            invariant
                i <= self.hosts.len(),
                origin.len() == listed_hosts.len(),
                forall|k: int|
                    0 <= k < listed_hosts.len() ==> 0 <= #[trigger] origin[k] < i && listed_hosts[k]@
                        == self.hosts[origin[k]]@ && visible(self@, *caller, self.hosts[origin[k]]@),
                forall|a: int, b: int| 0 <= a < b < listed_hosts.len() ==> origin[a] < origin[b],
                forall|j: int|
                    0 <= j < i && visible(self@, *caller, (#[trigger] self.hosts[j])@) ==> exists|
                        k: int,
                    | 0 <= k < listed_hosts.len() && #[trigger] origin[k] == j,
            decreases self.hosts.len() - i,
        {
            let may = self.authorize(
                caller,
                Action::Status(crate::auth::Status::ListHosts),
                &self.hosts[i].tags,
            );
            if may.is_ok() {
                listed_hosts.push(self.hosts[i].copy());
                proof {
                    let ghost before = origin;
                    origin = origin.push(i as int);
                    assert forall|j: int|
                        0 <= j < i + 1 && visible(self@, *caller, (#[trigger] self.hosts[j])@)
                        implies exists|k: int|
                        0 <= k < listed_hosts.len() && #[trigger] origin[k] == j by {
                        if j < i {
                            let k = choose|k: int| 0 <= k < before.len() && #[trigger] before[k] == j;
                            assert(origin[k] == j);
                        } else {
                            assert(origin[listed_hosts.len() - 1] == j);
                        }
                    }
                }
            }
            i += 1;
        }
        proof {
            let all = self.hosts@;
            assert forall|k: int| 0 <= k < listed_hosts.len() implies self@.hosts.contains_key(
                (#[trigger] listed_hosts[k]).name@,
            ) && self@.hosts[listed_hosts[k].name@] == listed_hosts[k]@ && visible(
                self@,
                *caller,
                listed_hosts[k]@,
            ) by {
                lemma_table_at(all, host_name(), origin[k]);
            }
            assert forall|name: Seq<char>|
                self@.hosts.contains_key(name) && visible(
                    self@,
                    *caller,
                    self@.hosts[name],
                ) implies exists|k: int|
                0 <= k < listed_hosts.len() && (#[trigger] listed_hosts[k]).name@ == name by {
                let j = place(all, host_name(), name);
                lemma_table_at(all, host_name(), j);
                let k = choose|k: int| 0 <= k < listed_hosts.len() && #[trigger] origin[k] == j;
                assert(listed_hosts[k].name@ == name);
            }
            assert forall|a: int, b: int| 0 <= a < b < listed_hosts.len() implies (
            #[trigger] listed_hosts[a]).name@ != (#[trigger] listed_hosts[b]).name@ by {
                assert(host_name()(all[origin[a]]) != host_name()(all[origin[b]]));
            }
        }
        listed_hosts
    }

    /// Where the host named `name` stands in the list, for a caller that may
    /// perform `action` on it.
    fn find_accessible(&self, caller: &PublicKey, action: Action, name: &String) -> (found: Result<
        usize,
        StateError,
    >)
        ensures
            match access(self@, *caller, action, name@) {
                Err(error) => found == Err::<usize, StateError>(error),
                Ok(host) => found matches Ok(at) && at < self.hosts.len() && self.hosts[at as int]@
                    == host && host.name == name@,
            },
    {
        proof {
            use_type_invariant(self);
        }
        match find_host(&self.hosts, name) {
            Some(at) => {
                proof {
                    lemma_table_at(self.hosts@, host_name(), at as int);
                }
                match self.authorize(caller, action, &self.hosts[at].tags) {
                    Ok(()) => Ok(at),
                    Err(error) => Err(error),
                }
            },
            None => {
                let none: TagSet = HashSet::new();
                match self.authorize(caller, action, &none) {
                    Ok(()) => Err(StateError::NotFound),
                    Err(error) => Err(error),
                }
            },
        }
    }
}

/// What a host is told that says it runs `store_path`.
pub open spec fn decision(host: HostView, store_path: Seq<char>) -> ActionView {
    if host.detached {
        ActionView::Detach
    } else {
        match host.desired_version {
            Some(remote) => if remote.store_path == store_path {
                ActionView::Nothing
            } else {
                ActionView::SwitchTo(remote)
            },
            None => ActionView::Nothing,
        }
    }
}

/// What `host` is told when it says it runs `store_path`.
pub fn decide(host: &Host, store_path: &str) -> (action: AgentAction)
    ensures
        action@ == decision(host@, store_path@),
{
    if host.detached {
        return AgentAction::Detach;
    }
    match &host.desired_version {
        Some(remote) => {
            if remote.store_path == store_path.to_owned() {
                AgentAction::Nothing
            } else {
                AgentAction::SwitchTo(remote.copy())
            }
        },
        None => AgentAction::Nothing,
    }
}

/// The host named `name`, for a caller that may perform `action` on it. Who
/// may not perform `action` on a host without tags does not learn that there
/// is no such host.
pub open spec fn access(state: StateView, caller: PublicKey, action: Action, name: Seq<char>) -> Result<
    HostView,
    StateError,
> {
    if state.hosts.contains_key(name) {
        if permitted(state, caller, action, state.hosts[name].tags) {
            Ok(state.hosts[name])
        } else {
            Err(StateError::Forbidden)
        }
    } else if permitted(state, caller, action, Set::empty()) {
        Err(StateError::NotFound)
    } else {
        Err(StateError::Forbidden)
    }
}

/// The host that is renamed from `current` to `new` by `caller`, or why it is
/// not.
pub open spec fn renaming(state: StateView, caller: PublicKey, current: Seq<char>, new: Seq<char>) -> Result<
    HostView,
    StateError,
> {
    match access(state, caller, Action::Host(crate::auth::Host::Rename), current) {
        Err(error) => Err(error),
        Ok(host) => if new != current && state.hosts.contains_key(new) {
            Err(StateError::Conflict)
        } else {
            Ok(host)
        },
    }
}

/// Whether `caller` may list `host`.
pub open spec fn visible(state: StateView, caller: PublicKey, host: HostView) -> bool {
    permitted(state, caller, Action::Status(crate::auth::Status::ListHosts), host.tags)
}

/// The names in a list of updates.
pub open spec fn names_of(updates: Seq<(String, String)>) -> Seq<Seq<char>> {
    updates.map_values(|update: (String, String)| update.0@)
}

/// The store paths in a list of updates.
pub open spec fn paths_of(updates: Seq<(String, String)>) -> Seq<Seq<char>> {
    updates.map_values(|update: (String, String)| update.1@)
}

/// Whether `caller` may publish versions for all of `names`: why not, by the
/// first of the names for which it may not or that is the name of no host.
pub open spec fn publishable(state: StateView, caller: PublicKey, names: Seq<Seq<char>>) -> Result<
    (),
    StateError,
>
    decreases names.len(),
{
    if names.len() == 0 {
        Ok(())
    } else {
        match access(state, caller, Action::Host(crate::auth::Host::Update), names[0]) {
            Err(error) => Err(error),
            Ok(_) => publishable(state, caller, names.skip(1)),
        }
    }
}

/// The hosts once each host in `names` is to run the store path at the same
/// place in `paths`. A name that is that of no host changes nothing.
pub open spec fn published(
    hosts: Map<Seq<char>, HostView>,
    names: Seq<Seq<char>>,
    paths: Seq<Seq<char>>,
    substitutor: Seq<char>,
    public_key: Seq<char>,
) -> Map<Seq<char>, HostView>
    decreases names.len(),
{
    if names.len() == 0 || paths.len() == 0 {
        hosts
    } else {
        let before = published(hosts, names.drop_last(), paths.drop_last(), substitutor, public_key);
        if before.contains_key(names.last()) {
            before.insert(
                names.last(),
                HostView {
                    desired_version: Some(
                        RemoteView { store_path: paths.last(), substitutor, public_key },
                    ),
                    ..before[names.last()]
                },
            )
        } else {
            before
        }
    }
}

/// The host that `caller` detaches by the name `hostname`, or why it does
/// not: a host may detach itself where it is allowed to, and who may attach a
/// host may detach it.
pub open spec fn detaching(state: StateView, caller: PublicKey, hostname: Seq<char>) -> Result<
    HostView,
    StateError,
> {
    if state.hosts.contains_key(hostname) && state.hosts[hostname].key == caller
        && state.hosts[hostname].detach_allowed {
        Ok(state.hosts[hostname])
    } else {
        access(state, caller, Action::Host(crate::auth::Host::Attach), hostname)
    }
}

/// The attempts that are alive at `now` and were not made by `key`.
pub open spec fn others(attempts: Map<u32, AttemptView>, key: PublicKey, now: u64) -> Map<
    u32,
    AttemptView,
> {
    attempts.restrict(
        Set::new(
            |code: u32|
                attempts.contains_key(code) && alive(attempts[code].created_at, now)
                    && attempts[code].key != key,
        ),
    )
}

/// The `step`th code counting from the one that `seed` names, going round
/// after the last.
pub open spec fn candidate(seed: u32, step: nat) -> u32 {
    (FIRST_CODE + (seed % CODES + step) % (CODES as int)) as u32
}

/// The first code that is not taken, counting from the `step`th after the one
/// that `seed` names, if one of the codes from there on is free.
pub open spec fn first_free(taken: Set<u32>, seed: u32, step: nat) -> Option<u32>
    decreases CODES - step,
{
    if step >= CODES {
        None
    } else if !taken.contains(candidate(seed, step)) {
        Some(candidate(seed, step))
    } else {
        first_free(taken, seed, step + 1)
    }
}

/// Every code has four digits.
pub proof fn lemma_codes_have_four_digits(taken: Set<u32>, seed: u32, step: nat)
    ensures
        first_free(taken, seed, step) matches Some(code) ==> 1000 <= code <= 9999 && !taken.contains(
            code,
        ),
    decreases CODES - step,
{
    if step < CODES && taken.contains(candidate(seed, step)) {
        lemma_codes_have_four_digits(taken, seed, step + 1);
    }
}

/// The code that an attempt by `key` gets, if it gets one: none where the key
/// is that of a host, and none where every code is taken by another attempt.
pub open spec fn admission(state: StateView, key: PublicKey, seed: u32, now: u64) -> Option<u32> {
    if host_with(state.hosts, key) is Some {
        None
    } else {
        first_free(others(state.attempts, key, now).dom(), seed, 0)
    }
}

/// The host that comes of the attempt with `code` when `caller` approves it
/// under the name `hostname`, or why none does.
pub open spec fn approval(
    state: StateView,
    caller: PublicKey,
    code: u32,
    hostname: Seq<char>,
    now: u64,
) -> Result<HostView, StateError> {
    if !permitted(state, caller, Action::Host(crate::auth::Host::Accept), Set::empty()) {
        Err(StateError::Forbidden)
    } else if !state.attempts.contains_key(code) || !alive(state.attempts[code].created_at, now) {
        Err(StateError::NotFound)
    } else if state.hosts.contains_key(hostname) || host_with(
        state.hosts,
        state.attempts[code].key,
    ) is Some {
        Err(StateError::Conflict)
    } else {
        Ok(
            HostView {
                name: hostname,
                key: state.attempts[code].key,
                tags: Set::empty(),
                current_version: Some(state.attempts[code].store_path),
                desired_version: None,
                detach_allowed: false,
                detached: false,
            },
        )
    }
}

/// What a read of `secret` by the host named `host` may answer.
pub open spec fn read_answers(
    state: StateView,
    secret: Seq<char>,
    host: Seq<char>,
    recipient: Seq<char>,
    answer: Result<Option<Vec<u8>>, StateError>,
) -> bool {
    if readers(state.acl, secret).contains(host) && state.secrets.contains_key(secret) {
        match answer {
            Ok(Some(ciphertext)) => plaintext(state.identity, state.secrets[secret]) matches Some(
                message,
            ) && crate::keys::sealed_for(recipient, message, ciphertext@),
            Ok(None) => false,
            Err(StateError::Secret(SecretStoreError::DecryptionError(_))) => plaintext(
                state.identity,
                state.secrets[secret],
            ) is None,
            Err(StateError::Secret(SecretStoreError::EncryptError(_))) => plaintext(
                state.identity,
                state.secrets[secret],
            ) is Some,
            Err(_) => false,
        }
    } else {
        answer matches Ok(None)
    }
}

/// The map of hosts that a list of hosts stands for.
spec fn hosts_of(hosts: Seq<Host>) -> Map<Seq<char>, HostView> {
    table(hosts, host_name()).map_values(|host: Host| host@)
}

/// The host with a key is the one entry of the list that has it.
proof fn lemma_host_with(hosts: Seq<Host>, key: PublicKey, found: Option<usize>)
    requires
        distinct(hosts, host_name()),
        distinct(hosts, host_key()),
        match found {
            Some(i) => i < hosts.len() && hosts[i as int].key == key,
            None => !listed(hosts, host_key(), key),
        },
    ensures
        host_with(hosts_of(hosts), key) == match found {
            Some(i) => Some(hosts[i as int]@),
            None => None,
        },
{
    let map = hosts_of(hosts);
    match found {
        Some(i) => {
            lemma_table_at(hosts, host_name(), i as int);
            assert(map.contains_key(hosts[i as int].name@) && map[hosts[i as int].name@].key == key);
            let name = choose|name: Seq<char>| map.contains_key(name) && (#[trigger] map[name]).key == key;
            let j = place(hosts, host_name(), name);
            lemma_table_at(hosts, host_name(), j);
            if j < i {
                assert(host_key()(hosts[j]) != host_key()(hosts[i as int]));
            }
            if i < j {
                assert(host_key()(hosts[i as int]) != host_key()(hosts[j]));
            }
        },
        None => {
            if exists|name: Seq<char>| map.contains_key(name) && (#[trigger] map[name]).key == key {
                let name = choose|name: Seq<char>| map.contains_key(name) && (#[trigger] map[name]).key == key;
                let j = place(hosts, host_name(), name);
                lemma_table_at(hosts, host_name(), j);
                assert(host_key()(hosts[j]) == key);
            }
        },
    }
}

/// A list stays free of repeated keys when an entry with a new key is added.
proof fn lemma_push_keeps_distinct<E, K>(entries: Seq<E>, key: spec_fn(E) -> K, entry: E)
    requires
        distinct(entries, key),
        !listed(entries, key, key(entry)),
    ensures
        distinct(entries.push(entry), key),
{
    lemma_table_push(entries, key, entry);
}

/// A list stays free of repeated keys when an entry is dropped.
proof fn lemma_remove_keeps_distinct<E, K>(entries: Seq<E>, key: spec_fn(E) -> K, i: int)
    requires
        distinct(entries, key),
        0 <= i < entries.len(),
    ensures
        distinct(entries.remove(i), key),
{
    lemma_table_remove(entries, key, i);
}

/// The position of the host named `name`, if there is one.
fn find_host(hosts: &Vec<Host>, name: &String) -> (found: Option<usize>)
    ensures
        match found {
            Some(i) => i < hosts.len() && hosts[i as int].name@ == name@,
            None => !listed(hosts@, host_name(), name@),
        },
{
    let mut i: usize = 0;
    while i < hosts.len()
        invariant
            i <= hosts.len(),
            forall|k: int| 0 <= k < i ==> (#[trigger] hosts[k]).name@ != name@,
        decreases hosts.len() - i,
    {
        if hosts[i].name == *name {
            return Some(i);
        }
        i += 1;
    }
    None
}

/// The position of the host that has `key`, if there is one.
fn find_host_by_key(hosts: &Vec<Host>, key: &PublicKey) -> (found: Option<usize>)
    ensures
        match found {
            Some(i) => i < hosts.len() && hosts[i as int].key == *key,
            None => !listed(hosts@, host_key(), *key),
        },
{
    let mut i: usize = 0;
    while i < hosts.len()
        invariant
            i <= hosts.len(),
            forall|k: int| 0 <= k < i ==> (#[trigger] hosts[k]).key != *key,
        decreases hosts.len() - i,
    {
        if hosts[i].key == *key {
            return Some(i);
        }
        i += 1;
    }
    None
}

/// The position of the attempt with `code`, if there is one.
fn find_attempt(attempts: &Vec<PendingAttempt>, code: u32) -> (found: Option<usize>)
    ensures
        match found {
            Some(i) => i < attempts.len() && attempts[i as int].code == code,
            None => !listed(attempts@, attempt_code(), code),
        },
{
    let mut i: usize = 0;
    while i < attempts.len()
        invariant
            i <= attempts.len(),
            forall|k: int| 0 <= k < i ==> (#[trigger] attempts[k]).code != code,
        decreases attempts.len() - i,
    {
        if attempts[i].code == code {
            return Some(i);
        }
        i += 1;
    }
    None
}

/// Puts `host` in the place of the host at `i`, which has the same name and
/// the same key.
fn replace_host(hosts: &mut Vec<Host>, i: usize, host: Host)
    requires
        i < old(hosts).len(),
        distinct(old(hosts)@, host_name()),
        distinct(old(hosts)@, host_key()),
        host.name@ == old(hosts)[i as int].name@,
        host.key == old(hosts)[i as int].key,
    ensures
        distinct(final(hosts)@, host_name()),
        distinct(final(hosts)@, host_key()),
        hosts_of(final(hosts)@) == hosts_of(old(hosts)@).insert(host.name@, host@),
{
    proof {
        lemma_table_update(hosts@, host_name(), i as int, host);
        lemma_table_update(hosts@, host_key(), i as int, host);
    }
    hosts[i] = host;
    assert(hosts_of(hosts@) =~= hosts_of(old(hosts)@).insert(host.name@, host@));
}

/// The attempts that are alive at `now` and were not made by `key`, copied.
fn keep_others(attempts: &Vec<PendingAttempt>, key: &PublicKey, now: u64) -> (kept: Vec<
    PendingAttempt,
>)
    requires
        distinct(attempts@, attempt_code()),
        distinct(attempts@, attempt_key()),
    ensures
        distinct(kept@, attempt_code()),
        distinct(kept@, attempt_key()),
        !listed(kept@, attempt_key(), *key),
        table(kept@, attempt_code()).map_values(|attempt: PendingAttempt| attempt@) == others(
            table(attempts@, attempt_code()).map_values(|attempt: PendingAttempt| attempt@),
            *key,
            now,
        ),
{
    let mut kept: Vec<PendingAttempt> = Vec::new();
    let mut i: usize = 0;
    // Which of the first `i` attempts each kept one copies.
    let ghost mut origin: Seq<int> = Seq::empty();
    while i < attempts.len()
        invariant
            i <= attempts.len(),
            origin.len() == kept.len(),
            forall|k: int|
                0 <= k < kept.len() ==> 0 <= #[trigger] origin[k] < i && kept[k]@
                    == attempts[origin[k]]@,
            forall|a: int, b: int| 0 <= a < b < kept.len() ==> origin[a] < origin[b],
            forall|j: int|
                0 <= j < i && alive((#[trigger] attempts[j]).created_at, now) && attempts[j].key
                    != *key ==> exists|k: int| 0 <= k < kept.len() && #[trigger] origin[k] == j,
            forall|k: int|
                0 <= k < kept.len() ==> alive(attempts[#[trigger] origin[k]].created_at, now)
                    && attempts[origin[k]].key != *key,
        decreases attempts.len() - i,
    {
        let attempt = &attempts[i];
        if attempt.is_alive(now) && attempt.key != *key {
            kept.push(
                PendingAttempt {
                    code: attempt.code,
                    key: attempt.key,
                    store_path: attempt.store_path.clone(),
                    artifacts: VerificationArtifacts {
                        nixos_facter: match &attempt.artifacts.nixos_facter {
                            Some(facts) => Some(facts.clone()),
                            None => None,
                        },
                    },
                    created_at: attempt.created_at,
                },
            );
            proof {
                let ghost before = origin;
                origin = origin.push(i as int);
                assert forall|j: int|
                    0 <= j < i + 1 && alive((#[trigger] attempts[j]).created_at, now)
                        && attempts[j].key != *key implies exists|k: int|
                    0 <= k < kept.len() && #[trigger] origin[k] == j by {
                    if j < i {
                        let k = choose|k: int| 0 <= k < before.len() && #[trigger] before[k] == j;
                        assert(origin[k] == j);
                    } else {
                        assert(origin[kept.len() - 1] == j);
                    }
                }
            }
        }
        i += 1;
    }
    proof {
        let all = attempts@;
        let code = attempt_code();
        let view = |attempt: PendingAttempt| attempt@;
        assert forall|a: int, b: int| 0 <= a < b < kept.len() implies code(#[trigger] kept@[a])
            != code(#[trigger] kept@[b]) by {
            assert(code(all[origin[a]]) != code(all[origin[b]]));
        }
        assert forall|a: int, b: int| 0 <= a < b < kept.len() implies attempt_key()(
            #[trigger] kept@[a],
        ) != attempt_key()(#[trigger] kept@[b]) by {
            assert(attempt_key()(all[origin[a]]) != attempt_key()(all[origin[b]]));
        }
        if listed(kept@, attempt_key(), *key) {
            let k = place(kept@, attempt_key(), *key);
            assert(kept@[k]@ == all[origin[k]]@);
        }
        let left = table(kept@, code).map_values(view);
        let right = others(table(all, code).map_values(view), *key, now);
        assert forall|c: u32| left.contains_key(c) <==> right.contains_key(c) by {
            if left.contains_key(c) {
                let k = place(kept@, code, c);
                lemma_table_at(all, code, origin[k]);
            }
            if right.contains_key(c) {
                let j = place(all, code, c);
                lemma_table_at(all, code, j);
                let k = choose|k: int| 0 <= k < kept.len() && #[trigger] origin[k] == j;
                lemma_table_at(kept@, code, k);
            }
        }
        assert forall|c: u32| left.contains_key(c) implies #[trigger] left[c] == right[c] by {
            let k = place(kept@, code, c);
            lemma_table_at(kept@, code, k);
            lemma_table_at(all, code, origin[k]);
        }
        assert(left =~= right);
    }
    kept
}

/// The first code that none of `attempts` has, counting from the one that
/// `seed` names.
fn free_code(attempts: &Vec<PendingAttempt>, seed: u32) -> (code: Option<u32>)
    ensures
        code == first_free(
            table(attempts@, attempt_code()).map_values(|attempt: PendingAttempt| attempt@).dom(),
            seed,
            0,
        ),
        code matches Some(free) ==> !listed(attempts@, attempt_code(), free),
{
    let ghost taken = table(attempts@, attempt_code()).map_values(
        |attempt: PendingAttempt| attempt@,
    ).dom();
    let start = seed % CODES;
    let mut step: u32 = 0;
    while step < CODES
        invariant
            step <= CODES,
            start == seed % CODES,
            taken == table(attempts@, attempt_code()).map_values(
                |attempt: PendingAttempt| attempt@,
            ).dom(),
            first_free(taken, seed, 0) == first_free(taken, seed, step as nat),
        decreases CODES - step,
    {
        let code = FIRST_CODE + (start + step) % CODES;
        if find_attempt(attempts, code).is_none() {
            return Some(code);
        }
        step += 1;
    }
    None
}

} // verus!
