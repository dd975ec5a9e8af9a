//! The state of the coordinator as it is written to disk and read back.
//!
//! A snapshot holds the state as plain lists, in the order in which the state
//! keeps them; sets of tags are written in rising order. So a state that is
//! read from a snapshot and written again gives the snapshot it was read
//! from.

use crate::auth::{
    all_ascending, ascending, grant_key, grants_map, grants_of, lemma_ascending_is_unique,
    sorted_tags, tag_set, Action, PolicyStore, Tag,
};
use crate::host::{AttemptView, Host, HostView, PendingAttempt};
use crate::key::PublicKey;
use crate::keyed::{distinct, lemma_table_push, listed, table};
use crate::keys::{is_identity, is_recipient, public_key, Identity};
use crate::secret_store::{acl_pairs, each_once, first, pairs_map, secret_pairs, SecretStore};
use crate::state::{
    attempt_code, attempt_key, find_attempt, find_host, find_host_by_key, host_key, host_name,
    AppState, StateView,
};
use crate::version::{RemoteStorePath, RemoteView};
use vstd::prelude::*;

verus! {

/// A host as it is written.
#[derive(Debug)]
pub struct HostRecord {
    pub name: String,
    pub key: PublicKey,
    /// The tags of the host, in rising order where the record was written
    /// from a state.
    pub tags: Vec<Tag>,
    pub current_version: Option<String>,
    pub desired_version: Option<RemoteStorePath>,
    pub detach_allowed: bool,
    pub detached: bool,
}

/// What a host record is, as plain values.
pub struct RecordView {
    pub name: Seq<char>,
    pub key: PublicKey,
    pub tags: Seq<Tag>,
    pub current_version: Option<Seq<char>>,
    pub desired_version: Option<RemoteView>,
    pub detach_allowed: bool,
    pub detached: bool,
}

impl View for HostRecord {
    type V = RecordView;

    open spec fn view(&self) -> RecordView {
        RecordView {
            name: self.name@,
            key: self.key,
            tags: self.tags@,
            current_version: match self.current_version {
                Some(path) => Some(path@),
                None => None,
            },
            desired_version: match self.desired_version {
                Some(remote) => Some(remote@),
                None => None,
            },
            detach_allowed: self.detach_allowed,
            detached: self.detached,
        }
    }
}

/// The host that a record stands for.
pub open spec fn host_of(record: RecordView) -> HostView {
    HostView {
        name: record.name,
        key: record.key,
        tags: record.tags.to_set(),
        current_version: record.current_version,
        desired_version: record.desired_version,
        detach_allowed: record.detach_allowed,
        detached: record.detached,
    }
}

/// The state as it is written.
#[derive(Debug)]
pub struct Snapshot {
    pub hosts: Vec<HostRecord>,
    pub verification_attempts: Vec<PendingAttempt>,
    pub secrets: Vec<(String, Vec<u8>)>,
    pub acl: Vec<(String, Vec<String>)>,
    pub tags: Vec<Tag>,
    pub policies: Vec<(PublicKey, Action, Vec<Tag>)>,
    pub server_identity: String,
    pub admin_keys: Vec<PublicKey>,
}

/// What a snapshot is, as plain values.
pub struct SnapshotView {
    pub hosts: Seq<RecordView>,
    pub verification_attempts: Seq<AttemptView>,
    pub secrets: Seq<(Seq<char>, Seq<u8>)>,
    pub acl: Seq<(Seq<char>, Seq<Seq<char>>)>,
    pub tags: Seq<Tag>,
    pub policies: Seq<(PublicKey, Action, Seq<Tag>)>,
    pub server_identity: Seq<char>,
    pub admin_keys: Seq<PublicKey>,
}

impl View for Snapshot {
    type V = SnapshotView;

    open spec fn view(&self) -> SnapshotView {
        SnapshotView {
            hosts: self.hosts@.map_values(|record: HostRecord| record@),
            verification_attempts: self.verification_attempts@.map_values(
                |attempt: PendingAttempt| attempt@,
            ),
            secrets: secret_pairs(self.secrets@),
            acl: acl_pairs(self.acl@),
            tags: self.tags@,
            policies: self.policies@.map_values(
                |policy: (PublicKey, Action, Vec<Tag>)| (policy.0, policy.1, policy.2@),
            ),
            server_identity: self.server_identity@,
            admin_keys: self.admin_keys@,
        }
    }
}

/// The hosts that the records of a snapshot stand for.
pub open spec fn hosts_in(snapshot: SnapshotView) -> Seq<HostView> {
    snapshot.hosts.map_values(|record: RecordView| host_of(record))
}

/// What the policies of a snapshot grant.
pub open spec fn grants_in(snapshot: SnapshotView) -> Seq<(PublicKey, Action, Set<Tag>)> {
    snapshot.policies.map_values(
        |policy: (PublicKey, Action, Seq<Tag>)| (policy.0, policy.1, policy.2.to_set()),
    )
}

/// Whether the snapshot holds what the state holds, in the same order.
pub open spec fn holds(snapshot: SnapshotView, state: AppState) -> bool {
    &&& hosts_in(snapshot) == state.host_list()
    &&& snapshot.verification_attempts == state.attempt_list()
    &&& snapshot.secrets == state.secret_list()
    &&& snapshot.acl == state.acl_list()
    &&& snapshot.tags.to_set() == state.tag_set()
    &&& grants_in(snapshot) == state.policy_list()
    &&& snapshot.server_identity == state.identity()
    &&& snapshot.admin_keys == state.admin_list()
}

/// Whether every set of tags in the snapshot is written in rising order.
pub open spec fn canonical(snapshot: SnapshotView) -> bool {
    &&& ascending(snapshot.tags)
    &&& forall|i: int| 0 <= i < snapshot.hosts.len() ==> ascending((#[trigger] snapshot.hosts[i]).tags)
    &&& forall|i: int|
        0 <= i < snapshot.policies.len() ==> ascending((#[trigger] snapshot.policies[i]).2)
}

/// The name of a host.
pub open spec fn name_in() -> spec_fn(HostView) -> Seq<char> {
    |host: HostView| host.name
}

/// The key of a host.
pub open spec fn key_in() -> spec_fn(HostView) -> PublicKey {
    |host: HostView| host.key
}

/// The code of an attempt.
pub open spec fn code_in() -> spec_fn(AttemptView) -> u32 {
    |attempt: AttemptView| attempt.code
}

/// The key of an attempt.
pub open spec fn asker_in() -> spec_fn(AttemptView) -> PublicKey {
    |attempt: AttemptView| attempt.key
}

/// What is wrong with a snapshot.
#[derive(Debug, Clone, Copy, PartialEq, Eq, Structural)]
pub enum RestoreError {
    /// The identity of the server is none, or nothing can be encrypted to
    /// it.
    Identity,
    /// Two hosts have the same name or the same key.
    Hosts,
    /// Two attempts have the same code or the same key.
    Attempts,
    /// Two secrets have the same name, or two access lists, or an access
    /// list names a host twice.
    Secrets,
    /// Two policies are for the same owner and action.
    Policies,
}

/// What is wrong with a snapshot, if anything: the first of these that
/// holds.
pub open spec fn fault(snapshot: SnapshotView) -> Option<RestoreError> {
    if !(is_identity(snapshot.server_identity) && is_recipient(
        public_key(snapshot.server_identity),
    )) {
        Some(RestoreError::Identity)
    } else if !(distinct(hosts_in(snapshot), name_in()) && distinct(hosts_in(snapshot), key_in())) {
        Some(RestoreError::Hosts)
    } else if !(distinct(snapshot.verification_attempts, code_in()) && distinct(
        snapshot.verification_attempts,
        asker_in(),
    )) {
        Some(RestoreError::Attempts)
    } else if !(distinct(snapshot.secrets, first::<Seq<u8>>()) && distinct(
        snapshot.acl,
        first::<Seq<Seq<char>>>(),
    ) && each_once(snapshot.acl)) {
        Some(RestoreError::Secrets)
    } else if !distinct(grants_in(snapshot), grant_key::<PublicKey>()) {
        Some(RestoreError::Policies)
    } else {
        None
    }
}

impl AppState {
    /// The state as it is written: its lists in the order in which they are
    /// kept, and every set of tags in rising order. What is written can be
    /// read back.
    pub fn export(&self) -> (snapshot: Snapshot)
        ensures
            holds(snapshot@, *self),
            canonical(snapshot@),
            fault(snapshot@) is None,
    {
        proof {
            use_type_invariant(self);
        }
        let mut hosts: Vec<HostRecord> = Vec::new();
        let mut i: usize = 0;
        while i < self.hosts.len()
            invariant
                i <= self.hosts.len(),
                hosts.len() == i,
                forall|k: int|
                    0 <= k < i ==> host_of((#[trigger] hosts[k])@) == self.hosts[k]@ && ascending(
                        hosts[k].tags@,
                    ),
            decreases self.hosts.len() - i,
        {
            let host = &self.hosts[i];
            hosts.push(
                HostRecord {
                    name: host.name.clone(),
                    key: host.key,
                    tags: sorted_tags(&host.tags),
                    current_version: match &host.current_version {
                        Some(path) => Some(path.clone()),
                        None => None,
                    },
                    desired_version: match &host.desired_version {
                        Some(remote) => Some(remote.copy()),
                        None => None,
                    },
                    detach_allowed: host.detach_allowed,
                    detached: host.detached,
                },
            );
            i += 1;
        }
        let mut attempts: Vec<PendingAttempt> = Vec::new();
        let mut j: usize = 0;
        while j < self.verification_attempts.len()
            invariant
                j <= self.verification_attempts.len(),
                attempts.len() == j,
                forall|k: int|
                    0 <= k < j ==> (#[trigger] attempts[k])@ == self.verification_attempts[k]@,
            decreases self.verification_attempts.len() - j,
        {
            attempts.push(copy_attempt(&self.verification_attempts[j]));
            j += 1;
        }
        let mut admin_keys: Vec<PublicKey> = Vec::new();
        let mut k: usize = 0;
        while k < self.admin_keys.len()
            invariant
                k <= self.admin_keys.len(),
                admin_keys.len() == k,
                forall|m: int| 0 <= m < k ==> #[trigger] admin_keys[m] == self.admin_keys[m],
            decreases self.admin_keys.len() - k,
        {
            admin_keys.push(self.admin_keys[k]);
            k += 1;
        }
        let (secrets, acl) = self.secret_store.export();
        let (tags, policies) = self.policy_store.export();
        let server_identity = self.server_identity.as_str().to_owned();
        let snapshot = Snapshot {
            hosts,
            verification_attempts: attempts,
            secrets,
            acl,
            tags,
            policies,
            server_identity,
            admin_keys,
        };
        proof {
            let view = snapshot@;
            assert(hosts_in(view) =~= self.host_list());
            assert(view.verification_attempts =~= self.attempt_list());
            assert(view.admin_keys =~= self.admin_list());
            assert(grants_in(view) =~= grants_of(snapshot.policies@));
            assert forall|n: int| 0 <= n < view.policies.len() implies ascending(
                (#[trigger] view.policies[n]).2,
            ) by {
                assert(ascending(snapshot.policies@[n].2@));
            }
            assert forall|n: int| 0 <= n < view.hosts.len() implies ascending(
                (#[trigger] view.hosts[n]).tags,
            ) by {
                assert(ascending(snapshot.hosts@[n].tags@));
            }
            self.secret_store.lemma_lists();
            self.policy_store.lemma_list();
            lemma_same_keys_shown(self.hosts@, hosts_in(view), host_name(), name_in());
            lemma_same_keys_shown(self.hosts@, hosts_in(view), host_key(), key_in());
            lemma_same_keys_shown(
                self.verification_attempts@,
                view.verification_attempts,
                attempt_code(),
                code_in(),
            );
            lemma_same_keys_shown(
                self.verification_attempts@,
                view.verification_attempts,
                attempt_key(),
                asker_in(),
            );
        }
        snapshot
    }

    /// The state that a snapshot holds, or what is wrong with the snapshot.
    pub fn restore(snapshot: Snapshot) -> (result: Result<AppState, RestoreError>)
        ensures
            match result {
                Ok(state) => fault(snapshot@) is None && holds(snapshot@, state),
                Err(error) => fault(snapshot@) == Some(error),
            },
    {
        let ghost view = snapshot@;
        let server_identity = match Identity::parse(snapshot.server_identity.as_str()) {
            Some(identity) => identity,
            None => {
                return Err(RestoreError::Identity);
            },
        };
        let ghost records = hosts_in(view);
        let mut hosts: Vec<Host> = Vec::new();
        let mut i: usize = 0;
        while i < snapshot.hosts.len()
            invariant
                i <= snapshot.hosts.len(),
                hosts.len() == i,
                view == snapshot@,
                records == hosts_in(view),
                is_identity(view.server_identity),
                is_recipient(public_key(view.server_identity)),
                distinct(hosts@, host_name()),
                distinct(hosts@, host_key()),
                forall|k: int| 0 <= k < i ==> (#[trigger] hosts[k])@ == records[k],
            decreases snapshot.hosts.len() - i,
        {
            let record = &snapshot.hosts[i];
            assert(records[i as int] == host_of(record@));
            let twin = find_host(&hosts, &record.name);
            let same = find_host_by_key(&hosts, &record.key);
            if twin.is_some() {
                assert(name_in()(records[twin.unwrap() as int]) == name_in()(records[i as int]));
                return Err(RestoreError::Hosts);
            }
            if same.is_some() {
                assert(key_in()(records[same.unwrap() as int]) == key_in()(records[i as int]));
                return Err(RestoreError::Hosts);
            }
            let host = Host {
                name: record.name.clone(),
                key: record.key,
                tags: tag_set(&record.tags),
                current_version: match &record.current_version {
                    Some(path) => Some(path.clone()),
                    None => None,
                },
                desired_version: match &record.desired_version {
                    Some(remote) => Some(remote.copy()),
                    None => None,
                },
                detach_allowed: record.detach_allowed,
                detached: record.detached,
            };
            proof {
                lemma_table_push(hosts@, host_name(), host);
                lemma_table_push(hosts@, host_key(), host);
            }
            hosts.push(host);
            i += 1;
        }
        proof {
            lemma_same_keys_shown(hosts@, records, host_name(), name_in());
            lemma_same_keys_shown(hosts@, records, host_key(), key_in());
        }
        let mut attempts: Vec<PendingAttempt> = Vec::new();
        let mut j: usize = 0;
        while j < snapshot.verification_attempts.len()
            invariant
                j <= snapshot.verification_attempts.len(),
                attempts.len() == j,
                view == snapshot@,
                is_identity(view.server_identity),
                is_recipient(public_key(view.server_identity)),
                distinct(hosts_in(view), name_in()),
                distinct(hosts_in(view), key_in()),
                distinct(attempts@, attempt_code()),
                distinct(attempts@, attempt_key()),
                forall|k: int|
                    0 <= k < j ==> (#[trigger] attempts[k])@ == view.verification_attempts[k],
            decreases snapshot.verification_attempts.len() - j,
        {
            let attempt = &snapshot.verification_attempts[j];
            assert(view.verification_attempts[j as int] == attempt@);
            let twin = find_attempt(&attempts, attempt.code);
            let same = find_attempt_by_key(&attempts, &attempt.key);
            if twin.is_some() {
                assert(code_in()(view.verification_attempts[twin.unwrap() as int]) == code_in()(
                    view.verification_attempts[j as int],
                ));
                return Err(RestoreError::Attempts);
            }
            if same.is_some() {
                assert(asker_in()(view.verification_attempts[same.unwrap() as int]) == asker_in()(
                    view.verification_attempts[j as int],
                ));
                return Err(RestoreError::Attempts);
            }
            let copy = copy_attempt(attempt);
            proof {
                lemma_table_push(attempts@, attempt_code(), copy);
                lemma_table_push(attempts@, attempt_key(), copy);
            }
            attempts.push(copy);
            j += 1;
        }
        proof {
            lemma_same_keys_shown(attempts@, view.verification_attempts, attempt_code(), code_in());
            lemma_same_keys_shown(attempts@, view.verification_attempts, attempt_key(), asker_in());
            assert(grants_in(view) =~= grants_of(snapshot.policies@));
        }
        let policy_store = match PolicyStore::restore(&snapshot.tags, &snapshot.policies) {
            Some(store) => Some(store),
            None => None,
        };
        let Snapshot { secrets, acl, admin_keys, .. } = snapshot;
        let secret_store = match SecretStore::restore(secrets, acl) {
            Some(store) => store,
            None => {
                return Err(RestoreError::Secrets);
            },
        };
        let policy_store = match policy_store {
            Some(store) => store,
            None => {
                return Err(RestoreError::Policies);
            },
        };
        let state = AppState {
            hosts,
            verification_attempts: attempts,
            secret_store,
            policy_store,
            server_identity,
            admin_keys,
        };
        proof {
            assert(hosts_in(view) =~= state.host_list());
            assert(view.verification_attempts =~= state.attempt_list());
        }
        Ok(state)
    }
}

/// A copy of an attempt.
fn copy_attempt(attempt: &PendingAttempt) -> (copy: PendingAttempt)
    ensures
        copy@ == attempt@,
{
    PendingAttempt {
        code: attempt.code,
        key: attempt.key,
        store_path: attempt.store_path.clone(),
        artifacts: crate::host::VerificationArtifacts {
            nixos_facter: match &attempt.artifacts.nixos_facter {
                Some(facts) => Some(facts.clone()),
                None => None,
            },
        },
        created_at: attempt.created_at,
    }
}

/// The position of the attempt that `key` made, if there is one.
fn find_attempt_by_key(attempts: &Vec<PendingAttempt>, key: &PublicKey) -> (found: Option<usize>)
    ensures
        match found {
            Some(i) => i < attempts.len() && attempts[i as int].key == *key,
            None => !listed(attempts@, attempt_key(), *key),
        },
{
    let mut i: usize = 0;
    while i < attempts.len()
        invariant
            i <= attempts.len(),
            forall|k: int| 0 <= k < i ==> (#[trigger] attempts[k]).key != *key,
        decreases attempts.len() - i,
    {
        if attempts[i].key == *key {
            return Some(i);
        }
        i += 1;
    }
    None
}

/// Two lists that show the same keys, place by place, hold a key twice
/// together.
proof fn lemma_same_keys_shown<E, W, K>(
    entries: Seq<E>,
    shown: Seq<W>,
    key: spec_fn(E) -> K,
    shown_key: spec_fn(W) -> K,
)
    requires
        entries.len() == shown.len(),
        forall|i: int| 0 <= i < entries.len() ==> key(#[trigger] entries[i]) == shown_key(shown[i]),
    ensures
        distinct(entries, key) <==> distinct(shown, shown_key),
{
    if distinct(entries, key) {
        assert forall|i: int, j: int| 0 <= i < j < shown.len() implies shown_key(
            #[trigger] shown[i],
        ) != shown_key(#[trigger] shown[j]) by {
            assert(key(entries[i]) != key(entries[j]));
        }
    }
    if distinct(shown, shown_key) {
        assert forall|i: int, j: int| 0 <= i < j < entries.len() implies key(#[trigger] entries[i])
            != key(#[trigger] entries[j]) by {
            assert(shown_key(shown[i]) != shown_key(shown[j]));
        }
    }
}

/// A state that is read from what another state wrote is that state: it
/// holds the same hosts, attempts, administrators, secrets, access lists,
/// tags and policies, and has the same identity.
pub proof fn lemma_restored_state_is_the_same(written: AppState, snapshot: SnapshotView, read: AppState)
    requires
        written.well_formed(),
        written.stores_sound(),
        read.well_formed(),
        read.stores_sound(),
        holds(snapshot, written),
        holds(snapshot, read),
    ensures
        read@ == written@,
{
    written.lemma_view_from_lists();
    read.lemma_view_from_lists();
}

/// Reading a snapshot and writing the state again gives the same snapshot:
/// the same lists in the same order, every set of tags written as it was.
pub proof fn lemma_snapshot_is_idempotent(
    written: SnapshotView,
    state: AppState,
    rewritten: SnapshotView,
)
    requires
        canonical(written),
        holds(written, state),
        canonical(rewritten),
        holds(rewritten, state),
    ensures
        rewritten == written,
{
    lemma_ascending_is_unique(written.tags, rewritten.tags);
    assert(written.hosts.len() == hosts_in(written).len());
    assert(rewritten.hosts.len() == hosts_in(rewritten).len());
    assert forall|i: int| 0 <= i < written.hosts.len() implies written.hosts[i]
        == rewritten.hosts[i] by {
        assert(hosts_in(written)[i] == host_of(written.hosts[i]));
        assert(hosts_in(rewritten)[i] == host_of(rewritten.hosts[i]));
        lemma_ascending_is_unique(written.hosts[i].tags, rewritten.hosts[i].tags);
    }
    assert(written.hosts =~= rewritten.hosts);
    assert(written.policies.len() == grants_in(written).len());
    assert(rewritten.policies.len() == grants_in(rewritten).len());
    assert forall|i: int| 0 <= i < written.policies.len() implies written.policies[i]
        == rewritten.policies[i] by {
        assert(grants_in(written)[i] == (
            written.policies[i].0,
            written.policies[i].1,
            written.policies[i].2.to_set(),
        ));
        assert(grants_in(rewritten)[i] == (
            rewritten.policies[i].0,
            rewritten.policies[i].1,
            rewritten.policies[i].2.to_set(),
        ));
        lemma_ascending_is_unique(written.policies[i].2, rewritten.policies[i].2);
    }
    assert(written.policies =~= rewritten.policies);
}

} // verus!
