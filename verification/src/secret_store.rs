//! Secrets encrypted at rest, with a list of the hosts that may read each.
//!
//! Every secret is kept as a ciphertext for one store key. A host that is on a
//! secret's access list gets the secret decrypted and encrypted again, to the
//! recipient it names; any other request learns nothing, not even whether the
//! secret exists.

use crate::keys::{plaintext, sealed_for, Identity, Recipient};
use crate::keyed::{distinct, lemma_same_keys, lemma_table_at, listed, place, table};
use crate::names::{find, name_of, put, take, Named};
use crate::text::{contains, copy_of, discard, renamed, replace, texts, without};
use vstd::prelude::*;

verus! {

/// Why the store could not answer.
#[derive(Debug)]
pub enum SecretStoreError {
    /// The ciphertext does not decrypt with the store key.
    DecryptionError(age::DecryptError),
    /// The secret could not be encrypted to the recipient.
    EncryptError(age::EncryptError),
}

impl SecretStoreError {
    /// The message shown for this error.
    pub fn message(&self) -> (text: String)
        ensures
            text@ == match self {
                SecretStoreError::DecryptionError(_) =>
                    "Could not decrypt the secret with the provided Identity"@,
                SecretStoreError::EncryptError(_) =>
                    "Could not encrypt the secret with the provided Recipient"@,
            },
    {
        match self {
            SecretStoreError::DecryptionError(_) =>
                "Could not decrypt the secret with the provided Identity".to_owned(),
            SecretStoreError::EncryptError(_) =>
                "Could not encrypt the secret with the provided Recipient".to_owned(),
        }
    }

    /// The HTTP status that reports this error: a stored secret that cannot be
    /// decrypted or encrypted again is a fault of the server.
    pub fn status(&self) -> (code: u16)
        ensures
            code == 500,
    {
        500
    }
}

impl From<age::DecryptError> for SecretStoreError {
    fn from(error: age::DecryptError) -> (wrapped: SecretStoreError) {
        SecretStoreError::DecryptionError(error)
    }
}

impl vstd::std_specs::convert::FromSpecImpl<age::DecryptError> for SecretStoreError {
    open spec fn obeys_from_spec() -> bool {
        true
    }

    open spec fn from_spec(error: age::DecryptError) -> SecretStoreError {
        SecretStoreError::DecryptionError(error)
    }
}

impl From<age::EncryptError> for SecretStoreError {
    fn from(error: age::EncryptError) -> (wrapped: SecretStoreError) {
        SecretStoreError::EncryptError(error)
    }
}

impl vstd::std_specs::convert::FromSpecImpl<age::EncryptError> for SecretStoreError {
    open spec fn obeys_from_spec() -> bool {
        true
    }

    open spec fn from_spec(error: age::EncryptError) -> SecretStoreError {
        SecretStoreError::EncryptError(error)
    }
}

/// The hosts that `acl` lets read `secret`: none where it has no entry.
pub open spec fn readers(acl: Map<Seq<char>, Seq<Seq<char>>>, secret: Seq<char>) -> Seq<
    Seq<char>,
> {
    if acl.contains_key(secret) {
        acl[secret]
    } else {
        Seq::empty()
    }
}

/// `hosts` with `host` on it: `hosts` itself where it names `host` already,
/// else `hosts` with `host` at its end.
pub open spec fn granted(hosts: Seq<Seq<char>>, host: Seq<char>) -> Seq<Seq<char>> {
    if hosts.contains(host) {
        hosts
    } else {
        hosts.push(host)
    }
}

/// Whether no list among `acl` names a host twice: whether each is a set of
/// hosts.
pub open spec fn sets(acl: Map<Seq<char>, Seq<Seq<char>>>) -> bool {
    forall|secret: Seq<char>| acl.contains_key(secret) ==> (#[trigger] acl[secret]).no_duplicates()
}

/// `hosts` with each host once, at the place where it is named first.
pub open spec fn unique(hosts: Seq<Seq<char>>) -> Seq<Seq<char>>
    decreases hosts.len(),
{
    if hosts.len() == 0 {
        Seq::empty()
    } else {
        granted(unique(hosts.drop_last()), hosts.last())
    }
}

/// `unique` names the hosts of the list, each once, and leaves a list alone
/// that names no host twice.
pub proof fn lemma_unique(hosts: Seq<Seq<char>>)
    ensures
        unique(hosts).no_duplicates(),
        forall|host: Seq<char>| #[trigger] unique(hosts).contains(host) <==> hosts.contains(host),
        hosts.no_duplicates() ==> unique(hosts) == hosts,
    decreases hosts.len(),
{
    if hosts.len() > 0 {
        let rest = hosts.drop_last();
        let last = hosts.last();
        let shown = unique(rest);
        let all = unique(hosts);
        lemma_unique(rest);
        assert forall|host: Seq<char>| #[trigger] all.contains(host) <==> hosts.contains(host) by {
            if all.contains(host) {
                let k = choose|k: int| 0 <= k < all.len() && all[k] == host;
                if k < shown.len() {
                    assert(shown[k] == host);
                    assert(shown.contains(host));
                    let m = choose|m: int| 0 <= m < rest.len() && rest[m] == host;
                    assert(hosts[m] == host);
                } else {
                    assert(hosts[hosts.len() - 1] == host);
                }
            }
            if hosts.contains(host) {
                let m = choose|m: int| 0 <= m < hosts.len() && hosts[m] == host;
                if m < rest.len() {
                    assert(rest[m] == host);
                    assert(rest.contains(host));
                    assert(shown.contains(host));
                    let k = choose|k: int| 0 <= k < shown.len() && shown[k] == host;
                    assert(all[k] == host);
                } else if shown.contains(last) {
                } else {
                    assert(all[all.len() - 1] == host);
                }
            }
        }
        if hosts.no_duplicates() {
            assert(rest.no_duplicates());
            assert(!rest.contains(last)) by {
                if rest.contains(last) {
                    let m = choose|m: int| 0 <= m < rest.len() && rest[m] == last;
                    assert(hosts[m] == hosts[hosts.len() - 1]);
                }
            }
            assert(all =~= hosts);
        }
    } else {
        assert(unique(hosts) =~= hosts);
    }
}

/// `hosts` with the host `current` named `new`. Where `new` is on the list
/// already, `current` is taken off it, so that no host comes to be named a
/// second time.
pub open spec fn renamed_host(hosts: Seq<Seq<char>>, current: Seq<char>, new: Seq<char>) -> Seq<
    Seq<char>,
> {
    if current != new && hosts.contains(new) {
        without(hosts, current)
    } else {
        renamed(hosts, current, new)
    }
}

/// The access lists once `host` has been let read `secret`.
pub open spec fn with_grant(acl: Map<Seq<char>, Seq<Seq<char>>>, secret: Seq<char>, host: Seq<char>) -> Map<
    Seq<char>,
    Seq<Seq<char>>,
> {
    acl.insert(secret, granted(readers(acl, secret), host))
}

/// Whether `lists` holds every access list of `acl` with the name of its
/// secret, each secret once.
pub open spec fn lists_all(acl: Map<Seq<char>, Seq<Seq<char>>>, lists: Seq<(String, Vec<String>)>) -> bool {
    &&& forall|i: int|
        0 <= i < lists.len() ==> acl.contains_key((#[trigger] lists[i]).0@) && acl[lists[i].0@]
            == texts(lists[i].1@)
    &&& forall|secret: Seq<char>|
        acl.contains_key(secret) ==> exists|i: int|
            0 <= i < lists.len() && (#[trigger] lists[i]).0@ == secret
    &&& forall|i: int, j: int|
        0 <= i < j < lists.len() ==> (#[trigger] lists[i]).0@ != (#[trigger] lists[j]).0@
}

/// The names and ciphertexts in a list of secrets.
pub open spec fn secret_pairs(secrets: Seq<(String, Vec<u8>)>) -> Seq<(Seq<char>, Seq<u8>)> {
    secrets.map_values(|secret: (String, Vec<u8>)| (secret.0@, secret.1@))
}

/// The names and hosts in a list of access lists.
pub open spec fn acl_pairs(lists: Seq<(String, Vec<String>)>) -> Seq<(Seq<char>, Seq<Seq<char>>)> {
    lists.map_values(|list: (String, Vec<String>)| (list.0@, texts(list.1@)))
}

/// Whether no list among `lists` names a host twice.
pub open spec fn each_once(lists: Seq<(Seq<char>, Seq<Seq<char>>)>) -> bool {
    forall|i: int| 0 <= i < lists.len() ==> (#[trigger] lists[i]).1.no_duplicates()
}

/// Lists without repeated names are sets together with the map that they
/// stand for.
pub proof fn lemma_each_once(lists: Seq<(Seq<char>, Seq<Seq<char>>)>)
    requires
        distinct(lists, first::<Seq<Seq<char>>>()),
    ensures
        each_once(lists) <==> sets(pairs_map(lists)),
{
    let key = first::<Seq<Seq<char>>>();
    let map = pairs_map(lists);
    if each_once(lists) {
        assert forall|secret: Seq<char>| map.contains_key(secret) implies (#[trigger] map[secret]).no_duplicates() by {
            let i = place(lists, key, secret);
            lemma_table_at(lists, key, i);
        }
    }
    if sets(map) {
        assert forall|i: int| 0 <= i < lists.len() implies (#[trigger] lists[i]).1.no_duplicates() by {
            lemma_table_at(lists, key, i);
            assert(map.contains_key(key(lists[i])));
            assert(map[key(lists[i])] == lists[i].1);
        }
    }
}

/// The name in a pair.
pub open spec fn first<V>() -> spec_fn((Seq<char>, V)) -> Seq<char> {
    |pair: (Seq<char>, V)| pair.0
}

/// The map that a list of pairs without repeated names stands for.
pub open spec fn pairs_map<V>(pairs: Seq<(Seq<char>, V)>) -> Map<Seq<char>, V> {
    table(pairs, first::<V>()).map_values(|pair: (Seq<char>, V)| pair.1)
}

/// `map` with what was filed under `current` filed under `new` instead; `map`
/// itself where nothing was filed under `current`.
pub open spec fn moved<V>(map: Map<Seq<char>, V>, current: Seq<char>, new: Seq<char>) -> Map<
    Seq<char>,
    V,
> {
    if map.contains_key(current) {
        map.remove(current).insert(new, map[current])
    } else {
        map
    }
}

/// Named ciphertexts and, for each, the hosts that may read it.
pub struct SecretStore {
    secrets: Vec<Named<Vec<u8>>>,
    acl: Vec<Named<Vec<String>>>,
}

impl SecretStore {
    #[verifier::type_invariant]
    spec fn well_formed(self) -> bool {
        distinct(self.secrets@, name_of::<Vec<u8>>()) && distinct(self.acl@, name_of::<Vec<String>>())
            && sets(self.acl())
    }

    /// The stored ciphertexts, by name.
    pub closed spec fn secrets(&self) -> Map<Seq<char>, Seq<u8>> {
        table(self.secrets@, name_of::<Vec<u8>>()).map_values(|entry: Named<Vec<u8>>| entry.value@)
    }

    /// The access lists, by the secret's name. A list keeps the order in which
    /// hosts were added and names no host twice.
    pub closed spec fn acl(&self) -> Map<Seq<char>, Seq<Seq<char>>> {
        table(self.acl@, name_of::<Vec<String>>()).map_values(
            |entry: Named<Vec<String>>| texts(entry.value@),
        )
    }

    /// The secrets in the order in which they are kept.
    pub closed spec fn secret_list(&self) -> Seq<(Seq<char>, Seq<u8>)> {
        self.secrets@.map_values(|entry: Named<Vec<u8>>| (entry.name@, entry.value@))
    }

    /// The access lists in the order in which they are kept.
    pub closed spec fn acl_list(&self) -> Seq<(Seq<char>, Seq<Seq<char>>)> {
        self.acl@.map_values(|entry: Named<Vec<String>>| (entry.name@, texts(entry.value@)))
    }

    /// What holds of every store: no name occurs twice among the secrets,
    /// nor among the access lists, and no access list names a host twice.
    pub closed spec fn sound(&self) -> bool {
        distinct(self.secrets@, name_of::<Vec<u8>>()) && distinct(
            self.acl@,
            name_of::<Vec<String>>(),
        ) && sets(self.acl())
    }

    /// The lists of a store hold no name twice and stand for its maps.
    pub proof fn lemma_lists(self)
        requires
            self.sound(),
        ensures
            distinct(self.secret_list(), first::<Seq<u8>>()),
            distinct(self.acl_list(), first::<Seq<Seq<char>>>()),
            self.secrets() == pairs_map(self.secret_list()),
            self.acl() == pairs_map(self.acl_list()),
            sets(self.acl()),
            each_once(self.acl_list()),
    {
        lemma_pairs(self.secrets@, self.secret_list(), |value: Vec<u8>| value@);
        lemma_pairs(self.acl@, self.acl_list(), |value: Vec<String>| texts(value@));
        assert(self.secrets() =~= pairs_map(self.secret_list()));
        assert(self.acl() =~= pairs_map(self.acl_list()));
        lemma_each_once(self.acl_list());
    }

    /// The secrets and the access lists, in the order in which they are
    /// kept.
    pub fn export(&self) -> (parts: (Vec<(String, Vec<u8>)>, Vec<(String, Vec<String>)>))
        ensures
            self.sound(),
            secret_pairs(parts.0@) == self.secret_list(),
            acl_pairs(parts.1@) == self.acl_list(),
            each_once(acl_pairs(parts.1@)),
    {
        proof {
            use_type_invariant(self);
        }
        let mut secrets: Vec<(String, Vec<u8>)> = Vec::new();
        let mut i: usize = 0;
        while i < self.secrets.len()
            invariant
                i <= self.secrets.len(),
                secrets.len() == i,
                forall|k: int|
                    0 <= k < i ==> (#[trigger] secrets[k]).0@ == self.secrets[k].name@
                        && secrets[k].1@ == self.secrets[k].value@,
            decreases self.secrets.len() - i,
        {
            secrets.push((self.secrets[i].name.clone(), self.secrets[i].value.clone()));
            i += 1;
        }
        assert(secret_pairs(secrets@) =~= self.secret_list());
        let mut lists: Vec<(String, Vec<String>)> = Vec::new();
        let mut j: usize = 0;
        while j < self.acl.len()
            invariant
                j <= self.acl.len(),
                lists.len() == j,
                forall|k: int|
                    0 <= k < j ==> (#[trigger] lists[k]).0@ == self.acl[k].name@ && texts(
                        lists[k].1@,
                    ) == texts(self.acl[k].value@),
            decreases self.acl.len() - j,
        {
            lists.push((self.acl[j].name.clone(), copy_of(&self.acl[j].value)));
            j += 1;
        }
        assert(acl_pairs(lists@) =~= self.acl_list());
        proof {
            self.lemma_lists();
        }
        (secrets, lists)
    }

    /// The store that keeps these secrets and access lists in this order;
    /// none where a name occurs twice among the secrets or among the lists,
    /// or a list names a host twice.
    pub fn restore(secrets: Vec<(String, Vec<u8>)>, lists: Vec<(String, Vec<String>)>) -> (store:
        Option<SecretStore>)
        ensures
            store is Some <==> distinct(secret_pairs(secrets@), first::<Seq<u8>>()) && distinct(
                acl_pairs(lists@),
                first::<Seq<Seq<char>>>(),
            ) && each_once(acl_pairs(lists@)),
            store matches Some(restored) ==> restored.sound() && restored.secret_list()
                == secret_pairs(secrets@) && restored.acl_list() == acl_pairs(lists@),
    {
        proof {
            lemma_labels(secrets@, secret_pairs(secrets@));
            lemma_labels(lists@, acl_pairs(lists@));
        }
        if !all_name_each_once(&lists) {
            return None;
        }
        let kept = match named(secrets) {
            Some(kept) => kept,
            None => {
                return None;
            },
        };
        let acl = match named(lists) {
            Some(acl) => acl,
            None => {
                return None;
            },
        };
        proof {
            let shown = acl.view().map_values(
                |entry: Named<Vec<String>>| (entry.name@, texts(entry.value@)),
            );
            assert(shown =~= acl_pairs(lists@));
            lemma_pairs(acl@, shown, |value: Vec<String>| texts(value@));
            lemma_each_once(shown);
            assert(table(acl@, name_of::<Vec<String>>()).map_values(
                |entry: Named<Vec<String>>| texts(entry.value@),
            ) =~= pairs_map(shown));
        }
        let store = SecretStore { secrets: kept, acl };
        assert(store.secret_list() =~= secret_pairs(secrets@));
        assert(store.acl_list() =~= acl_pairs(lists@));
        Some(store)
    }

    /// Whether `host` is on the access list of `secret`.
    pub open spec fn allows(&self, secret: Seq<char>, host: Seq<char>) -> bool {
        readers(self.acl(), secret).contains(host)
    }

    /// What a read of `secret` by `host` for `recipient` may answer, given the
    /// store key.
    pub open spec fn answers(
        &self,
        secret: Seq<char>,
        store_key: Seq<char>,
        host: Seq<char>,
        recipient: Seq<char>,
        answer: Result<Option<Vec<u8>>, SecretStoreError>,
    ) -> bool {
        if self.allows(secret, host) && self.secrets().contains_key(secret) {
            match answer {
                Ok(Some(ciphertext)) => plaintext(store_key, self.secrets()[secret]) matches Some(
                    message,
                ) && sealed_for(recipient, message, ciphertext@),
                Ok(None) => false,
                Err(SecretStoreError::DecryptionError(_)) => plaintext(
                    store_key,
                    self.secrets()[secret],
                ) is None,
                Err(SecretStoreError::EncryptError(_)) => plaintext(
                    store_key,
                    self.secrets()[secret],
                ) is Some,
            }
        } else {
            answer matches Ok(None)
        }
    }

    /// A store without secrets and without access lists.
    pub fn new() -> (store: SecretStore)
        ensures
            store.secrets() == Map::<Seq<char>, Seq<u8>>::empty(),
            store.acl() == Map::<Seq<char>, Seq<Seq<char>>>::empty(),
    {
        let store = SecretStore { secrets: Vec::new(), acl: Vec::new() };
        assert(store.secrets() =~= Map::<Seq<char>, Seq<u8>>::empty());
        assert(store.acl() =~= Map::<Seq<char>, Seq<Seq<char>>>::empty());
        store
    }

    /// Whether a ciphertext may be stored, from what decrypting it with the
    /// store key gave.
    pub fn vet(decrypted: Result<Vec<u8>, age::DecryptError>) -> (verdict: Result<
        (),
        SecretStoreError,
    >)
        ensures
            verdict == match decrypted {
                Ok(_) => Ok::<(), SecretStoreError>(()),
                Err(error) => Err::<(), SecretStoreError>(SecretStoreError::DecryptionError(error)),
            },
    {
        match decrypted {
            Ok(_) => Ok(()),
            Err(error) => Err(SecretStoreError::from(error)),
        }
    }

    /// The answer to a permitted read, from what encrypting the secret to the
    /// reader gave.
    pub fn deliver(encrypted: Result<Vec<u8>, age::EncryptError>) -> (answer: Result<
        Option<Vec<u8>>,
        SecretStoreError,
    >)
        ensures
            answer == match encrypted {
                Ok(ciphertext) => Ok::<Option<Vec<u8>>, SecretStoreError>(Some(ciphertext)),
                Err(error) => Err::<Option<Vec<u8>>, SecretStoreError>(
                    SecretStoreError::EncryptError(error),
                ),
            },
    {
        match encrypted {
            Ok(ciphertext) => Ok(Some(ciphertext)),
            Err(error) => Err(SecretStoreError::from(error)),
        }
    }

    /// Stores `secret` under `secret_name`, in place of what was stored there.
    /// A ciphertext that does not decrypt with `store_key` is turned away and
    /// the store stays as it was.
    pub fn add_secret(&mut self, secret_name: &str, secret: Vec<u8>, store_key: &Identity) -> (result:
        Result<(), SecretStoreError>)
        ensures
            match plaintext(store_key@, secret@) {
                Some(_) => result is Ok && final(self).secrets() == old(self).secrets().insert(
                    secret_name@,
                    secret@,
                ),
                None => result matches Err(SecretStoreError::DecryptionError(_))
                    && final(self).secrets() == old(self).secrets(),
            },
            final(self).acl() == old(self).acl(),
    {
        proof {
            use_type_invariant(&*self);
        }
        let decrypted = store_key.decrypt(secret.as_slice());
        match SecretStore::vet(decrypted) {
            Ok(()) => {
                let mut secrets: Vec<Named<Vec<u8>>> = Vec::new();
                std::mem::swap(&mut secrets, &mut self.secrets);
                put(&mut secrets, secret_name.to_owned(), secret);
                self.secrets = secrets;
                assert(self.secrets() =~= old(self).secrets().insert(secret_name@, secret@));
                Ok(())
            },
            Err(error) => Err(error),
        }
    }

    /// Hands `secret` to `host`, encrypted to `recipient`.
    ///
    /// Answers `Ok(None)` where `host` is not on the access list of `secret`
    /// and where there is no such secret: the two cannot be told apart.
    /// Otherwise the stored ciphertext is decrypted with `store_key` and the
    /// message encrypted to `recipient`.
    ///
    /// The caller has to make sure that `recipient` belongs to `host`: the
    /// store checks the name only.
    pub fn get_secret_for(
        &self,
        secret: &str,
        store_key: &Identity,
        host: &str,
        recipient: &Recipient,
    ) -> (answer: Result<Option<Vec<u8>>, SecretStoreError>)
        ensures
            self.answers(secret@, store_key@, host@, recipient@, answer),
    {
        proof {
            use_type_invariant(self);
        }
        let secret = secret.to_owned();
        let host = host.to_owned();
        let allowed = match find(&self.acl, &secret) {
            Some(i) => {
                proof {
                    lemma_table_at(self.acl@, name_of::<Vec<String>>(), i as int);
                }
                contains(&self.acl[i].value, &host)
            },
            None => false,
        };
        if !allowed {
            return Ok(None);
        }
        let stored = match find(&self.secrets, &secret) {
            Some(i) => {
                proof {
                    lemma_table_at(self.secrets@, name_of::<Vec<u8>>(), i as int);
                }
                &self.secrets[i].value
            },
            None => {
                return Ok(None);
            },
        };
        match store_key.decrypt(stored.as_slice()) {
            Ok(message) => SecretStore::deliver(recipient.encrypt(message.as_slice())),
            Err(error) => Err(SecretStoreError::from(error)),
        }
    }

    /// Lets `host` read `secret`. A host that is on the access list already
    /// stays where it is and the lists do not change; any other host is put
    /// at the end of the list, which is started where there was none.
    pub fn add_access_for(&mut self, secret: &str, host: &str)
        ensures
            final(self).acl() == with_grant(old(self).acl(), secret@, host@),
            old(self).allows(secret@, host@) ==> final(self).acl() == old(self).acl(),
            !old(self).allows(secret@, host@) ==> readers(final(self).acl(), secret@) == readers(
                old(self).acl(),
                secret@,
            ).push(host@),
            final(self).allows(secret@, host@),
            forall|name: Seq<char>, other: Seq<char>| #[trigger]
                final(self).allows(name, other) <==> old(self).allows(name, other) || (name
                    == secret@ && other == host@),
            final(self).secrets() == old(self).secrets(),
            sets(final(self).acl()),
    {
        proof {
            use_type_invariant(&*self);
            lemma_grant_is_idempotent(self.acl(), secret@, host@);
            lemma_grant_adds_one(self.acl(), secret@, host@);
        }
        let secret = secret.to_owned();
        let host = host.to_owned();
        let mut hosts = self.get_acl_by_secret(secret.as_str());
        if contains(&hosts, &host) {
            proof {
                if !self.acl().contains_key(secret@) {
                    assert(!Seq::<Seq<char>>::empty().contains(host@));
                }
                assert(self.acl().insert(secret@, readers(self.acl(), secret@)) =~= self.acl());
            }
            return ;
        }
        let ghost before = texts(hosts@);
        hosts.push(host);
        proof {
            assert(texts(hosts@) =~= before.push(host@));
            lemma_unique(texts(hosts@));
        }
        self.set_access_for(secret.as_str(), hosts);
    }

    /// Takes `host` off the access list of `secret`. A secret without a list
    /// gets an empty one.
    pub fn remove_access_for(&mut self, secret: &str, host: &str)
        ensures
            final(self).acl() == old(self).acl().insert(
                secret@,
                without(readers(old(self).acl(), secret@), host@),
            ),
            forall|name: Seq<char>, other: Seq<char>| #[trigger]
                final(self).allows(name, other) <==> old(self).allows(name, other) && !(name
                    == secret@ && other == host@),
            final(self).secrets() == old(self).secrets(),
            sets(final(self).acl()),
    {
        proof {
            use_type_invariant(&*self);
            crate::text::lemma_without_none(host@);
            crate::text::lemma_without_keeps_distinct(readers(self.acl(), secret@), host@);
            lemma_removal_takes_one(self.acl(), secret@, host@);
        }
        let secret = secret.to_owned();
        let host = host.to_owned();
        let mut hosts = self.get_acl_by_secret(secret.as_str());
        discard(&mut hosts, &host);
        proof {
            lemma_unique(texts(hosts@));
        }
        self.set_access_for(secret.as_str(), hosts);
    }

    /// Makes `hosts` the access list of `secret`: each of them once, in the
    /// order in which they are named first.
    pub fn set_access_for(&mut self, secret: &str, hosts: Vec<String>)
        ensures
            final(self).acl() == old(self).acl().insert(secret@, unique(texts(hosts@))),
            final(self).secrets() == old(self).secrets(),
            sets(final(self).acl()),
    {
        proof {
            use_type_invariant(&*self);
            lemma_unique(texts(hosts@));
        }
        let once = first_of_each(&hosts);
        let mut acl: Vec<Named<Vec<String>>> = Vec::new();
        std::mem::swap(&mut acl, &mut self.acl);
        let ghost names = |entry: Named<Vec<String>>| texts(entry.value@);
        let ghost before = table(acl@, name_of::<Vec<String>>());
        put(&mut acl, secret.to_owned(), once);
        proof {
            assert(table(acl@, name_of::<Vec<String>>()).map_values(names) =~= before.map_values(
                names,
            ).insert(secret@, unique(texts(hosts@))));
        }
        self.acl = acl;
    }

    /// The access list of `secret`: empty where it has none.
    pub fn get_acl_by_secret(&self, secret: &str) -> (hosts: Vec<String>)
        ensures
            texts(hosts@) == readers(self.acl(), secret@),
            texts(hosts@).no_duplicates(),
            sets(self.acl()),
    {
        proof {
            use_type_invariant(self);
        }
        let secret = secret.to_owned();
        match find(&self.acl, &secret) {
            Some(i) => {
                proof {
                    lemma_table_at(self.acl@, name_of::<Vec<String>>(), i as int);
                    assert(self.acl()[secret@].no_duplicates());
                }
                copy_of(&self.acl[i].value)
            },
            None => {
                let hosts: Vec<String> = Vec::new();
                assert(texts(hosts@) =~= Seq::<Seq<char>>::empty());
                hosts
            },
        }
    }

    /// Every access list with the name of its secret, each secret once and
    /// on each list each host once.
    pub fn get_all_acl(&self) -> (lists: Vec<(String, Vec<String>)>)
        ensures
            lists_all(self.acl(), lists@),
            sets(self.acl()),
    {
        proof {
            use_type_invariant(self);
        }
        let mut lists: Vec<(String, Vec<String>)> = Vec::new();
        let mut i: usize = 0;
        while i < self.acl.len()
            invariant
                i <= self.acl.len(),
                lists.len() == i,
                forall|k: int|
                    0 <= k < i ==> (#[trigger] lists[k]).0@ == self.acl[k].name@ && texts(
                        lists[k].1@,
                    ) == texts(self.acl[k].value@),
            decreases self.acl.len() - i,
        {
            lists.push((self.acl[i].name.clone(), copy_of(&self.acl[i].value)));
            i += 1;
        }
        proof {
            assert forall|k: int| 0 <= k < lists.len() implies self.acl().contains_key(
                (#[trigger] lists[k]).0@,
            ) && self.acl()[lists[k].0@] == texts(lists[k].1@) by {
                lemma_table_at(self.acl@, name_of::<Vec<String>>(), k);
            }
            assert forall|secret: Seq<char>| self.acl().contains_key(secret) implies exists|i: int|
                0 <= i < lists.len() && (#[trigger] lists[i]).0@ == secret by {
                let k = place(self.acl@, name_of::<Vec<String>>(), secret);
                assert(lists[k].0@ == secret);
            }
            assert forall|a: int, b: int| 0 <= a < b < lists.len() implies (#[trigger] lists[a]).0@
                != (#[trigger] lists[b]).0@ by {
                assert(self.acl[a].name@ != self.acl[b].name@);
            }
        }
        lists
    }

    /// The names of the stored secrets, each once.
    pub fn list_secrets(&self) -> (names: Vec<String>)
        ensures
            texts(names@).to_set() == self.secrets().dom(),
            texts(names@).no_duplicates(),
    {
        proof {
            use_type_invariant(self);
        }
        let mut names: Vec<String> = Vec::new();
        let mut i: usize = 0;
        while i < self.secrets.len()
            invariant
                i <= self.secrets.len(),
                names.len() == i,
                forall|k: int| 0 <= k < i ==> (#[trigger] names[k])@ == self.secrets[k].name@,
            decreases self.secrets.len() - i,
        {
            names.push(self.secrets[i].name.clone());
            i += 1;
        }
        proof {
            let listed_names = texts(names@);
            assert forall|name: Seq<char>| listed_names.to_set().contains(name)
                <==> self.secrets().dom().contains(name) by {
                if listed_names.to_set().contains(name) {
                    let k = choose|k: int| 0 <= k < listed_names.len() && listed_names[k] == name;
                    assert(self.secrets[k].name@ == name);
                    lemma_table_at(self.secrets@, name_of::<Vec<u8>>(), k);
                }
                if self.secrets().dom().contains(name) {
                    let k = place(self.secrets@, name_of::<Vec<u8>>(), name);
                    assert(listed_names[k] == name);
                }
            }
            assert(listed_names.to_set() =~= self.secrets().dom());
            assert forall|a: int, b: int|
                0 <= a < listed_names.len() && 0 <= b < listed_names.len() && a != b implies listed_names[a]
                != listed_names[b] by {
                if a < b {
                    assert(self.secrets[a].name@ != self.secrets[b].name@);
                } else {
                    assert(self.secrets[b].name@ != self.secrets[a].name@);
                }
            }
        }
        names
    }

    /// Writes `new` wherever an access list names `current`. A list that
    /// names both names `new` alone afterwards.
    pub fn rename_host(&mut self, current: &str, new: &str)
        ensures
            final(self).acl() == old(self).acl().map_values(
                |hosts: Seq<Seq<char>>| renamed_host(hosts, current@, new@),
            ),
            final(self).secrets() == old(self).secrets(),
            sets(final(self).acl()),
    {
        proof {
            use_type_invariant(&*self);
        }
        let current = current.to_owned();
        let new = new.to_owned();
        let mut acl: Vec<Named<Vec<String>>> = Vec::new();
        std::mem::swap(&mut acl, &mut self.acl);
        let ghost before = acl@;
        let mut i: usize = 0;
        while i < acl.len()
            invariant
                i <= acl.len(),
                acl.len() == before.len(),
                forall|k: int| 0 <= k < acl.len() ==> (#[trigger] acl[k]).name@ == before[k].name@,
                forall|k: int|
                    0 <= k < i ==> texts((#[trigger] acl[k]).value@) == renamed_host(
                        texts(before[k].value@),
                        current@,
                        new@,
                    ),
                forall|k: int| i <= k < acl.len() ==> (#[trigger] acl[k]).value == before[k].value,
            decreases acl.len() - i,
        {
            rename_in(&mut acl[i].value, &current, &new);
            i += 1;
        }
        proof {
            let key = name_of::<Vec<String>>();
            lemma_same_keys(before, acl@, key);
            assert forall|secret: Seq<char>| listed(before, key, secret) implies texts(
                #[trigger] table(acl@, key)[secret].value@,
            ) == renamed_host(texts(table(before, key)[secret].value@), current@, new@) by {
                let k = place(before, key, secret);
                lemma_table_at(before, key, k);
                lemma_table_at(acl@, key, k);
            }
        }
        proof {
            let names = |entry: Named<Vec<String>>| texts(entry.value@);
            let after = table(acl@, name_of::<Vec<String>>()).map_values(names);
            assert(after =~= old(self).acl().map_values(
                |hosts: Seq<Seq<char>>| renamed_host(hosts, current@, new@),
            ));
            assert forall|secret: Seq<char>| after.contains_key(secret) implies (
            #[trigger] after[secret]).no_duplicates() by {
                lemma_lists_stay_sets(old(self).acl()[secret], current@, new@);
            }
        }
        self.acl = acl;
    }

    /// Takes `host` off every access list.
    pub fn remove_host(&mut self, host: &str)
        ensures
            final(self).acl() == old(self).acl().map_values(
                |hosts: Seq<Seq<char>>| without(hosts, host@),
            ),
            final(self).secrets() == old(self).secrets(),
            sets(final(self).acl()),
    {
        proof {
            use_type_invariant(&*self);
        }
        let host = host.to_owned();
        let mut acl: Vec<Named<Vec<String>>> = Vec::new();
        std::mem::swap(&mut acl, &mut self.acl);
        let ghost before = acl@;
        let mut i: usize = 0;
        while i < acl.len()
            invariant
                i <= acl.len(),
                acl.len() == before.len(),
                forall|k: int| 0 <= k < acl.len() ==> (#[trigger] acl[k]).name@ == before[k].name@,
                forall|k: int|
                    0 <= k < i ==> texts((#[trigger] acl[k]).value@) == without(
                        texts(before[k].value@),
                        host@,
                    ),
                forall|k: int| i <= k < acl.len() ==> (#[trigger] acl[k]).value == before[k].value,
            decreases acl.len() - i,
        {
            discard(&mut acl[i].value, &host);
            i += 1;
        }
        proof {
            let key = name_of::<Vec<String>>();
            lemma_same_keys(before, acl@, key);
            assert forall|secret: Seq<char>| listed(before, key, secret) implies texts(
                #[trigger] table(acl@, key)[secret].value@,
            ) == without(texts(table(before, key)[secret].value@), host@) by {
                let k = place(before, key, secret);
                lemma_table_at(before, key, k);
                lemma_table_at(acl@, key, k);
            }
        }
        proof {
            let names = |entry: Named<Vec<String>>| texts(entry.value@);
            let after = table(acl@, name_of::<Vec<String>>()).map_values(names);
            assert(after =~= old(self).acl().map_values(
                |hosts: Seq<Seq<char>>| without(hosts, host@),
            ));
            assert forall|secret: Seq<char>| after.contains_key(secret) implies (
            #[trigger] after[secret]).no_duplicates() by {
                crate::text::lemma_without_keeps_distinct(old(self).acl()[secret], host@);
            }
        }
        self.acl = acl;
    }

    /// Files the secret `current` and its access list under `new`, in place of
    /// what was filed there. Where there is no secret `current` the secrets
    /// stay as they are, and likewise the access lists.
    pub fn rename_secret(&mut self, current: &str, new: &str)
        ensures
            final(self).secrets() == moved(old(self).secrets(), current@, new@),
            final(self).acl() == moved(old(self).acl(), current@, new@),
            sets(final(self).acl()),
    {
        proof {
            use_type_invariant(&*self);
        }
        let current = current.to_owned();
        let mut secrets: Vec<Named<Vec<u8>>> = Vec::new();
        std::mem::swap(&mut secrets, &mut self.secrets);
        let ghost bytes = |entry: Named<Vec<u8>>| entry.value@;
        let ghost before = table(secrets@, name_of::<Vec<u8>>());
        match take(&mut secrets, &current) {
            Some(ciphertext) => {
                let ghost middle = table(secrets@, name_of::<Vec<u8>>());
                assert(middle.map_values(bytes) =~= before.map_values(bytes).remove(current@));
                put(&mut secrets, new.to_owned(), ciphertext);
                assert(table(secrets@, name_of::<Vec<u8>>()).map_values(bytes)
                    =~= middle.map_values(bytes).insert(new@, ciphertext@));
            },
            None => {
                assert(table(secrets@, name_of::<Vec<u8>>()) =~= before);
            },
        }
        self.secrets = secrets;
        assert(self.secrets() == moved(old(self).secrets(), current@, new@));
        let mut acl: Vec<Named<Vec<String>>> = Vec::new();
        std::mem::swap(&mut acl, &mut self.acl);
        let ghost names = |entry: Named<Vec<String>>| texts(entry.value@);
        let ghost lists = table(acl@, name_of::<Vec<String>>());
        match take(&mut acl, &current) {
            Some(hosts) => {
                let ghost middle = table(acl@, name_of::<Vec<String>>());
                assert(middle.map_values(names) =~= lists.map_values(names).remove(current@));
                put(&mut acl, new.to_owned(), hosts);
                assert(table(acl@, name_of::<Vec<String>>()).map_values(names)
                    =~= middle.map_values(names).insert(new@, texts(hosts@)));
            },
            None => {
                assert(table(acl@, name_of::<Vec<String>>()) =~= lists);
            },
        }
        assert(table(acl@, name_of::<Vec<String>>()).map_values(names) == moved(
            old(self).acl(),
            current@,
            new@,
        ));
        self.acl = acl;
    }

    /// Forgets the secret and its access list.
    pub fn remove_secret(&mut self, secret: &str)
        ensures
            final(self).secrets() == old(self).secrets().remove(secret@),
            final(self).acl() == old(self).acl().remove(secret@),
            sets(final(self).acl()),
    {
        proof {
            use_type_invariant(&*self);
        }
        let secret = secret.to_owned();
        let mut secrets: Vec<Named<Vec<u8>>> = Vec::new();
        std::mem::swap(&mut secrets, &mut self.secrets);
        let _ = take(&mut secrets, &secret);
        self.secrets = secrets;
        assert(self.secrets() =~= old(self).secrets().remove(secret@));
        let mut acl: Vec<Named<Vec<String>>> = Vec::new();
        std::mem::swap(&mut acl, &mut self.acl);
        let _ = take(&mut acl, &secret);
        assert(table(acl@, name_of::<Vec<String>>()).map_values(
            |entry: Named<Vec<String>>| texts(entry.value@),
        ) =~= old(self).acl().remove(secret@));
        self.acl = acl;
    }
}

/// `hosts` with each host once, at the place where it is named first.
fn first_of_each(hosts: &Vec<String>) -> (once: Vec<String>)
    ensures
        texts(once@) == unique(texts(hosts@)),
{
    let ghost all = texts(hosts@);
    let mut once: Vec<String> = Vec::new();
    let mut i: usize = 0;
    assert(all.take(0) =~= Seq::<Seq<char>>::empty());
    assert(texts(once@) =~= Seq::<Seq<char>>::empty());
    while i < hosts.len()
        invariant
            i <= hosts.len(),
            all == texts(hosts@),
            texts(once@) == unique(all.take(i as int)),
        decreases hosts.len() - i,
    {
        proof {
            assert(all.take(i + 1).drop_last() =~= all.take(i as int));
            assert(all.take(i + 1).last() == hosts[i as int]@);
        }
        if !contains(&once, &hosts[i]) {
            let ghost before = texts(once@);
            once.push(hosts[i].clone());
            assert(texts(once@) =~= before.push(hosts[i as int]@));
        }
        i += 1;
    }
    assert(all.take(hosts.len() as int) =~= all);
    once
}

/// Whether no host is named twice on `hosts`.
fn names_each_once(hosts: &Vec<String>) -> (once: bool)
    ensures
        once == texts(hosts@).no_duplicates(),
{
    let ghost all = texts(hosts@);
    let mut i: usize = 0;
    while i < hosts.len()
        invariant
            i <= hosts.len(),
            all == texts(hosts@),
            forall|a: int, b: int| 0 <= a < b < hosts.len() && a < i ==> all[a] != all[b],
        decreases hosts.len() - i,
    {
        let mut j: usize = i + 1;
        while j < hosts.len()
            invariant
                i < j <= hosts.len(),
                all == texts(hosts@),
                forall|b: int| i < b < j ==> all[i as int] != all[b],
            decreases hosts.len() - j,
        {
            if hosts[i] == hosts[j] {
                assert(all[i as int] == all[j as int]);
                return false;
            }
            assert(all[i as int] != all[j as int]);
            j += 1;
        }
        i += 1;
    }
    assert forall|a: int, b: int| 0 <= a < all.len() && 0 <= b < all.len() && a != b implies all[a]
        != all[b] by {
        if a < b {
            assert(all[a] != all[b]);
        } else {
            assert(all[b] != all[a]);
        }
    }
    true
}

/// Whether no list among `lists` names a host twice.
fn all_name_each_once(lists: &Vec<(String, Vec<String>)>) -> (once: bool)
    ensures
        once == each_once(acl_pairs(lists@)),
{
    let mut i: usize = 0;
    while i < lists.len()
        invariant
            i <= lists.len(),
            forall|k: int| 0 <= k < i ==> texts((#[trigger] lists[k]).1@).no_duplicates(),
        decreases lists.len() - i,
    {
        if !names_each_once(&lists[i].1) {
            assert(!acl_pairs(lists@)[i as int].1.no_duplicates());
            return false;
        }
        i += 1;
    }
    assert forall|k: int| 0 <= k < acl_pairs(lists@).len() implies (#[trigger] acl_pairs(
        lists@,
    )[k]).1.no_duplicates() by {
        assert(texts(lists[k].1@).no_duplicates());
    }
    true
}

/// Names the host `current` on the list `new`.
fn rename_in(hosts: &mut Vec<String>, current: &String, new: &String)
    ensures
        texts(final(hosts)@) == renamed_host(texts(old(hosts)@), current@, new@),
{
    if *current != *new && contains(hosts, new) {
        discard(hosts, current);
    } else {
        replace(hosts, current, new);
    }
}

/// The names of named values and of the pairs that show them are distinct
/// together, and the two lists stand for the same map.
proof fn lemma_pairs<V, W>(entries: Seq<Named<V>>, pairs: Seq<(Seq<char>, W)>, show: spec_fn(V) -> W)
    requires
        pairs.len() == entries.len(),
        forall|i: int|
            0 <= i < entries.len() ==> #[trigger] pairs[i] == (
                entries[i].name@,
                show(entries[i].value),
            ),
    ensures
        distinct(entries, name_of::<V>()) <==> distinct(pairs, first::<W>()),
        distinct(entries, name_of::<V>()) ==> table(entries, name_of::<V>()).map_values(
            |entry: Named<V>| show(entry.value),
        ) == pairs_map(pairs),
{
    let left = name_of::<V>();
    let right = first::<W>();
    assert forall|i: int| 0 <= i < entries.len() implies left(#[trigger] entries[i]) == right(
        pairs[i],
    ) by {}
    if distinct(entries, left) {
        assert forall|i: int, j: int| 0 <= i < j < pairs.len() implies right(#[trigger] pairs[i])
            != right(#[trigger] pairs[j]) by {
            assert(left(entries[i]) != left(entries[j]));
        }
        let a = table(entries, left).map_values(|entry: Named<V>| show(entry.value));
        let b = pairs_map(pairs);
        assert forall|name: Seq<char>| a.contains_key(name) <==> b.contains_key(name) by {
            if a.contains_key(name) {
                let i = place(entries, left, name);
                assert(right(pairs[i]) == name);
            }
            if b.contains_key(name) {
                let i = place(pairs, right, name);
                assert(left(entries[i]) == name);
            }
        }
        assert forall|name: Seq<char>| a.contains_key(name) implies #[trigger] a[name]
            == b[name] by {
            let i = place(entries, left, name);
            lemma_table_at(entries, left, i);
            assert(right(pairs[i]) == name);
            lemma_table_at(pairs, right, i);
        }
        assert(a =~= b);
    }
    if distinct(pairs, right) {
        assert forall|i: int, j: int| 0 <= i < j < entries.len() implies left(
            #[trigger] entries[i],
        ) != left(#[trigger] entries[j]) by {
            assert(right(pairs[i]) != right(pairs[j]));
        }
    }
}

/// The name of a pair.
spec fn label<V>() -> spec_fn((String, V)) -> Seq<char> {
    |pair: (String, V)| pair.0@
}

/// Pairs and their views hold a name twice together.
proof fn lemma_labels<V, W>(pairs: Seq<(String, V)>, shown: Seq<(Seq<char>, W)>)
    requires
        shown.len() == pairs.len(),
        forall|i: int| 0 <= i < pairs.len() ==> (#[trigger] shown[i]).0 == pairs[i].0@,
    ensures
        distinct(pairs, label::<V>()) <==> distinct(shown, first::<W>()),
{
    if distinct(pairs, label::<V>()) {
        assert forall|i: int, j: int| 0 <= i < j < shown.len() implies first::<W>()(
            #[trigger] shown[i],
        ) != first::<W>()(#[trigger] shown[j]) by {
            assert(label::<V>()(pairs[i]) != label::<V>()(pairs[j]));
        }
    }
    if distinct(shown, first::<W>()) {
        assert forall|i: int, j: int| 0 <= i < j < pairs.len() implies label::<V>()(
            #[trigger] pairs[i],
        ) != label::<V>()(#[trigger] pairs[j]) by {
            assert(first::<W>()(shown[i]) != first::<W>()(shown[j]));
        }
    }
}

/// The list of named values that a list of pairs stands for; none where a
/// name occurs twice.
fn named<V>(pairs: Vec<(String, V)>) -> (entries: Option<Vec<Named<V>>>)
    ensures
        entries is Some <==> distinct(pairs@, label::<V>()),
        entries matches Some(kept) ==> distinct(kept@, name_of::<V>()) && kept.len() == pairs.len()
            && forall|i: int|
            0 <= i < kept.len() ==> (#[trigger] kept[i]).name == pairs[i].0 && kept[i].value
                == pairs[i].1,
{
    let ghost all = pairs@;
    let ghost key = label::<V>();
    let mut pending = pairs;
    let mut turned: Vec<(String, V)> = Vec::new();
    while pending.len() > 0
        invariant
            pending@ + turned@.reverse() == all,
        decreases pending.len(),
    {
        let ghost before = pending@;
        let ghost was = turned@;
        let one = pending.pop().unwrap();
        turned.push(one);
        proof {
            assert(turned@.reverse() =~= seq![one] + was.reverse());
            assert(before =~= pending@ + seq![one]);
            assert(pending@ + turned@.reverse() =~= before + was.reverse());
        }
    }
    assert(turned@.reverse() =~= all);
    let mut kept: Vec<Named<V>> = Vec::new();
    while turned.len() > 0
        invariant
            all == pairs@,
            key == label::<V>(),
            turned.len() <= all.len(),
            turned@.reverse() == all.skip(all.len() - turned.len()),
            kept.len() == all.len() - turned.len(),
            distinct(kept@, name_of::<V>()),
            forall|i: int|
                0 <= i < kept.len() ==> (#[trigger] kept[i]).name == all[i].0 && kept[i].value
                    == all[i].1,
        decreases turned.len(),
    {
        let ghost done = all.len() - turned.len();
        let ghost was = turned@;
        let (name, value) = turned.pop().unwrap();
        proof {
            assert(was.reverse()[0] == was.last());
            assert(all[done] == (name, value));
            assert(turned@.reverse() =~= all.skip(done + 1)) by {
                assert(turned@ =~= was.drop_last());
                assert(was.drop_last().reverse() =~= was.reverse().skip(1));
            }
        }
        match find(&kept, &name) {
            Some(twin) => {
                assert(key(all[twin as int]) == key(all[done]));
                return None;
            },
            None => {
                proof {
                    crate::keyed::lemma_table_push(kept@, name_of::<V>(), Named { name, value });
                }
                kept.push(Named { name, value });
            },
        }
    }
    proof {
        assert forall|i: int, j: int| 0 <= i < j < all.len() implies key(#[trigger] all[i]) != key(
            #[trigger] all[j],
        ) by {
            assert(name_of::<V>()(kept@[i]) != name_of::<V>()(kept@[j]));
        }
    }
    Some(kept)
}

/// An access list is a set of hosts: to let a host read a secret a second
/// time changes nothing, the host is on the list afterwards, and a list that
/// named no host twice still names none twice.
pub proof fn lemma_grant_is_idempotent(
    acl: Map<Seq<char>, Seq<Seq<char>>>,
    secret: Seq<char>,
    host: Seq<char>,
)
    ensures
        readers(with_grant(acl, secret, host), secret).contains(host),
        with_grant(with_grant(acl, secret, host), secret, host) == with_grant(acl, secret, host),
        readers(acl, secret).no_duplicates() ==> readers(
            with_grant(acl, secret, host),
            secret,
        ).no_duplicates(),
        readers(with_grant(acl, secret, host), secret).to_set() == readers(
            acl,
            secret,
        ).to_set().insert(host),
{
    let before = readers(acl, secret);
    let after = granted(before, host);
    if !before.contains(host) {
        assert(after[before.len() as int] == host);
    }
    assert(with_grant(with_grant(acl, secret, host), secret, host) =~= with_grant(
        acl,
        secret,
        host,
    ));
    assert forall|name: Seq<char>| after.to_set().contains(name) <==> before.to_set().insert(
        host,
    ).contains(name) by {
        if after.to_set().contains(name) && name != host {
            let k = choose|k: int| 0 <= k < after.len() && after[k] == name;
            assert(before[k] == name);
        }
        if before.to_set().contains(name) {
            let k = choose|k: int| 0 <= k < before.len() && before[k] == name;
            assert(after[k] == name);
        }
    }
    assert(after.to_set() =~= before.to_set().insert(host));
}

/// To let a host read a secret lets that host read that secret, and changes
/// nothing else about who may read what.
pub proof fn lemma_grant_adds_one(acl: Map<Seq<char>, Seq<Seq<char>>>, secret: Seq<char>, host: Seq<char>)
    ensures
        forall|name: Seq<char>, other: Seq<char>| #[trigger]
            readers(with_grant(acl, secret, host), name).contains(other) <==> readers(
                acl,
                name,
            ).contains(other) || (name == secret && other == host),
{
    lemma_grant_is_idempotent(acl, secret, host);
    let before = readers(acl, secret);
    let after = readers(with_grant(acl, secret, host), secret);
    assert forall|name: Seq<char>, other: Seq<char>| #[trigger]
        readers(with_grant(acl, secret, host), name).contains(other) <==> readers(
            acl,
            name,
        ).contains(other) || (name == secret && other == host) by {
        if name == secret {
            assert(after.to_set().contains(other) <==> before.to_set().insert(host).contains(other));
            assert(after.to_set().contains(other) <==> after.contains(other));
            assert(before.to_set().contains(other) <==> before.contains(other));
        }
    }
}

/// To take a host off the list of a secret stops that host reading that
/// secret, and changes nothing else about who may read what.
pub proof fn lemma_removal_takes_one(
    acl: Map<Seq<char>, Seq<Seq<char>>>,
    secret: Seq<char>,
    host: Seq<char>,
)
    ensures
        forall|name: Seq<char>, other: Seq<char>| #[trigger]
            readers(acl.insert(secret, without(readers(acl, secret), host)), name).contains(other)
                <==> readers(acl, name).contains(other) && !(name == secret && other == host),
{
    crate::text::lemma_without_keeps_distinct(readers(acl, secret), host);
}

/// A list that names no host twice names none twice once a host on it has
/// been renamed or taken off it. A host that has been renamed is on the list
/// under its new name and no longer under the old one, and the others are
/// on it as before.
pub proof fn lemma_lists_stay_sets(hosts: Seq<Seq<char>>, current: Seq<char>, new: Seq<char>)
    requires
        hosts.no_duplicates(),
    ensures
        renamed_host(hosts, current, new).no_duplicates(),
        without(hosts, current).no_duplicates(),
        !without(hosts, current).contains(current),
        forall|host: Seq<char>|
            renamed_host(hosts, current, new).contains(host) <==> if host == new {
                hosts.contains(new) || hosts.contains(current)
            } else {
                host != current && hosts.contains(host)
            },
{
    crate::text::lemma_without_keeps_distinct(hosts, current);
    let after = renamed_host(hosts, current, new);
    if current != new && hosts.contains(new) {
    } else {
        let shown = renamed(hosts, current, new);
        assert forall|i: int, j: int|
            0 <= i < shown.len() && 0 <= j < shown.len() && i != j implies shown[i] != shown[j] by {
            assert(hosts[i] != hosts[j]);
            if shown[i] == shown[j] {
                assert(hosts.contains(new));
            }
        }
        assert forall|host: Seq<char>| after.contains(host) <==> if host == new {
            hosts.contains(new) || hosts.contains(current)
        } else {
            host != current && hosts.contains(host)
        } by {
            if after.contains(host) {
                let k = choose|k: int| 0 <= k < after.len() && after[k] == host;
                assert(hosts.contains(hosts[k]));
            }
            if hosts.contains(host) {
                let k = choose|k: int| 0 <= k < hosts.len() && hosts[k] == host;
                assert(after[k] == if host == current {
                    new
                } else {
                    host
                });
            }
            if host == new && hosts.contains(current) {
                let k = choose|k: int| 0 <= k < hosts.len() && hosts[k] == current;
                assert(after[k] == new);
            }
        }
    }
}

/// A read is answered with a ciphertext only where the secret is there and
/// the host is on its access list.
pub proof fn lemma_read_needs_grant(
    store: SecretStore,
    secret: Seq<char>,
    store_key: Seq<char>,
    host: Seq<char>,
    recipient: Seq<char>,
    answer: Result<Option<Vec<u8>>, SecretStoreError>,
)
    requires
        store.answers(secret, store_key, host, recipient, answer),
        answer matches Ok(Some(_)),
    ensures
        store.acl().contains_key(secret),
        store.acl()[secret].contains(host),
        store.secrets().contains_key(secret),
{
    if !store.acl().contains_key(secret) {
        assert(!Seq::<Seq<char>>::empty().contains(host));
    }
}

/// A host that is not on the access list gets the answer that it would get
/// if there were no such secret: `Ok(None)` either way.
pub proof fn lemma_denial_hides_absence(
    store: SecretStore,
    secret: Seq<char>,
    store_key: Seq<char>,
    host: Seq<char>,
    recipient: Seq<char>,
    answer: Result<Option<Vec<u8>>, SecretStoreError>,
)
    requires
        store.answers(secret, store_key, host, recipient, answer),
        !store.allows(secret, host) || !store.secrets().contains_key(secret),
    ensures
        answer matches Ok(None),
{
}

/// What a host is handed, the identity to whose recipient it was encrypted
/// decrypts to what the store key decrypts the stored secret to.
pub proof fn lemma_reencryption(
    store: SecretStore,
    secret: Seq<char>,
    store_key: Seq<char>,
    host: Seq<char>,
    host_identity: Seq<char>,
    answer: Result<Option<Vec<u8>>, SecretStoreError>,
)
    requires
        crate::keys::is_identity(host_identity),
        store.answers(secret, store_key, host, crate::keys::public_key(host_identity), answer),
        answer matches Ok(Some(_)),
    ensures
        store.secrets().contains_key(secret),
        answer matches Ok(Some(ciphertext)) && plaintext(host_identity, ciphertext@) == plaintext(
            store_key,
            store.secrets()[secret],
        ),
{
    lemma_read_needs_grant(
        store,
        secret,
        store_key,
        host,
        crate::keys::public_key(host_identity),
        answer,
    );
}

impl Default for SecretStore {
    fn default() -> (store: SecretStore)
        ensures
            store.secrets() == Map::<Seq<char>, Seq<u8>>::empty(),
            store.acl() == Map::<Seq<char>, Seq<Seq<char>>>::empty(),
    {
        SecretStore::new()
    }
}

} // verus!
