//! Who may do what: actions, resource tags and the policies that tie them.
//!
//! A resource carries tags. A policy grants an owner, for one action, a set of
//! tags. The owner may perform the action on a resource exactly when the
//! resource carries at least one of the granted tags.

use crate::keyed::{
    distinct, lemma_same_keys, lemma_table_at, lemma_table_push, lemma_table_remove,
    lemma_table_update, listed, place, table,
};
use crate::key::PublicKey;
use std::collections::HashSet;
use vstd::prelude::*;
use vstd::set_lib::lemma_len_subset;
use vstd::std_specs::iter::IteratorSpec;

verus! {

broadcast use vstd::std_specs::hash::group_hash_axioms;

/// What can be done to a host.
#[derive(Debug, PartialEq, Eq, Structural, Hash, Clone, Copy)]
pub enum Host {
    /// Rename the hostname of an existing host
    Rename,
    /// Delete a host in its entirety (destructive!)
    Remove,
    /// Publish an update for a host (use carefully!)
    Update,
    /// Accept a verification attempt (e.g. adding new hosts)
    Accept,
    /// Attach ANOTHER host
    Attach,
    /// Set detach permission per host
    DetachPermission,
}

/// What can be done to the settings of the fleet.
#[derive(Debug, PartialEq, Eq, Structural, Hash, Clone, Copy)]
pub enum Settings {
    /// Set global detach permission
    DetachGlobal,
}

/// What can be done to secrets.
#[derive(Debug, PartialEq, Eq, Structural, Hash, Clone, Copy)]
pub enum Secret {
    /// Add new secrets or replace the content of existing secrets
    CreateOrUpdate,
    /// Rename an existing secret
    Rename,
    /// Delete secrets
    Remove,
    /// Define which host is allowed to access which secret
    ACL,
    /// Define which secrets are viewable
    ListSecrets,
}

/// What can be asked about the fleet.
#[derive(Debug, PartialEq, Eq, Structural, Hash, Clone, Copy)]
pub enum Status {
    ListHosts,
    ListHostnameByKey,
}

/// Every action, so that policies for all of them can be kept in one place.
#[derive(Debug, PartialEq, Eq, Structural, Hash, Clone, Copy)]
pub enum Action {
    Host(Host),
    Settings(Settings),
    Secret(Secret),
    Status(Status),
}

impl From<Host> for Action {
    fn from(value: Host) -> (action: Action) {
        Action::Host(value)
    }
}

impl vstd::std_specs::convert::FromSpecImpl<Host> for Action {
    open spec fn obeys_from_spec() -> bool {
        true
    }

    open spec fn from_spec(value: Host) -> Action {
        Action::Host(value)
    }
}

impl From<Settings> for Action {
    fn from(value: Settings) -> (action: Action) {
        Action::Settings(value)
    }
}

impl vstd::std_specs::convert::FromSpecImpl<Settings> for Action {
    open spec fn obeys_from_spec() -> bool {
        true
    }

    open spec fn from_spec(value: Settings) -> Action {
        Action::Settings(value)
    }
}

impl From<Secret> for Action {
    fn from(value: Secret) -> (action: Action) {
        Action::Secret(value)
    }
}

impl vstd::std_specs::convert::FromSpecImpl<Secret> for Action {
    open spec fn obeys_from_spec() -> bool {
        true
    }

    open spec fn from_spec(value: Secret) -> Action {
        Action::Secret(value)
    }
}

impl From<Status> for Action {
    fn from(value: Status) -> (action: Action) {
        Action::Status(value)
    }
}

impl vstd::std_specs::convert::FromSpecImpl<Status> for Action {
    open spec fn obeys_from_spec() -> bool {
        true
    }

    open spec fn from_spec(value: Status) -> Action {
        Action::Status(value)
    }
}

/// An opaque mark on a resource: the 128 bits of a UUID.
pub type Tag = u128;

/// A set of tags.
pub type TagSet = HashSet<Tag>;

/// Trusted: `uuid::Uuid::new_v4` returns a UUID made of random bits, handed on
/// here as its 128-bit value (`Uuid::as_u128`). Nothing is claimed of the
/// value.
#[verifier::external_body]
fn random_tag() -> (tag: Tag) {
    uuid::Uuid::new_v4().as_u128()
}

/// How many steps lead from `start` up to `tag`, where the step after the
/// greatest tag leads to zero.
pub open spec fn distance(start: Tag, tag: Tag) -> int {
    if tag >= start {
        tag - start
    } else {
        tag - start + u128::MAX + 1
    }
}

/// Someone a policy can be for. Owners are told apart by their views: two
/// values with the same view are one owner.
pub trait Owner: View + Sized {
    /// Whether the two are the same owner.
    fn same(&self, other: &Self) -> (same: bool)
        ensures
            same == (self@ == other@),
    ;
}

impl Owner for String {
    fn same(&self, other: &String) -> (same: bool) {
        *self == *other
    }
}

impl Owner for u64 {
    fn same(&self, other: &u64) -> (same: bool) {
        *self == *other
    }
}

/// A key is what it is: its view is the key itself.
impl View for PublicKey {
    type V = PublicKey;

    open spec fn view(&self) -> PublicKey {
        *self
    }
}

impl Owner for PublicKey {
    fn same(&self, other: &PublicKey) -> (same: bool) {
        self.is(other)
    }
}

/// What one owner has been granted for one action.
struct Policy<Identity> {
    owner: Identity,
    action: Action,
    tags: TagSet,
}

/// The key of a policy: its owner and its action.
spec fn policy_key<Identity: View>() -> spec_fn(Policy<Identity>) -> (Identity::V, Action) {
    |policy: Policy<Identity>| (policy.owner@, policy.action)
}

/// The tags that some policy among `policies` grants.
spec fn granted_by<Identity>(policies: Seq<Policy<Identity>>) -> Set<Tag>
    decreases policies.len(),
{
    if policies.len() == 0 {
        Set::empty()
    } else {
        granted_by(policies.drop_last()).union(policies.last().tags@)
    }
}

/// A set of tags in memory is finite and holds no more tags than a machine
/// word counts.
proof fn lemma_tags_are_few(tags: TagSet)
    ensures
        tags@.finite(),
        tags@.len() <= usize::MAX,
{
    let all = vstd::std_specs::hash::spec_hash_keys_iter(&tags).remaining().unref();
    assert(all.to_set() == tags@);
    vstd::seq_lib::seq_to_set_is_finite(all);
    assert(vstd::std_specs::hash::spec_hash_set_len(&tags) == tags@.len());
}

/// What the policies grant is what one of them grants, and it is less than
/// all the tags there are.
proof fn lemma_granted_by<Identity>(policies: Seq<Policy<Identity>>)
    ensures
        granted_by(policies).finite(),
        granted_by(policies).len() <= policies.len() * usize::MAX,
        forall|tag: Tag|
            granted_by(policies).contains(tag) <==> exists|i: int|
                0 <= i < policies.len() && (#[trigger] policies[i]).tags@.contains(tag),
    decreases policies.len(),
{
    if policies.len() > 0 {
        let rest = policies.drop_last();
        let last = policies.last().tags@;
        lemma_granted_by(rest);
        lemma_tags_are_few(policies.last().tags);
        vstd::set_lib::lemma_len_union(granted_by(rest), last);
        assert(granted_by(policies).finite());
        assert(rest.len() * usize::MAX + usize::MAX == policies.len() * usize::MAX)
            by (nonlinear_arith)
            requires
                rest.len() + 1 == policies.len(),
        ;
        assert forall|tag: Tag| granted_by(policies).contains(tag) <==> exists|i: int|
            0 <= i < policies.len() && (#[trigger] policies[i]).tags@.contains(tag) by {
            if granted_by(policies).contains(tag) {
                if granted_by(rest).contains(tag) {
                    let i = choose|i: int|
                        0 <= i < rest.len() && (#[trigger] rest[i]).tags@.contains(tag);
                    assert(policies[i] == rest[i]);
                } else {
                    assert(policies[policies.len() - 1].tags@.contains(tag));
                }
            }
            if exists|i: int|
                0 <= i < policies.len() && (#[trigger] policies[i]).tags@.contains(tag) {
                let i = choose|i: int|
                    0 <= i < policies.len() && (#[trigger] policies[i]).tags@.contains(tag);
                if i < rest.len() {
                    assert(rest[i] == policies[i]);
                }
            }
        }
    }
}

/// The tags that `policies` grants under `key`: none where there is no policy.
pub open spec fn tags_under<Name>(
    policies: Map<(Name, Action), Set<Tag>>,
    key: (Name, Action),
) -> Set<Tag> {
    if policies.contains_key(key) {
        policies[key]
    } else {
        Set::empty()
    }
}

/// The known tags and the policies over them.
///
/// An owner can be of any type that is an `Owner`: a text, a number, a key.
/// The caller makes sure that a value of it stands for one owner only. The
/// contracts below speak of an owner by its view.
///
/// Before a policy can be set there has to be a tag: `create_tag` reserves
/// one. `set_policy(owner, Host::Rename.into(), tags)` then lets `owner`
/// rename every host that carries one of `tags`, and `check_permission` with
/// the same owner and action answers `true` for such a host, while it answers
/// `false` for `Host::Remove` as long as no policy grants that.
pub struct PolicyStore<Identity: Owner> {
    tags: TagSet,
    policies: Vec<Policy<Identity>>,
}

impl<Identity: Owner> PolicyStore<Identity> {
    #[verifier::type_invariant]
    spec fn well_formed(self) -> bool {
        distinct(self.policies@, policy_key::<Identity>()) && self.tags@.finite()
    }

    /// The tags that have been created and not deleted.
    pub closed spec fn tags(&self) -> Set<Tag> {
        self.tags@
    }

    /// The policies: for an owner and an action, the tags granted.
    pub closed spec fn policies(&self) -> Map<(Identity::V, Action), Set<Tag>> {
        table(self.policies@, policy_key::<Identity>()).map_values(
            |policy: Policy<Identity>| policy.tags@,
        )
    }

    /// The policies in the order in which they are kept.
    pub closed spec fn policy_list(&self) -> Seq<(Identity::V, Action, Set<Tag>)> {
        self.policies@.map_values(
            |policy: Policy<Identity>| (policy.owner@, policy.action, policy.tags@),
        )
    }

    /// What holds of every store: no owner has two policies for one action.
    pub closed spec fn sound(&self) -> bool {
        distinct(self.policies@, policy_key::<Identity>())
    }

    /// The list of a store holds no owner and action twice and stands for
    /// its policies.
    pub proof fn lemma_list(self)
        requires
            self.sound(),
        ensures
            distinct(self.policy_list(), grant_key::<Identity::V>()),
            self.policies() == grants_map(self.policy_list()),
    {
        let list = self.policy_list();
        let key = policy_key::<Identity>();
        let shown = grant_key::<Identity::V>();
        assert forall|i: int, j: int| 0 <= i < j < list.len() implies shown(#[trigger] list[i])
            != shown(#[trigger] list[j]) by {
            assert(key(self.policies@[i]) != key(self.policies@[j]));
        }
        let a = self.policies();
        let b = grants_map(list);
        assert forall|k: (Identity::V, Action)| a.contains_key(k) <==> b.contains_key(k) by {
            if a.contains_key(k) {
                let i = place(self.policies@, key, k);
                assert(shown(list[i]) == k);
            }
            if b.contains_key(k) {
                let i = place(list, shown, k);
                assert(key(self.policies@[i]) == k);
            }
        }
        assert forall|k: (Identity::V, Action)| a.contains_key(k) implies #[trigger] a[k] == b[k] by {
            let i = place(self.policies@, key, k);
            lemma_table_at(self.policies@, key, i);
            assert(shown(list[i]) == k);
            lemma_table_at(list, shown, i);
        }
        assert(a =~= b);
    }

    /// The tags granted to `owner` for `action`: none without a policy.
    pub open spec fn granted(&self, owner: Identity::V, action: Action) -> Set<Tag> {
        tags_under(self.policies(), (owner, action))
    }

    /// Whether `tag` is in use: whether it is known or some policy grants it.
    pub open spec fn uses(&self, tag: Tag) -> bool {
        self.tags().contains(tag) || exists|key: (Identity::V, Action)|
            self.policies().contains_key(key) && (#[trigger] self.policies()[key]).contains(tag)
    }

    /// The tags in use.
    spec fn used(&self) -> Set<Tag> {
        self.tags@.union(granted_by(self.policies@))
    }

    /// The tags in use are those that `uses` holds of, and they are less than
    /// all the tags there are.
    proof fn lemma_used(&self)
        requires
            distinct(self.policies@, policy_key::<Identity>()),
        ensures
            self.used().finite(),
            self.used().len() < 0x1_0000_0000_0000_0000_0000_0000_0000_0000,
            forall|tag: Tag| self.used().contains(tag) <==> self.uses(tag),
    {
        let key = policy_key::<Identity>();
        lemma_tags_are_few(self.tags);
        lemma_granted_by(self.policies@);
        vstd::set_lib::lemma_len_union(self.tags@, granted_by(self.policies@));
        assert(self.policies@.len() == self.policies.len());
        assert(usize::MAX + self.policies@.len() * usize::MAX
            < 0x1_0000_0000_0000_0000_0000_0000_0000_0000) by (nonlinear_arith)
            requires
                self.policies@.len() <= usize::MAX,
                usize::MAX <= 0xffff_ffff_ffff_ffff,
        ;
        assert forall|tag: Tag| self.used().contains(tag) <==> self.uses(tag) by {
            if granted_by(self.policies@).contains(tag) {
                let i = choose|i: int|
                    0 <= i < self.policies@.len() && (#[trigger] self.policies@[i]).tags@.contains(
                        tag,
                    );
                lemma_table_at(self.policies@, key, i);
                assert(self.policies().contains_key(key(self.policies@[i])));
                assert(self.policies()[key(self.policies@[i])].contains(tag));
            }
            if exists|k: (Identity::V, Action)|
                self.policies().contains_key(k) && (#[trigger] self.policies()[k]).contains(tag) {
                let k = choose|k: (Identity::V, Action)|
                    self.policies().contains_key(k) && (#[trigger] self.policies()[k]).contains(
                        tag,
                    );
                let i = place(self.policies@, key, k);
                lemma_table_at(self.policies@, key, i);
                assert(self.policies@[i].tags@.contains(tag));
            }
        }
    }

    /// Whether some policy grants `tag`.
    fn grants(&self, tag: &Tag) -> (found: bool)
        ensures
            found == granted_by(self.policies@).contains(*tag),
    {
        let mut i: usize = 0;
        while i < self.policies.len()
            invariant
                i <= self.policies.len(),
                forall|k: int| 0 <= k < i ==> !(#[trigger] self.policies@[k]).tags@.contains(*tag),
            decreases self.policies.len() - i,
        {
            if self.policies[i].tags.contains(tag) {
                proof {
                    lemma_granted_by(self.policies@);
                    assert(self.policies@[i as int].tags@.contains(*tag));
                }
                return true;
            }
            i += 1;
        }
        proof {
            lemma_granted_by(self.policies@);
        }
        false
    }

    /// A store without tags and without policies.
    pub fn new() -> (store: Self)
        ensures
            store.tags() == Set::<Tag>::empty(),
            store.policies() == Map::<(Identity::V, Action), Set<Tag>>::empty(),
    {
        let store = PolicyStore { tags: HashSet::new(), policies: Vec::new() };
        assert(store.policies() =~= Map::<(Identity::V, Action), Set<Tag>>::empty());
        store
    }

    /// Makes a tag known. Tells whether it was unknown before.
    pub fn register_tag(&mut self, tag: Tag) -> (fresh: bool)
        ensures
            fresh == !old(self).tags().contains(tag),
            final(self).tags() == old(self).tags().insert(tag),
            final(self).policies() == old(self).policies(),
    {
        proof {
            use_type_invariant(&*self);
        }
        let mut tags: TagSet = HashSet::new();
        std::mem::swap(&mut tags, &mut self.tags);
        let fresh = tags.insert(tag);
        self.tags = tags;
        fresh
    }

    /// The nearest tag to `start` that is not in use, counting upwards from it
    /// and on from zero after the greatest: `start` itself where it is not in
    /// use.
    pub fn unused_tag(&self, start: Tag) -> (tag: Tag)
        ensures
            !self.uses(tag),
            forall|other: Tag| distance(start, other) < distance(start, tag) ==> self.uses(other),
    {
        proof {
            use_type_invariant(self);
            self.lemma_used();
        }
        let ghost used = self.used();
        let mut tag = start;
        let ghost mut tried: int = 0;
        let ghost mut seen: Set<Tag> = Set::empty();
        while self.tags.contains(&tag) || self.grants(&tag)
            invariant
                used == self.used(),
                used.finite(),
                used.len() < 0x1_0000_0000_0000_0000_0000_0000_0000_0000,
                forall|t: Tag| used.contains(t) <==> self.uses(t),
                seen.finite(),
                seen.len() == tried,
                seen.subset_of(used),
                distance(start, tag) == tried,
                forall|other: Tag| seen.contains(other) <==> distance(start, other) < tried,
            decreases used.len() - tried,
        {
            proof {
                assert(used.contains(tag));
                assert(!seen.contains(tag));
                seen = seen.insert(tag);
                lemma_len_subset(seen, used);
                tried = tried + 1;
            }
            tag = tag.wrapping_add(1);
        }
        tag
    }

    /// Reserves a new tag, which is made known and returned. It is a random
    /// UUID, or the nearest tag to it that is not in use where chance hit on
    /// one that is. No policy grants the new tag.
    pub fn create_tag(&mut self) -> (tag: Tag)
        ensures
            !old(self).uses(tag),
            final(self).tags() == old(self).tags().insert(tag),
            final(self).policies() == old(self).policies(),
            forall|owner: Identity::V, action: Action|
                !(#[trigger] final(self).granted(owner, action)).contains(tag),
    {
        let tag = self.unused_tag(random_tag());
        let _ = self.register_tag(tag);
        tag
    }

    /// Forgets a tag: it is known no longer and no policy grants it. Nothing
    /// happens where the tag was not known.
    pub fn delete_tag(&mut self, tag: &Tag)
        ensures
            final(self).tags() == old(self).tags().remove(*tag),
            final(self).policies() == old(self).policies().map_values(
                |granted: Set<Tag>| granted.remove(*tag),
            ),
            forall|owner: Identity::V, action: Action|
                !(#[trigger] final(self).granted(owner, action)).contains(*tag),
    {
        proof {
            use_type_invariant(&*self);
        }
        let mut tags: TagSet = HashSet::new();
        std::mem::swap(&mut tags, &mut self.tags);
        tags.remove(tag);
        self.tags = tags;
        let mut policies: Vec<Policy<Identity>> = Vec::new();
        std::mem::swap(&mut policies, &mut self.policies);
        let ghost before = policies@;
        let ghost key = policy_key::<Identity>();
        let mut i: usize = 0;
        while i < policies.len()
            invariant
                i <= policies.len(),
                policies.len() == before.len(),
                forall|k: int| 0 <= k < policies.len() ==> key(#[trigger] policies[k]) == key(before[k]),
                forall|k: int|
                    0 <= k < i ==> (#[trigger] policies[k]).tags@ == before[k].tags@.remove(*tag),
                forall|k: int| i <= k < policies.len() ==> (#[trigger] policies[k]) == before[k],
                key == policy_key::<Identity>(),
            decreases policies.len() - i,
        {
            policies[i].tags.remove(tag);
            i += 1;
        }
        proof {
            lemma_same_keys(before, policies@, key);
            assert forall|k: (Identity::V, Action)| listed(before, key, k) implies (#[trigger] table(
                policies@,
                key,
            )[k]).tags@ == table(before, key)[k].tags@.remove(*tag) by {
                let p = place(before, key, k);
                lemma_table_at(before, key, p);
                lemma_table_at(policies@, key, p);
            }
        }
        self.policies = policies;
        assert(self.policies() =~= old(self).policies().map_values(
            |granted: Set<Tag>| granted.remove(*tag),
        ));
    }

    /// Lets `owner` perform `action` on every resource that carries one of
    /// `tags`, in place of what `owner` was granted for `action` before.
    pub fn set_policy(&mut self, owner: Identity, action: Action, tags: TagSet)
        ensures
            final(self).policies() == old(self).policies().insert((owner@, action), tags@),
            final(self).tags() == old(self).tags(),
    {
        proof {
            use_type_invariant(&*self);
        }
        let mut policies: Vec<Policy<Identity>> = Vec::new();
        std::mem::swap(&mut policies, &mut self.policies);
        let ghost key = policy_key::<Identity>();
        let ghost policy = Policy { owner, action, tags };
        match find_policy(&policies, &owner, &action) {
            Some(i) => {
                proof {
                    lemma_table_update(policies@, key, i as int, policy);
                }
                policies[i] = Policy { owner, action, tags };
            },
            None => {
                proof {
                    lemma_table_push(policies@, key, policy);
                }
                policies.push(Policy { owner, action, tags });
            },
        }
        self.policies = policies;
        assert(self.policies() =~= old(self).policies().insert((owner@, action), tags@));
    }

    /// Withdraws what `owner` was granted for `action` and returns it. The
    /// tags themselves stay known.
    pub fn delete_policy(&mut self, owner: Identity, action: Action) -> (withdrawn: Option<TagSet>)
        ensures
            final(self).policies() == old(self).policies().remove((owner@, action)),
            final(self).tags() == old(self).tags(),
            match withdrawn {
                Some(tags) => old(self).policies().contains_key((owner@, action)) && tags@ == old(
                    self,
                ).policies()[(owner@, action)],
                None => !old(self).policies().contains_key((owner@, action)),
            },
    {
        proof {
            use_type_invariant(&*self);
        }
        let mut policies: Vec<Policy<Identity>> = Vec::new();
        std::mem::swap(&mut policies, &mut self.policies);
        let ghost key = policy_key::<Identity>();
        let withdrawn = match find_policy(&policies, &owner, &action) {
            Some(i) => {
                proof {
                    lemma_table_remove(policies@, key, i as int);
                    lemma_table_at(policies@, key, i as int);
                }
                let policy = policies.remove(i);
                Some(policy.tags)
            },
            None => None,
        };
        self.policies = policies;
        assert(self.policies() =~= old(self).policies().remove((owner@, action)));
        withdrawn
    }

    /// The tags granted to `owner` for `action`: none where there is no
    /// policy.
    pub fn get_tags(&self, owner: Identity, action: Action) -> (tags: TagSet)
        ensures
            tags@ == self.granted(owner@, action),
    {
        proof {
            use_type_invariant(self);
        }
        match find_policy(&self.policies, &owner, &action) {
            Some(i) => {
                proof {
                    lemma_table_at(self.policies@, policy_key::<Identity>(), i as int);
                }
                copy_tags(&self.policies[i].tags)
            },
            None => HashSet::new(),
        }
    }

    /// Whether `owner` may perform `action` on a resource that carries `tags`:
    /// whether one of them is granted.
    pub fn check_permission(&self, owner: Identity, action: Action, tags: &TagSet) -> (allowed:
        bool)
        ensures
            allowed <==> exists|tag: Tag|
                tags@.contains(tag) && #[trigger] self.granted(owner@, action).contains(tag),
    {
        let granted = self.get_tags(owner, action);
        share_tag(&granted, tags)
    }
}

impl<Identity: Owner> Default for PolicyStore<Identity> {
    fn default() -> (store: Self)
        ensures
            store.tags() == Set::<Tag>::empty(),
            store.policies() == Map::<(Identity::V, Action), Set<Tag>>::empty(),
    {
        PolicyStore::new()
    }
}

/// The position of the policy of `owner` for `action`, if there is one.
fn find_policy<Identity: Owner>(
    policies: &Vec<Policy<Identity>>,
    owner: &Identity,
    action: &Action,
) -> (found: Option<usize>)
    ensures
        match found {
            Some(i) => i < policies.len() && policy_key::<Identity>()(policies[i as int]) == (
                owner@,
                *action,
            ),
            None => !listed(policies@, policy_key::<Identity>(), (owner@, *action)),
        },
{
    let mut i: usize = 0;
    while i < policies.len()
        invariant
            i <= policies.len(),
            forall|k: int|
                0 <= k < i ==> policy_key::<Identity>()(#[trigger] policies[k]) != (owner@, *action),
        decreases policies.len() - i,
    {
        if policies[i].owner.same(owner) && policies[i].action == *action {
            return Some(i);
        }
        i += 1;
    }
    None
}

/// A set with the same tags.
pub fn copy_tags(tags: &TagSet) -> (copy: TagSet)
    ensures
        copy@ == tags@,
{
    let mut copy: TagSet = HashSet::new();
    let ghost all = vstd::std_specs::hash::spec_hash_keys_iter(tags).remaining().unref();
    for tag in it: tags.iter()
        invariant
            it.seq().unref() == all,
            all.to_set() == tags@,
            forall|t: Tag| copy@.contains(t) ==> tags@.contains(t),
            forall|k: int| 0 <= k < it.index() ==> copy@.contains(#[trigger] all[k]),
    {
        assert(all[it.index() as int] == *tag);
        assert(all.to_set().contains(*tag));
        copy.insert(*tag);
    }
    assert forall|t: Tag| tags@.contains(t) implies copy@.contains(t) by {
        assert(all.to_set().contains(t));
        let k = choose|k: int| 0 <= k < all.len() && all[k] == t;
        assert(copy@.contains(all[k]));
    }
    assert(copy@ =~= tags@);
    copy
}

/// The owner and the action of a grant.
pub open spec fn grant_key<Name>() -> spec_fn((Name, Action, Set<Tag>)) -> (Name, Action) {
    |grant: (Name, Action, Set<Tag>)| (grant.0, grant.1)
}

/// The policies that a list of grants without repeated owner and action
/// stands for.
pub open spec fn grants_map<Name>(grants: Seq<(Name, Action, Set<Tag>)>) -> Map<
    (Name, Action),
    Set<Tag>,
> {
    table(grants, grant_key::<Name>()).map_values(|grant: (Name, Action, Set<Tag>)| grant.2)
}

/// What a list of policies with their tags in lists says is granted.
pub open spec fn grants_of<Identity: View>(policies: Seq<(Identity, Action, Vec<Tag>)>) -> Seq<
    (Identity::V, Action, Set<Tag>),
> {
    policies.map_values(
        |policy: (Identity, Action, Vec<Tag>)| (policy.0@, policy.1, policy.2@.to_set()),
    )
}

/// Whether the tags of every policy in the list are in rising order.
pub open spec fn all_ascending<Identity>(policies: Seq<(Identity, Action, Vec<Tag>)>) -> bool {
    forall|i: int| 0 <= i < policies.len() ==> ascending((#[trigger] policies[i]).2@)
}

impl<Identity: Owner + Copy> PolicyStore<Identity> {
    /// The known tags in rising order, and the policies in the order in which
    /// they are kept, each with its tags in rising order.
    pub fn export(&self) -> (parts: (Vec<Tag>, Vec<(Identity, Action, Vec<Tag>)>))
        ensures
            self.sound(),
            ascending(parts.0@),
            parts.0@.to_set() == self.tags(),
            all_ascending(parts.1@),
            grants_of(parts.1@) == self.policy_list(),
    {
        proof {
            use_type_invariant(self);
        }
        let tags = sorted_tags(&self.tags);
        let mut policies: Vec<(Identity, Action, Vec<Tag>)> = Vec::new();
        let mut i: usize = 0;
        while i < self.policies.len()
            invariant
                i <= self.policies.len(),
                policies.len() == i,
                forall|k: int|
                    0 <= k < i ==> {
                        &&& (#[trigger] policies[k]).0 == self.policies[k].owner
                        &&& policies[k].1 == self.policies[k].action
                        &&& ascending(policies[k].2@)
                        &&& policies[k].2@.to_set() == self.policies[k].tags@
                    },
            decreases self.policies.len() - i,
        {
            policies.push(
                (
                    self.policies[i].owner,
                    self.policies[i].action,
                    sorted_tags(&self.policies[i].tags),
                ),
            );
            i += 1;
        }
        assert(grants_of(policies@) =~= self.policy_list());
        (tags, policies)
    }

    /// The store that knows these tags and keeps these policies in this
    /// order; none where an owner has two policies for one action.
    pub fn restore(tags: &Vec<Tag>, policies: &Vec<(Identity, Action, Vec<Tag>)>) -> (store: Option<
        Self,
    >)
        ensures
            store is Some <==> distinct(grants_of(policies@), grant_key::<Identity::V>()),
            store matches Some(restored) ==> restored.sound() && restored.tags() == tags@.to_set()
                && restored.policy_list() == grants_of(policies@),
    {
        let ghost grants = grants_of(policies@);
        let ghost shown = grant_key::<Identity::V>();
        let mut kept: Vec<Policy<Identity>> = Vec::new();
        let mut i: usize = 0;
        while i < policies.len()
            invariant
                i <= policies.len(),
                kept.len() == i,
                grants == grants_of(policies@),
                shown == grant_key::<Identity::V>(),
                distinct(kept@, policy_key::<Identity>()),
                forall|k: int|
                    0 <= k < i ==> {
                        &&& (#[trigger] kept[k]).owner == policies[k].0
                        &&& kept[k].action == policies[k].1
                        &&& kept[k].tags@ == policies[k].2@.to_set()
                    },
            decreases policies.len() - i,
        {
            let owner = policies[i].0;
            let action = policies[i].1;
            match find_policy(&kept, &owner, &action) {
                Some(twin) => {
                    assert(shown(grants[twin as int]) == shown(grants[i as int]));
                    return None;
                },
                None => {
                    let entry = Policy { owner, action, tags: tag_set(&policies[i].2) };
                    proof {
                        lemma_table_push(kept@, policy_key::<Identity>(), entry);
                    }
                    kept.push(entry);
                },
            }
            i += 1;
        }
        proof {
            assert forall|a: int, b: int| 0 <= a < b < grants.len() implies shown(
                #[trigger] grants[a],
            ) != shown(#[trigger] grants[b]) by {
                assert(policy_key::<Identity>()(kept@[a]) != policy_key::<Identity>()(kept@[b]));
            }
        }
        let store = PolicyStore { tags: tag_set(tags), policies: kept };
        assert(store.policy_list() =~= grants_of(policies@));
        Some(store)
    }
}

/// Whether `tags` is in strictly rising order.
pub open spec fn ascending(tags: Seq<Tag>) -> bool {
    forall|i: int, j: int| 0 <= i < j < tags.len() ==> tags[i] < tags[j]
}

/// A set of tags has one rising order only.
pub proof fn lemma_ascending_is_unique(left: Seq<Tag>, right: Seq<Tag>)
    requires
        ascending(left),
        ascending(right),
        left.to_set() == right.to_set(),
    ensures
        left == right,
    decreases left.len(),
{
    if left.len() == 0 {
        if right.len() > 0 {
            assert(right.to_set().contains(right[0]));
            assert(left.to_set().contains(right[0]));
        }
        assert(left =~= right);
    } else if right.len() == 0 {
        assert(left.to_set().contains(left[0]));
        assert(right.to_set().contains(left[0]));
    } else {
        // The greatest tag of each list is its last, so the two last are the same.
        let a = left.last();
        let b = right.last();
        assert(left.to_set().contains(a)) by {
            assert(left[left.len() - 1] == a);
        }
        assert(right.to_set().contains(b)) by {
            assert(right[right.len() - 1] == b);
        }
        let i = choose|i: int| 0 <= i < right.len() && right[i] == a;
        let j = choose|j: int| 0 <= j < left.len() && left[j] == b;
        assert(a == b);
        assert forall|t: Tag| left.drop_last().to_set().contains(t) <==> right.drop_last().to_set().contains(
            t,
        ) by {
            if left.drop_last().to_set().contains(t) {
                let k = choose|k: int| 0 <= k < left.drop_last().len() && left.drop_last()[k] == t;
                assert(left[k] == t);
                assert(left.to_set().contains(t));
                let m = choose|m: int| 0 <= m < right.len() && right[m] == t;
                assert(right.drop_last()[m] == t);
            }
            if right.drop_last().to_set().contains(t) {
                let k = choose|k: int|
                    0 <= k < right.drop_last().len() && right.drop_last()[k] == t;
                assert(right[k] == t);
                assert(right.to_set().contains(t));
                let m = choose|m: int| 0 <= m < left.len() && left[m] == t;
                assert(left.drop_last()[m] == t);
            }
        }
        assert(left.drop_last().to_set() =~= right.drop_last().to_set());
        lemma_ascending_is_unique(left.drop_last(), right.drop_last());
        assert(left =~= left.drop_last().push(a));
        assert(right =~= right.drop_last().push(b));
    }
}

/// The tags of a set in rising order.
pub fn sorted_tags(tags: &TagSet) -> (sorted: Vec<Tag>)
    ensures
        ascending(sorted@),
        sorted@.to_set() == tags@,
{
    let mut sorted: Vec<Tag> = Vec::new();
    let ghost all = vstd::std_specs::hash::spec_hash_keys_iter(tags).remaining().unref();
    for tag in it: tags.iter()
        invariant
            it.seq().unref() == all,
            all.to_set() == tags@,
            ascending(sorted@),
            sorted@.to_set() == all.take(it.index() as int).to_set(),
    {
        let ghost before = sorted@;
        let ghost done = all.take(it.index() as int);
        assert(all[it.index() as int] == *tag);
        let mut at: usize = 0;
        while at < sorted.len() && sorted[at] < *tag
            invariant
                at <= sorted.len(),
                sorted@ == before,
                ascending(before),
                forall|k: int| 0 <= k < at ==> before[k] < *tag,
            decreases sorted.len() - at,
        {
            at += 1;
        }
        if at < sorted.len() && sorted[at] == *tag {
            proof {
                assert(before.to_set().contains(*tag)) by {
                    assert(before[at as int] == *tag);
                }
            }
        } else {
            sorted.insert(at, *tag);
            assert(sorted@ =~= before.insert(at as int, *tag));
            assert forall|i: int, j: int| 0 <= i < j < sorted.len() implies sorted[i] < sorted[j] by {
                if j < at {
                } else if j == at {
                } else if i < at {
                    assert(sorted[j] == before[j - 1]);
                } else if i == at {
                    assert(sorted[j] == before[j - 1]);
                    assert(before[at as int] <= before[j - 1]);
                } else {
                    assert(sorted[i] == before[i - 1] && sorted[j] == before[j - 1]);
                }
            }
        }
        proof {
            let now = all.take(it.index() + 1);
            assert forall|t: Tag| sorted@.to_set().contains(t) <==> now.to_set().contains(t) by {
                if sorted@.to_set().contains(t) {
                    let k = choose|k: int| 0 <= k < sorted.len() && sorted[k] == t;
                    if t != *tag {
                        if sorted.len() == before.len() {
                            assert(before[k] == t);
                        } else if k < at {
                            assert(before[k] == t);
                        } else {
                            assert(before[k - 1] == t);
                        }
                        assert(before.to_set().contains(t));
                        assert(done.to_set().contains(t));
                        let m = choose|m: int| 0 <= m < done.len() && done[m] == t;
                        assert(now[m] == t);
                    } else {
                        assert(now[it.index() as int] == t);
                    }
                }
                if now.to_set().contains(t) {
                    let m = choose|m: int| 0 <= m < now.len() && now[m] == t;
                    if m < it.index() {
                        assert(done[m] == t);
                        assert(done.to_set().contains(t));
                        assert(before.to_set().contains(t));
                        let k = choose|k: int| 0 <= k < before.len() && before[k] == t;
                        if sorted.len() == before.len() {
                            assert(sorted[k] == t);
                        } else if k < at {
                            assert(sorted[k] == t);
                        } else {
                            assert(sorted[k + 1] == t);
                        }
                    } else {
                        if sorted.len() == before.len() {
                            assert(sorted[at as int] == t);
                        } else {
                            assert(sorted[at as int] == t);
                        }
                    }
                }
            }
            assert(sorted@.to_set() =~= now.to_set());
        }
    }
    proof {
        assert(all.take(all.len() as int) =~= all);
    }
    sorted
}

/// The set of the tags in a list.
pub fn tag_set(tags: &Vec<Tag>) -> (set: TagSet)
    ensures
        set@ == tags@.to_set(),
{
    let mut set: TagSet = HashSet::new();
    let mut i: usize = 0;
    assert(tags@.take(0).to_set() =~= Set::<Tag>::empty());
    while i < tags.len()
        invariant
            i <= tags.len(),
            set@ == tags@.take(i as int).to_set(),
        decreases tags.len() - i,
    {
        set.insert(tags[i]);
        proof {
            let before = tags@.take(i as int);
            let now = tags@.take(i + 1);
            assert forall|t: Tag| now.to_set().contains(t) <==> before.to_set().insert(
                tags[i as int],
            ).contains(t) by {
                if now.to_set().contains(t) {
                    let k = choose|k: int| 0 <= k < now.len() && now[k] == t;
                    if k < i {
                        assert(before[k] == t);
                    }
                }
                if before.to_set().contains(t) {
                    let k = choose|k: int| 0 <= k < before.len() && before[k] == t;
                    assert(now[k] == t);
                }
                if t == tags[i as int] {
                    assert(now[i as int] == t);
                }
            }
            assert(now.to_set() =~= before.to_set().insert(tags[i as int]));
        }
        i += 1;
    }
    assert(tags@.take(tags.len() as int) =~= tags@);
    set
}

/// Whether some tag is in both sets.
pub fn share_tag(left: &TagSet, right: &TagSet) -> (shared: bool)
    ensures
        shared <==> exists|tag: Tag| right@.contains(tag) && left@.contains(tag),
{
    for tag in it: left.iter()
        invariant
            forall|k: int| 0 <= k < it.index() ==> !right@.contains(*it.seq()[k]),
    {
        if right.contains(tag) {
            return true;
        }
    }
    false
}

} // verus!
