//! The commands about secrets.

use crate::cli::common::{
    ask, asks, delete_warning, delete_warning_of, fails, unknown, unknown_of, Field, Kind, Next,
    HOST, SECRET,
};
use crate::keys::{is_recipient, sealed_for, Recipient};
use crate::routes::secret::{
    AclSecretRequest, AddSecretRequest, RemoveSecretRequest, RenameSecretRequest,
};
use crate::text::{contains, texts};
use vstd::prelude::*;
use vstd::string::StringExecFns;

verus! {

/// The arguments of `secret`.
#[derive(Debug)]
pub struct SecretArgs {
    pub command: SecretCommands,
}

/// What can be done about secrets from the command line. What is not given
/// is asked for.
#[derive(Debug)]
pub enum SecretCommands {
    /// Add or update a secret
    Add {
        /// The name of the secret
        name: Option<String>,
        /// The file that holds the content
        file: Option<String>,
    },
    /// Rename an existing secret
    Rename {
        /// The current name of the secret
        name: Option<String>,
        /// The new name for the secret
        new: Option<String>,
    },
    /// Delete a secret
    Remove {
        /// The name of the secret
        name: Option<String>,
    },
    /// Allow a `host` to access a `secret`
    Allow {
        /// The name of the host
        host: Option<String>,
        /// The name of the secret
        secret: Option<String>,
    },
    /// Deny a `host` to access a `secret`
    Deny {
        /// The name of the host
        host: Option<String>,
        /// The name of the secret
        secret: Option<String>,
    },
    /// Show secrets and the associated hosts
    Show {
        /// Filter by secret
        secret: Vec<String>,
        /// Filter by host
        host: Vec<String>,
    },
}

/// What a command needs to know from the coordinator before it can go on.
#[derive(Debug, Clone, Copy, PartialEq, Eq, Structural)]
pub enum Needs {
    /// The recipient of the coordinator, to encrypt the secret to.
    ServerRecipient,
    /// The names of the secrets.
    Secrets,
    /// The names of the secrets and of the hosts.
    SecretsAndHosts,
    /// All access lists.
    AccessLists,
}

/// What the command in `args` needs to know from the coordinator.
pub fn handle_secret_command(args: &SecretArgs) -> (needs: Needs)
    ensures
        needs == match args.command {
            SecretCommands::Add { .. } => Needs::ServerRecipient,
            SecretCommands::Rename { .. } | SecretCommands::Remove { .. } => Needs::Secrets,
            SecretCommands::Allow { .. } | SecretCommands::Deny { .. } => Needs::SecretsAndHosts,
            SecretCommands::Show { .. } => Needs::AccessLists,
        },
{
    match &args.command {
        SecretCommands::Add { .. } => Needs::ServerRecipient,
        SecretCommands::Rename { .. } => Needs::Secrets,
        SecretCommands::Remove { .. } => Needs::Secrets,
        SecretCommands::Allow { .. } => Needs::SecretsAndHosts,
        SecretCommands::Deny { .. } => Needs::SecretsAndHosts,
        SecretCommands::Show { .. } => Needs::AccessLists,
    }
}

/// What is said when the coordinator's recipient is none.
pub const BAD_RECIPIENT: &'static str = "Could not parse the server recipient key";

/// What is said when a secret cannot be encrypted.
pub const NOT_ENCRYPTED: &'static str = "Could not encrypt the secret with the provided Recipient";

/// Adds or updates a secret: it is encrypted to the coordinator's recipient
/// and sent under its name. The recipient is looked at first, then the name
/// is asked for where it is missing, then the file.
pub fn add(recipient: &str, name: Option<String>, content: Option<Vec<u8>>) -> (next: Next<
    AddSecretRequest,
>)
    ensures
        if !is_recipient(recipient@) {
            fails(next, BAD_RECIPIENT@)
        } else {
            match (name, content) {
                (None, _) => asks(
                    next,
                    Field::Name,
                    Kind::Text,
                    "What should the name of the secret be?"@,
                ),
                (Some(_), None) => asks(next, Field::File, Kind::Text, "Secret File:"@),
                (Some(name), Some(content)) => match next {
                    Next::Send(request) => request.name == name && sealed_for(
                        recipient@,
                        content@,
                        request.secret@,
                    ),
                    Next::Fail(message) => message@ == NOT_ENCRYPTED@,
                    _ => false,
                },
            }
        },
{
    let recipient = match Recipient::parse(recipient) {
        Some(recipient) => recipient,
        None => {
            return Next::Fail(String::from_str(BAD_RECIPIENT));
        },
    };
    let name = match name {
        Some(name) => name,
        None => {
            return ask(Field::Name, Kind::Text, "What should the name of the secret be?");
        },
    };
    let content = match content {
        Some(content) => content,
        None => {
            return ask(Field::File, Kind::Text, "Secret File:");
        },
    };
    match recipient.encrypt(content.as_slice()) {
        Ok(secret) => Next::Send(AddSecretRequest { name, secret }),
        Err(_) => Next::Fail(String::from_str(NOT_ENCRYPTED)),
    }
}

/// Renames a secret, which has to be one of those `known`.
pub fn rename(known: &Vec<String>, name: Option<String>, new: Option<String>) -> (next: Next<
    RenameSecretRequest,
>)
    ensures
        match name {
            None => asks(next, Field::Secret, Kind::Select, "Which secret do you want to rename?"@),
            Some(name) => if !texts(known@).contains(name@) {
                fails(next, unknown_of(SECRET@, name@))
            } else {
                match new {
                    None => asks(next, Field::New, Kind::Text, "What should the new name be?"@),
                    Some(new) => next matches Next::Send(request) && request.current_name == name
                        && request.new_name == new,
                }
            },
        },
{
    let name = match name {
        Some(name) => name,
        None => {
            return ask(Field::Secret, Kind::Select, "Which secret do you want to rename?");
        },
    };
    if !contains(known, &name) {
        return Next::Fail(unknown(SECRET, name.as_str()));
    }
    match new {
        Some(new) => Next::Send(RenameSecretRequest { current_name: name, new_name: new }),
        None => ask(Field::New, Kind::Text, "What should the new name be?"),
    }
}

/// Deletes a secret, which has to be one of those `known`, once the user has
/// said that this is meant.
pub fn remove(known: &Vec<String>, secret: Option<String>, confirmed: Option<bool>) -> (next: Next<
    RemoveSecretRequest,
>)
    ensures
        match secret {
            None => asks(next, Field::Secret, Kind::Select, "Which secret do you want to delete?"@),
            Some(name) => if !texts(known@).contains(name@) {
                fails(next, unknown_of(SECRET@, name@))
            } else {
                match confirmed {
                    None => asks(next, Field::Confirm, Kind::Confirm, delete_warning_of(name@)),
                    Some(false) => next is Stop,
                    Some(true) => next matches Next::Send(request) && request.secret_name == name,
                }
            },
        },
{
    let name = match secret {
        Some(name) => name,
        None => {
            return ask(Field::Secret, Kind::Select, "Which secret do you want to delete?");
        },
    };
    if !contains(known, &name) {
        return Next::Fail(unknown(SECRET, name.as_str()));
    }
    match confirmed {
        None => {
            let message = delete_warning(name.as_str());
            ask(Field::Confirm, Kind::Confirm, message.as_str())
        },
        Some(false) => Next::Stop,
        Some(true) => Next::Send(RemoveSecretRequest { secret_name: name }),
    }
}

/// What comes of the secret and the host that a change of an access list
/// names: a question, a complaint, or the two names.
pub enum Named {
    Go(String, String),
    Ask(Field, Kind),
    Unknown(Field, String),
}

/// The secret and the host that a change of an access list is about. Both
/// have to be known, the secret first.
fn secret_and_host(
    secrets: &Vec<String>,
    hosts: &Vec<String>,
    secret: Option<String>,
    host: Option<String>,
) -> (named: Named)
    ensures
        match secret {
            None => named matches Named::Ask(Field::Secret, Kind::Select),
            Some(secret) => if !texts(secrets@).contains(secret@) {
                named matches Named::Unknown(Field::Secret, bad) && bad == secret
            } else {
                match host {
                    None => named matches Named::Ask(Field::Host, Kind::Select),
                    Some(host) => if !texts(hosts@).contains(host@) {
                        named matches Named::Unknown(Field::Host, bad) && bad == host
                    } else {
                        named matches Named::Go(s, h) && s == secret && h == host
                    },
                }
            },
        },
{
    let secret = match secret {
        Some(secret) => secret,
        None => {
            return Named::Ask(Field::Secret, Kind::Select);
        },
    };
    if !contains(secrets, &secret) {
        return Named::Unknown(Field::Secret, secret);
    }
    let host = match host {
        Some(host) => host,
        None => {
            return Named::Ask(Field::Host, Kind::Select);
        },
    };
    if !contains(hosts, &host) {
        return Named::Unknown(Field::Host, host);
    }
    Named::Go(secret, host)
}

/// What happens next when an access list is changed, where a host is asked
/// for with `which_host`, and `request` is the request to send.
pub open spec fn changes(
    next: Next<AclSecretRequest>,
    secrets: Seq<Seq<char>>,
    hosts: Seq<Seq<char>>,
    secret: Option<String>,
    host: Option<String>,
    which_host: Seq<char>,
    request: spec_fn(String, String) -> AclSecretRequest,
) -> bool {
    match secret {
        None => asks(next, Field::Secret, Kind::Select, "Which secret do you want to modify?"@),
        Some(secret) => if !secrets.contains(secret@) {
            fails(next, unknown_of(SECRET@, secret@))
        } else {
            match host {
                None => asks(next, Field::Host, Kind::Select, which_host),
                Some(host) => if !hosts.contains(host@) {
                    fails(next, unknown_of(HOST@, host@))
                } else {
                    next == Next::Send(request(secret, host))
                },
            }
        },
    }
}

/// Lets a host read a secret. Both have to be known.
pub fn allow(
    secrets: &Vec<String>,
    hosts: &Vec<String>,
    secret: Option<String>,
    host: Option<String>,
) -> (next: Next<AclSecretRequest>)
    ensures
        changes(
            next,
            texts(secrets@),
            texts(hosts@),
            secret,
            host,
            "Which Host should be able to access this secret?"@,
            |secret: String, host: String| AclSecretRequest::AllowHost { secret, host },
        ),
{
    match secret_and_host(secrets, hosts, secret, host) {
        Named::Go(secret, host) => Next::Send(AclSecretRequest::AllowHost { secret, host }),
        Named::Ask(Field::Secret, _) => ask(
            Field::Secret,
            Kind::Select,
            "Which secret do you want to modify?",
        ),
        Named::Ask(_, _) => ask(
            Field::Host,
            Kind::Select,
            "Which Host should be able to access this secret?",
        ),
        Named::Unknown(Field::Secret, name) => Next::Fail(unknown(SECRET, name.as_str())),
        Named::Unknown(_, name) => Next::Fail(unknown(HOST, name.as_str())),
    }
}

/// No longer lets a host read a secret. Both have to be known.
pub fn deny(
    secrets: &Vec<String>,
    hosts: &Vec<String>,
    secret: Option<String>,
    host: Option<String>,
) -> (next: Next<AclSecretRequest>)
    ensures
        changes(
            next,
            texts(secrets@),
            texts(hosts@),
            secret,
            host,
            "Which Host should be removed?"@,
            |secret: String, host: String| AclSecretRequest::RemoveHost { secret, host },
        ),
{
    match secret_and_host(secrets, hosts, secret, host) {
        Named::Go(secret, host) => Next::Send(AclSecretRequest::RemoveHost { secret, host }),
        Named::Ask(Field::Secret, _) => ask(
            Field::Secret,
            Kind::Select,
            "Which secret do you want to modify?",
        ),
        Named::Ask(_, _) => ask(Field::Host, Kind::Select, "Which Host should be removed?"),
        Named::Unknown(Field::Secret, name) => Next::Fail(unknown(SECRET, name.as_str())),
        Named::Unknown(_, name) => Next::Fail(unknown(HOST, name.as_str())),
    }
}

/// The names in a list of access lists.
pub open spec fn secrets_of(lists: Seq<(String, Vec<String>)>) -> Seq<Seq<char>> {
    lists.map_values(|list: (String, Vec<String>)| list.0@)
}

/// The access lists to show: all of them where no secret is named, and those
/// of the secrets named otherwise, in their order.
pub fn show(lists: Vec<(String, Vec<String>)>, secrets: &Vec<String>) -> (rest: Vec<
    (String, Vec<String>),
>)
    ensures
        secrets.len() == 0 ==> rest == lists,
        secrets.len() > 0 ==> {
            &&& secrets_of(rest@) == secrets_of(lists@).filter(
                |name: Seq<char>| texts(secrets@).contains(name),
            )
            &&& forall|i: int|
                0 <= i < rest.len() ==> exists|j: int|
                    0 <= j < lists.len() && #[trigger] lists[j] == #[trigger] rest[i]
        },
{
    if secrets.len() == 0 {
        return lists;
    }
    let ghost all = lists@;
    let ghost names = secrets_of(lists@);
    let ghost keep = |name: Seq<char>| texts(secrets@).contains(name);
    let mut pending = lists;
    let mut turned: Vec<(String, Vec<String>)> = Vec::new();
    while pending.len() > 0
        invariant
            pending@ + turned@.reverse() == all,
        decreases pending.len(),
    {
        let ghost before = pending@;
        let ghost was = turned@;
        let one = pending.pop().unwrap();
        turned.push(one);
        proof {
            assert(turned@.reverse() =~= seq![one] + was.reverse());
            assert(before =~= pending@ + seq![one]);
            assert(pending@ + turned@.reverse() =~= before + was.reverse());
        }
    }
    assert(turned@.reverse() =~= all);
    let mut rest: Vec<(String, Vec<String>)> = Vec::new();
    proof {
        reveal(Seq::filter);
        assert(names.take(0) =~= Seq::<Seq<char>>::empty());
        assert(secrets_of(rest@) =~= Seq::<Seq<char>>::empty());
    }
    while turned.len() > 0
        invariant
            all == lists@,
            names == secrets_of(all),
            keep == |name: Seq<char>| texts(secrets@).contains(name),
            turned.len() <= all.len(),
            turned@.reverse() == all.skip(all.len() - turned.len()),
            secrets_of(rest@) == names.take(all.len() - turned.len()).filter(keep),
            forall|i: int|
                0 <= i < rest.len() ==> exists|j: int|
                    0 <= j < all.len() && #[trigger] all[j] == #[trigger] rest[i],
        decreases turned.len(),
    {
        let ghost done = all.len() - turned.len();
        let ghost was = turned@;
        let one = turned.pop().unwrap();
        proof {
            reveal(Seq::filter);
            assert(was.reverse()[0] == was.last());
            assert(all[done] == one);
            assert(names.take(done + 1).drop_last() =~= names.take(done));
            assert(names.take(done + 1).last() == one.0@);
            assert(turned@.reverse() =~= all.skip(done + 1)) by {
                assert(turned@ =~= was.drop_last());
                assert(was.drop_last().reverse() =~= was.reverse().skip(1));
            }
        }
        if contains(secrets, &one.0) {
            let ghost before = rest@;
            rest.push(one);
            proof {
                assert(secrets_of(rest@) =~= secrets_of(before).push(one.0@));
                assert forall|i: int| 0 <= i < rest.len() implies exists|j: int|
                    0 <= j < all.len() && #[trigger] all[j] == #[trigger] rest[i] by {
                    if i < before.len() {
                        assert(rest[i] == before[i]);
                        let j = choose|j: int| 0 <= j < all.len() && #[trigger] all[j] == before[i];
                        assert(all[j] == rest[i]);
                    } else {
                        assert(all[done] == rest[i]);
                    }
                }
            }
        }
    }
    assert(names.take(all.len() as int) =~= names);
    rest
}

} // verus!
