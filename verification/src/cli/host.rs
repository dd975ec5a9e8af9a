//! The commands about hosts.

use crate::cli::common::{ask, asks, delete_warning, delete_warning_of, Field, Kind, Next};
use crate::routes::host::{HostRemoveRequest, HostRenameRequest};
use vstd::prelude::*;
use vstd::string::StringExecFns;

verus! {

/// Removes a host, once the user has said that this is meant. A host that is
/// not named is picked from those that are there.
pub fn remove(hostname: Option<String>, confirmed: Option<bool>) -> (next: Next<HostRemoveRequest>)
    ensures
        match hostname {
            None => asks(next, Field::Host, Kind::Select, "Which host do you want to delete>"@),
            Some(name) => match confirmed {
                None => asks(next, Field::Confirm, Kind::Confirm, delete_warning_of(name@)),
                Some(false) => next is Stop,
                Some(true) => next matches Next::Send(request) && request.hostname == name,
            },
        },
{
    let name = match hostname {
        Some(name) => name,
        None => {
            return ask(Field::Host, Kind::Select, "Which host do you want to delete>");
        },
    };
    match confirmed {
        None => {
            let message = delete_warning(name.as_str());
            ask(Field::Confirm, Kind::Confirm, message.as_str())
        },
        Some(false) => Next::Stop,
        Some(true) => Next::Send(HostRemoveRequest { hostname: name }),
    }
}

/// What is asked before a host is renamed.
pub open spec fn rename_warning_of(current: Seq<char>, new: Seq<char>) -> Seq<char> {
    "Are you sure you want to rename "@ + current + " to "@ + new + "."@
}

/// Renames a host, once the user has said that this is meant. A host that is
/// not named is picked from those that are there.
pub fn rename(current_name: Option<String>, new_name: Option<String>, confirmed: Option<bool>) -> (next:
    Next<HostRenameRequest>)
    ensures
        match (current_name, new_name) {
            (None, _) => asks(next, Field::Host, Kind::Select, "Which host do you want to rename>"@),
            (Some(_), None) => asks(next, Field::New, Kind::Text, "What should the new name be?"@),
            (Some(current), Some(new)) => match confirmed {
                None => asks(
                    next,
                    Field::Confirm,
                    Kind::Confirm,
                    rename_warning_of(current@, new@),
                ),
                Some(false) => next is Stop,
                Some(true) => next matches Next::Send(request) && request.current_name == current
                    && request.new_name == new,
            },
        },
{
    let current = match current_name {
        Some(current) => current,
        None => {
            return ask(Field::Host, Kind::Select, "Which host do you want to rename>");
        },
    };
    let new = match new_name {
        Some(new) => new,
        None => {
            return ask(Field::New, Kind::Text, "What should the new name be?");
        },
    };
    match confirmed {
        None => {
            let mut message = String::from_str("Are you sure you want to rename ");
            message.append(current.as_str());
            message.append(" to ");
            message.append(new.as_str());
            message.append(".");
            ask(Field::Confirm, Kind::Confirm, message.as_str())
        },
        Some(false) => Next::Stop,
        Some(true) => Next::Send(HostRenameRequest { new_name: new, current_name: current }),
    }
}

} // verus!
