//! What the commands have in common.

use vstd::prelude::*;
use vstd::string::StringExecFns;

verus! {

/// What is said when no coordinator is named.
pub const URL_REQUIRED: &'static str = "`--url` required for publish";

/// The coordinator to talk to: the one named on the command line or in the
/// configuration, else the one that the local agent talks to, and none where
/// neither is known.
pub fn get_server_url(configured: Option<String>, agent: Option<String>) -> (url: Result<
    String,
    String,
>)
    ensures
        match (configured, agent) {
            (Some(named), _) => url == Ok::<String, String>(named),
            (None, Some(known)) => url == Ok::<String, String>(known),
            (None, None) => url matches Err(message) && message@ == URL_REQUIRED@,
        },
{
    match configured {
        Some(named) => Ok(named),
        None => match agent {
            Some(known) => Ok(known),
            None => Err(String::from_str(URL_REQUIRED)),
        },
    }
}

/// What a question is about.
#[derive(Debug, Clone, Copy, PartialEq, Eq, Structural)]
pub enum Field {
    /// The name of a secret that is to be made.
    Name,
    /// The file that holds a secret.
    File,
    /// The new name of what is renamed.
    New,
    /// A secret that is there.
    Secret,
    /// A host that is there.
    Host,
    /// Whether to go on.
    Confirm,
    /// The name that a host is to get.
    Hostname,
    /// The code of an attempt to enrol.
    Code,
    /// The file to write the facts about a host to.
    Output,
}

/// How a question is answered.
#[derive(Debug, Clone, Copy, PartialEq, Eq, Structural)]
pub enum Kind {
    /// With a text.
    Text,
    /// With a number.
    Number,
    /// With one of the names that are known.
    Select,
    /// With yes or no, and no where nothing is said.
    Confirm,
}

/// A question to the user.
#[derive(Debug, PartialEq, Eq)]
pub struct Question {
    pub field: Field,
    pub kind: Kind,
    pub message: String,
}

/// What a command does next.
#[derive(Debug, PartialEq, Eq)]
pub enum Next<R> {
    /// It asks the user.
    Ask(Question),
    /// It sends the request and is done.
    Send(R),
    /// It ends, and nothing has been done: the user did not want to go on.
    Stop,
    /// It ends with this complaint.
    Fail(String),
}

/// Whether `next` is this question.
pub open spec fn asks<R>(next: Next<R>, field: Field, kind: Kind, message: Seq<char>) -> bool {
    next matches Next::Ask(question) && question.field == field && question.kind == kind
        && question.message@ == message
}

/// Whether `next` is the end of the command with this complaint.
pub open spec fn fails<R>(next: Next<R>, message: Seq<char>) -> bool {
    next matches Next::Fail(complaint) && complaint@ == message
}

/// The question about `field` that is answered in this way.
pub fn ask<R>(field: Field, kind: Kind, message: &str) -> (next: Next<R>)
    ensures
        asks(next, field, kind, message@),
{
    Next::Ask(Question { field, kind, message: String::from_str(message) })
}

/// What is said of a name that is not known: `kind`, the name, and that it
/// does not exist.
pub open spec fn unknown_of(kind: Seq<char>, name: Seq<char>) -> Seq<char> {
    kind + " "@ + name + " does not exist!"@
}

/// What is said of the name `name` of a thing of this `kind` that is not
/// known.
pub fn unknown(kind: &str, name: &str) -> (message: String)
    ensures
        message@ == unknown_of(kind@, name@),
{
    let mut message = String::from_str(kind);
    message.append(" ");
    message.append(name);
    message.append(" does not exist!");
    message
}

/// The word for a secret in what is said to the user.
pub const SECRET: &'static str = "Secret";

/// The word for a host in what is said to the user.
pub const HOST: &'static str = "Host";

/// What is asked before something is deleted for good.
pub open spec fn delete_warning_of(name: Seq<char>) -> Seq<char> {
    "Are you sure you want to delete "@ + name + ". This action is not reversable"@
}

/// What is asked before `name` is deleted for good.
pub fn delete_warning(name: &str) -> (message: String)
    ensures
        message@ == delete_warning_of(name@),
{
    let mut message = String::from_str("Are you sure you want to delete ");
    message.append(name);
    message.append(". This action is not reversable");
    message
}

} // verus!
