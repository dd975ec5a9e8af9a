//! Switching a host to a new version, step by step.
//!
//! An update fetches the version, writes its secrets into a new generation,
//! points the secret link at it, activates the version and looks whether the
//! host now runs it. If it does, the generations that are left over are
//! removed; if it does not, the link is put back and the new generation
//! removed. An update ends well only where all of this went through, and its
//! error tells how far it came where it did not.
//!
//! The steps touch the host, so the agent performs them. What comes next is
//! decided here: `Update::start` names the first command, and `advance`
//! takes what came of a command and names the next, until the update is
//! finished. The module `switch` holds a model of what the commands do to the
//! host, and the proof that an update that follows these decisions leaves
//! the host as it should.

use crate::generation::{
    files_of, next_after, next_generation, plan_generation, views, GenerationError, SecretFile,
};
use crate::secret::Secret;
use crate::version::RemoteStorePath;
use vstd::prelude::*;

verus! {

/// Why an update did not go through.
#[derive(Debug)]
pub enum UpdateError {
    /// The version could not be fetched.
    Download(String),
    /// The secrets of the version could not be read or asked for.
    Stage(String),
    /// The coordinator does not hand out a secret that the version needs.
    MissingSecret(String),
    /// The secrets of the version cannot be written as it defines them.
    Generation(GenerationError),
    /// The generation in use has the greatest number there is: none is left
    /// for a new one.
    Exhausted,
    /// The new generation could not be written.
    Create(String),
    /// The secret link could not be pointed at the new generation.
    Point(String),
    /// Activating the version failed, and the host does not run it.
    Activation(String),
    /// Activating the version went through, yet the host does not run it.
    NotActivated,
    /// The version that the host runs could not be read after the
    /// activation, so the update was taken to have failed.
    Verify(String),
    /// The host runs the version, but what was left over in the secret root
    /// could not all be removed.
    Collect(String),
    /// The host runs the version, but those who wait for it could not be told.
    Notify(String),
    /// The update failed because of `cause`, and then the secret link could
    /// not be put back.
    Restore { reason: String, cause: Box<UpdateError> },
    /// The update failed because of `cause`, and then the new generation could
    /// not be removed.
    Remove { reason: String, cause: Box<UpdateError> },
}

impl UpdateError {
    /// Whether the error came after the switch: the host runs the new version.
    pub open spec fn after_commit(self) -> bool {
        self is Notify || self is Collect
    }

    /// Whether the update failed and could not be undone in full.
    pub open spec fn rollback_failed(self) -> bool {
        self is Restore || self is Remove
    }

    /// Whether the update failed and was undone.
    pub open spec fn clean(self) -> bool {
        !self.after_commit() && !self.rollback_failed()
    }

    /// Whether the update failed without it being known which version the
    /// host runs: the version could not be read after the activation.
    pub open spec fn blind(self) -> bool {
        match self {
            UpdateError::Verify(_) => true,
            UpdateError::Restore { cause, .. } => *cause is Verify,
            UpdateError::Remove { cause, .. } => *cause is Verify,
            _ => false,
        }
    }
}

/// A secret of a version with what the coordinator handed out for it.
#[derive(Debug)]
pub struct Fetched {
    /// The name by which the coordinator knows the secret.
    pub name: String,
    /// How the version wants it installed.
    pub definition: Secret,
    /// The secret, if the coordinator handed it out.
    pub content: Option<Vec<u8>>,
}

/// Something for the agent to do.
#[derive(Debug)]
pub enum Command {
    /// Fetch the version with the local store tool.
    Download { version: RemoteStorePath },
    /// Read where the secret link points.
    ReadLink,
    /// Read the manifest of the version and ask the coordinator for each
    /// secret in it.
    FetchSecrets { store_path: String },
    /// Make the directory of the generation and write the files into it.
    CreateGeneration { generation: u64, files: Vec<SecretFile> },
    /// Remove the secret link, if there is one, and make it anew, pointing at
    /// the generation.
    PointLink { generation: u64 },
    /// Set the system profile to the store path and run its activation.
    Activate { store_path: String },
    /// Read which version the host runs.
    ReadActive,
    /// Remove everything in the secret root but the generation.
    CollectGarbage { keep: u64 },
    /// Remove the secret link, if there is one, and make it anew, pointing at
    /// the target, if there is one.
    RestoreLink { target: Option<String> },
    /// Remove the directory of the generation with all that is in it.
    RemoveGeneration { generation: u64 },
    /// Tell those who wait for it that the host runs a new version.
    Notify,
}

/// What came of a command.
#[derive(Debug)]
pub enum Outcome {
    /// It went through.
    Done,
    /// It failed, for this reason.
    Failed(String),
    /// The secret link points here, or there is none.
    Link(Option<String>),
    /// The secrets of the version, or none where it has no manifest.
    Secrets(Option<Vec<Fetched>>),
    /// The host runs this version.
    Active(String),
}

/// Where an update stands: which command it waits for, and what it has to
/// remember about the commands before.
#[derive(Debug)]
pub enum Phase {
    /// The version is being fetched.
    Download,
    /// The secret link is being read.
    ReadLink,
    /// The secrets are being fetched.
    Stage,
    /// The generation is being written.
    Create { generation: u64 },
    /// The link is being pointed at the generation.
    Point { generation: u64 },
    /// The version is being activated, with the generation that was made for
    /// it, if one was.
    Activate { staged: Option<u64> },
    /// The running version is being read; `activation` is why the activation
    /// failed, if it did.
    Verify { staged: Option<u64>, activation: Option<UpdateError> },
    /// What is left over is being removed.
    Collect { generation: u64 },
    /// The link is being put back, because of `failure`.
    Restore { generation: u64, failure: UpdateError },
    /// The generation is being removed, because of `failure`.
    Remove { generation: u64, failure: UpdateError },
    /// Those who wait for the switch are being told.
    Notify { staged: Option<u64> },
}

/// An update under way.
#[derive(Debug)]
pub struct Update {
    /// The version to switch to.
    pub version: RemoteStorePath,
    /// Where the secret link pointed before the update, once that is known.
    pub previous: Option<String>,
    /// Where the update stands.
    pub phase: Phase,
}

/// What an update does next.
#[derive(Debug)]
pub enum Step {
    /// It goes on with this command.
    Next(Update, Command),
    /// It is over. Where the host now runs the version, this names the
    /// generation that was made for it, if the version has secrets.
    Finished(Result<Option<u64>, UpdateError>),
}

/// The reason that an outcome gives for a failure: its own where it is one,
/// and none where the outcome is of another kind than the command asks for.
pub open spec fn reason_of(outcome: Outcome) -> Seq<char> {
    match outcome {
        Outcome::Failed(reason) => reason@,
        _ => Seq::empty(),
    }
}

/// The reason that an outcome gives for a failure.
fn reason(outcome: Outcome) -> (reason: String)
    ensures
        reason@ == reason_of(outcome),
{
    match outcome {
        Outcome::Failed(reason) => reason,
        _ => String::new(),
    }
}

/// The secrets with their definitions, where each has been handed out, or the
/// name of the first that has not.
pub open spec fn complete(fetched: Seq<Fetched>) -> Result<Seq<(Secret, Vec<u8>)>, Seq<char>>
    decreases fetched.len(),
{
    if fetched.len() == 0 {
        Ok(Seq::empty())
    } else {
        match complete(fetched.drop_last()) {
            Err(name) => Err(name),
            Ok(secrets) => match fetched.last().content {
                None => Err(fetched.last().name@),
                Some(content) => Ok(secrets.push((fetched.last().definition, content))),
            },
        }
    }
}

/// The secrets with their definitions, or the name of the first that the
/// coordinator did not hand out.
pub fn gather(fetched: Vec<Fetched>) -> (gathered: Result<Vec<(Secret, Vec<u8>)>, String>)
    ensures
        match gathered {
            Ok(secrets) => complete(fetched@) == Ok::<Seq<(Secret, Vec<u8>)>, Seq<char>>(secrets@),
            Err(name) => complete(fetched@) == Err::<Seq<(Secret, Vec<u8>)>, Seq<char>>(name@),
        },
{
    let ghost all = fetched@;
    let mut pending = fetched;
    let mut rest: Vec<Fetched> = Vec::new();
    while pending.len() > 0
        invariant
            pending@ + rest@.reverse() == all,
        decreases pending.len(),
    {
        let ghost before = pending@;
        let ghost turned = rest@;
        let one = pending.pop().unwrap();
        rest.push(one);
        proof {
            assert(rest@.reverse() =~= seq![one] + turned.reverse());
            assert(before =~= pending@ + seq![one]);
            assert(pending@ + rest@.reverse() =~= before + turned.reverse());
        }
    }
    assert(rest@.reverse() =~= all);
    assert(all.take(0) =~= Seq::<Fetched>::empty());
    let mut secrets: Vec<(Secret, Vec<u8>)> = Vec::new();
    while rest.len() > 0
        invariant
            all == fetched@,
            rest.len() <= all.len(),
            rest@.reverse() == all.skip(all.len() - rest.len()),
            complete(all.take(all.len() - rest.len())) == Ok::<Seq<(Secret, Vec<u8>)>, Seq<char>>(
                secrets@,
            ),
        decreases rest.len(),
    {
        let ghost done = all.len() - rest.len();
        let ghost turned = rest@;
        let one = rest.pop().unwrap();
        proof {
            assert(turned.reverse()[0] == turned.last());
            assert(all[done] == one);
            assert(all.take(done + 1).drop_last() =~= all.take(done));
            assert(all.take(done + 1).last() == all[done]);
            assert(rest@.reverse() =~= all.skip(done + 1)) by {
                assert(rest@ =~= turned.drop_last());
                assert(turned.drop_last().reverse() =~= turned.reverse().skip(1));
            }
        }
        match one.content {
            Some(content) => {
                secrets.push((one.definition, content));
            },
            None => {
                proof {
                    lemma_incomplete(all, done + 1);
                }
                return Err(one.name);
            },
        }
    }
    assert(all.take(all.len() as int) =~= all);
    Ok(secrets)
}

/// A secret that is missing among the first is missing among all.
proof fn lemma_incomplete(fetched: Seq<Fetched>, n: int)
    requires
        0 <= n <= fetched.len(),
        complete(fetched.take(n)) is Err,
    ensures
        complete(fetched) == complete(fetched.take(n)),
    decreases fetched.len() - n,
{
    if n < fetched.len() {
        assert(fetched.take(n + 1).drop_last() =~= fetched.take(n));
        lemma_incomplete(fetched, n + 1);
    } else {
        assert(fetched.take(n) =~= fetched);
    }
}

/// The target of a link, as plain values.
pub open spec fn target_of(link: Option<String>) -> Option<Seq<char>> {
    match link {
        Some(target) => Some(target@),
        None => None,
    }
}

/// A switch by hand to a version that is there already: the version is
/// activated, and then those who wait for it are told.
#[derive(Debug, Clone, Copy, PartialEq, Eq, Structural)]
pub enum Switching {
    /// The version is being activated.
    Activating,
    /// Those who wait for the switch are being told.
    Telling,
}

/// Begins a switch by hand: the first thing to do is to activate the
/// version.
pub fn switch_to(store_path: &str) -> (begun: (Switching, Command))
    ensures
        begun.0 is Activating,
        begun.1 matches Command::Activate { store_path: wanted } && wanted@ == store_path@,
{
    (Switching::Activating, Command::Activate { store_path: store_path.to_owned() })
}

impl Switching {
    /// Whether `next` is what a switch by hand does when `outcome` is what
    /// came of the command it waited for: those who wait are told only once
    /// the activation went through, and the switch ends well only once they
    /// were told.
    pub open spec fn follows(
        self,
        outcome: Outcome,
        next: Result<Option<(Switching, Command)>, UpdateError>,
    ) -> bool {
        match (self, outcome) {
            (Switching::Activating, Outcome::Done) => next matches Ok(
                Some((Switching::Telling, Command::Notify)),
            ),
            (Switching::Activating, _) => next matches Err(UpdateError::Activation(why)) && why@
                == reason_of(outcome),
            (Switching::Telling, Outcome::Done) => next matches Ok(None),
            (Switching::Telling, _) => next matches Err(UpdateError::Notify(why)) && why@
                == reason_of(outcome),
        }
    }

    /// Takes what came of the command that the switch waited for and says
    /// what it does next: another command, or nothing more.
    pub fn advance(self, outcome: Outcome) -> (next: Result<
        Option<(Switching, Command)>,
        UpdateError,
    >)
        ensures
            self.follows(outcome, next),
    {
        match self {
            Switching::Activating => match outcome {
                Outcome::Done => Ok(Some((Switching::Telling, Command::Notify))),
                other => Err(UpdateError::Activation(reason(other))),
            },
            Switching::Telling => match outcome {
                Outcome::Done => Ok(None),
                other => Err(UpdateError::Notify(reason(other))),
            },
        }
    }
}

/// Why a host that was to run a version does not, given why activating it
/// failed, if it did, and what came of reading the version it runs. Where
/// that could not be read, this is what is reported: it is then not known
/// which version the host runs.
pub open spec fn blamed(failure: Option<UpdateError>, outcome: Outcome, error: UpdateError) -> bool {
    match outcome {
        Outcome::Active(_) => match failure {
            Some(failure) => error == failure,
            None => error is NotActivated,
        },
        _ => error matches UpdateError::Verify(why) && why@ == reason_of(outcome),
    }
}

impl Update {
    /// The store path of the version to switch to.
    pub open spec fn requested(self) -> Seq<char> {
        self.version.store_path@
    }

    /// `self` in another phase.
    pub open spec fn in_phase(self, phase: Phase) -> Update {
        Update { phase, ..self }
    }

    /// Begins the update to `version`: the first thing to do is to fetch it.
    pub fn start(version: RemoteStorePath) -> (begun: (Update, Command))
        ensures
            begun.0 == (Update { version, previous: None, phase: Phase::Download }),
            begun.1 matches Command::Download { version: wanted } && wanted@ == version@,
    {
        let wanted = version.copy();
        (Update { version, previous: None, phase: Phase::Download }, Command::Download { version: wanted })
    }

    /// Whether `step` is what the update does when `outcome` is what came of
    /// the command it waited for.
    pub open spec fn follows(self, outcome: Outcome, step: Step) -> bool {
        match self.phase {
            // A version that cannot be fetched ends the update.
            Phase::Download => match outcome {
                Outcome::Done => step matches Step::Next(next, Command::ReadLink) && next
                    == self.in_phase(Phase::ReadLink),
                _ => step matches Step::Finished(Err(UpdateError::Download(why))) && why@
                    == reason_of(outcome),
            },
            // Where the link cannot be read there counts as being none.
            Phase::ReadLink => step matches Step::Next(next, Command::FetchSecrets { store_path })
                && store_path@ == self.requested() && next == (Update {
                phase: Phase::Stage,
                previous: match outcome {
                    Outcome::Link(target) => target,
                    _ => None,
                },
                ..self
            }),
            // A version without secrets is activated as it is. One whose
            // secrets cannot all be had, or cannot be written as it defines
            // them, ends the update: nothing has been written yet.
            Phase::Stage => match outcome {
                Outcome::Secrets(None) => step matches Step::Next(
                    next,
                    Command::Activate { store_path },
                ) && store_path@ == self.requested() && next == self.in_phase(
                    Phase::Activate { staged: None },
                ),
                Outcome::Secrets(Some(fetched)) => match complete(fetched@) {
                    Err(name) => step matches Step::Finished(Err(UpdateError::MissingSecret(missing)))
                        && missing@ == name,
                    Ok(secrets) => match files_of(secrets) {
                        Err(fault) => step matches Step::Finished(
                            Err(UpdateError::Generation(error)),
                        ) && error@ == fault,
                        Ok(planned) => if next_after(target_of(self.previous)) > u64::MAX {
                            step matches Step::Finished(Err(UpdateError::Exhausted))
                        } else {
                            step matches Step::Next(
                                next,
                                Command::CreateGeneration { generation, files },
                            ) && generation == next_after(target_of(self.previous)) && views(files@)
                                == planned && next == self.in_phase(Phase::Create { generation })
                        },
                    },
                },
                _ => step matches Step::Finished(Err(UpdateError::Stage(why))) && why@ == reason_of(
                    outcome,
                ),
            },
            // A generation that could not be written is removed again.
            Phase::Create { generation } => match outcome {
                Outcome::Done => step matches Step::Next(next, Command::PointLink { generation: made })
                    && made == generation && next == self.in_phase(Phase::Point { generation }),
                _ => step matches Step::Next(
                    next,
                    Command::RemoveGeneration { generation: made },
                ) && made == generation && (next.phase matches Phase::Remove {
                    generation: undone,
                    failure: UpdateError::Create(why),
                } && undone == generation && why@ == reason_of(outcome) && next == self.in_phase(
                    next.phase,
                )),
            },
            // The link is pointed at the generation before the version is
            // activated, which may read the secrets.
            Phase::Point { generation } => match outcome {
                Outcome::Done => step matches Step::Next(next, Command::Activate { store_path })
                    && store_path@ == self.requested() && next == self.in_phase(
                    Phase::Activate { staged: Some(generation) },
                ),
                _ => step matches Step::Next(next, Command::RestoreLink { target }) && target
                    == self.previous && (next.phase matches Phase::Restore {
                    generation: undone,
                    failure: UpdateError::Point(why),
                } && undone == generation && why@ == reason_of(outcome) && next == self.in_phase(
                    next.phase,
                )),
            },
            // Whether the activation took is told by the version that the
            // host runs afterwards, whatever the activation said.
            Phase::Activate { staged } => step matches Step::Next(next, Command::ReadActive)
                && match outcome {
                Outcome::Done => next == self.in_phase(Phase::Verify { staged, activation: None }),
                _ => next.phase matches Phase::Verify {
                    staged: made,
                    activation: Some(UpdateError::Activation(why)),
                } && made == staged && why@ == reason_of(outcome) && next == self.in_phase(
                    next.phase,
                ),
            },
            Phase::Verify { staged, activation } => match outcome {
                Outcome::Active(path) if path@ == self.requested() => match staged {
                    // The host runs the version: what is left over goes.
                    Some(generation) => step matches Step::Next(
                        next,
                        Command::CollectGarbage { keep },
                    ) && keep == generation && next == self.in_phase(Phase::Collect { generation }),
                    None => step matches Step::Next(next, Command::Notify) && next
                        == self.in_phase(Phase::Notify { staged: None }),
                },
                // The host does not run the version: the update is undone.
                _ => match staged {
                    Some(generation) => step matches Step::Next(
                        next,
                        Command::RestoreLink { target },
                    ) && target == self.previous && (next.phase matches Phase::Restore {
                        generation: undone,
                        failure: error,
                    } && undone == generation && blamed(activation, outcome, error) && next
                        == self.in_phase(next.phase)),
                    None => step matches Step::Finished(Err(error)) && blamed(
                        activation,
                        outcome,
                        error,
                    ),
                },
            },
            // Left-overs that cannot be removed do not undo the switch, but
            // the update does not end well with them.
            Phase::Collect { generation } => match outcome {
                Outcome::Done => step matches Step::Next(next, Command::Notify) && next
                    == self.in_phase(Phase::Notify { staged: Some(generation) }),
                _ => step matches Step::Finished(Err(UpdateError::Collect(why))) && why@
                    == reason_of(outcome),
            },
            // The generation is removed once the link points away from it.
            Phase::Restore { generation, failure } => match outcome {
                Outcome::Done => step matches Step::Next(
                    next,
                    Command::RemoveGeneration { generation: undone },
                ) && undone == generation && next == self.in_phase(
                    Phase::Remove { generation, failure },
                ),
                _ => step matches Step::Finished(Err(UpdateError::Restore { reason, cause }))
                    && reason@ == reason_of(outcome) && *cause == failure,
            },
            Phase::Remove { generation, failure } => match outcome {
                Outcome::Done => step == Step::Finished(Err(failure)),
                _ => step matches Step::Finished(Err(UpdateError::Remove { reason, cause }))
                    && reason@ == reason_of(outcome) && *cause == failure,
            },
            Phase::Notify { staged } => match outcome {
                Outcome::Done => step == Step::Finished(Ok(staged)),
                _ => step matches Step::Finished(Err(UpdateError::Notify(why))) && why@
                    == reason_of(outcome),
            },
        }
    }

    /// Takes what came of the command that the update waited for and says
    /// what the update does next.
    pub fn advance(self, outcome: Outcome) -> (step: Step)
        ensures
            self.follows(outcome, step),
    {
        let Update { version, previous, phase } = self;
        match phase {
            Phase::Download => match outcome {
                Outcome::Done => Step::Next(
                    Update { version, previous, phase: Phase::ReadLink },
                    Command::ReadLink,
                ),
                other => Step::Finished(Err(UpdateError::Download(reason(other)))),
            },
            Phase::ReadLink => {
                let store_path = version.store_path.clone();
                let previous = match outcome {
                    Outcome::Link(target) => target,
                    _ => None,
                };
                Step::Next(
                    Update { version, previous, phase: Phase::Stage },
                    Command::FetchSecrets { store_path },
                )
            },
            Phase::Stage => match outcome {
                Outcome::Secrets(None) => {
                    let store_path = version.store_path.clone();
                    Step::Next(
                        Update { version, previous, phase: Phase::Activate { staged: None } },
                        Command::Activate { store_path },
                    )
                },
                Outcome::Secrets(Some(fetched)) => {
                    let secrets = match gather(fetched) {
                        Ok(secrets) => secrets,
                        Err(name) => {
                            return Step::Finished(Err(UpdateError::MissingSecret(name)));
                        },
                    };
                    let files = match plan_generation(secrets) {
                        Ok(files) => files,
                        Err(error) => {
                            return Step::Finished(Err(UpdateError::Generation(error)));
                        },
                    };
                    let next = match &previous {
                        Some(target) => next_generation(Some(target.as_str())),
                        None => next_generation(None),
                    };
                    let generation = match next {
                        Some(generation) => generation,
                        None => {
                            return Step::Finished(Err(UpdateError::Exhausted));
                        },
                    };
                    Step::Next(
                        Update { version, previous, phase: Phase::Create { generation } },
                        Command::CreateGeneration { generation, files },
                    )
                },
                other => Step::Finished(Err(UpdateError::Stage(reason(other)))),
            },
            Phase::Create { generation } => match outcome {
                Outcome::Done => Step::Next(
                    Update { version, previous, phase: Phase::Point { generation } },
                    Command::PointLink { generation },
                ),
                other => Step::Next(
                    Update {
                        version,
                        previous,
                        phase: Phase::Remove {
                            generation,
                            failure: UpdateError::Create(reason(other)),
                        },
                    },
                    Command::RemoveGeneration { generation },
                ),
            },
            Phase::Point { generation } => match outcome {
                Outcome::Done => {
                    let store_path = version.store_path.clone();
                    Step::Next(
                        Update {
                            version,
                            previous,
                            phase: Phase::Activate { staged: Some(generation) },
                        },
                        Command::Activate { store_path },
                    )
                },
                other => {
                    let target = previous.clone();
                    Step::Next(
                        Update {
                            version,
                            previous,
                            phase: Phase::Restore {
                                generation,
                                failure: UpdateError::Point(reason(other)),
                            },
                        },
                        Command::RestoreLink { target },
                    )
                },
            },
            Phase::Activate { staged } => match outcome {
                Outcome::Done => Step::Next(
                    Update { version, previous, phase: Phase::Verify { staged, activation: None } },
                    Command::ReadActive,
                ),
                other => Step::Next(
                    Update {
                        version,
                        previous,
                        phase: Phase::Verify {
                            staged,
                            activation: Some(UpdateError::Activation(reason(other))),
                        },
                    },
                    Command::ReadActive,
                ),
            },
            Phase::Verify { staged, activation } => {
                let runs = match &outcome {
                    Outcome::Active(path) => *path == version.store_path,
                    _ => false,
                };
                if runs {
                    match staged {
                        Some(generation) => Step::Next(
                            Update { version, previous, phase: Phase::Collect { generation } },
                            Command::CollectGarbage { keep: generation },
                        ),
                        None => Step::Next(
                            Update { version, previous, phase: Phase::Notify { staged: None } },
                            Command::Notify,
                        ),
                    }
                } else {
                    let error = match outcome {
                        Outcome::Active(_) => match activation {
                            Some(failure) => failure,
                            None => UpdateError::NotActivated,
                        },
                        other => UpdateError::Verify(reason(other)),
                    };
                    match staged {
                        Some(generation) => {
                            let target = previous.clone();
                            Step::Next(
                                Update {
                                    version,
                                    previous,
                                    phase: Phase::Restore { generation, failure: error },
                                },
                                Command::RestoreLink { target },
                            )
                        },
                        None => Step::Finished(Err(error)),
                    }
                }
            },
            Phase::Collect { generation } => match outcome {
                Outcome::Done => Step::Next(
                    Update { version, previous, phase: Phase::Notify { staged: Some(generation) } },
                    Command::Notify,
                ),
                other => Step::Finished(Err(UpdateError::Collect(reason(other)))),
            },
            Phase::Restore { generation, failure } => match outcome {
                Outcome::Done => Step::Next(
                    Update { version, previous, phase: Phase::Remove { generation, failure } },
                    Command::RemoveGeneration { generation },
                ),
                other => Step::Finished(
                    Err(UpdateError::Restore { reason: reason(other), cause: Box::new(failure) }),
                ),
            },
            Phase::Remove { generation, failure } => match outcome {
                Outcome::Done => Step::Finished(Err(failure)),
                other => Step::Finished(
                    Err(UpdateError::Remove { reason: reason(other), cause: Box::new(failure) }),
                ),
            },
            Phase::Notify { staged } => match outcome {
                Outcome::Done => Step::Finished(Ok(staged)),
                other => Step::Finished(Err(UpdateError::Notify(reason(other)))),
            },
        }
    }
}

} // verus!
