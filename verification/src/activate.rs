//! How a version is made the one that a host runs.
//!
//! First the system profile is set to the store path of the version, then the
//! version's own activation is run. Which program that is depends on the
//! system of the host.

use crate::text::texts;
use vstd::prelude::*;
use vstd::string::StringExecFns;

verus! {

/// The system of a host.
#[derive(Debug, Clone, Copy, PartialEq, Eq, Structural)]
pub enum Platform {
    Linux,
    MacOs,
}

/// A program to run, with its arguments.
#[derive(Debug, PartialEq, Eq)]
pub struct Invocation {
    pub program: String,
    pub args: Vec<String>,
}

/// The program that sets profiles.
pub const PROFILE_TOOL: &'static str = "nix-env";

/// The profile of the system.
pub const SYSTEM_PROFILE: &'static str = "/nix/var/nix/profiles/system";

/// Sets the system profile to `store_path`.
pub fn set_system_profile(store_path: &str) -> (run: Invocation)
    ensures
        run.program@ == PROFILE_TOOL@,
        texts(run.args@) == seq!["--profile"@, SYSTEM_PROFILE@, "--set"@, store_path@],
{
    let mut args: Vec<String> = Vec::new();
    args.push(String::from_str("--profile"));
    args.push(String::from_str(SYSTEM_PROFILE));
    args.push(String::from_str("--set"));
    args.push(store_path.to_owned());
    assert(texts(args@) =~= seq!["--profile"@, SYSTEM_PROFILE@, "--set"@, store_path@]);
    Invocation { program: String::from_str(PROFILE_TOOL), args }
}

/// Where the activation of a version lies inside its store path, and what it
/// is told.
pub open spec fn activation_of(platform: Platform) -> (Seq<char>, Seq<Seq<char>>) {
    match platform {
        Platform::Linux => ("/bin/switch-to-configuration"@, seq!["switch"@]),
        Platform::MacOs => ("/activate"@, Seq::empty()),
    }
}

/// Runs the activation of the version at `store_path`, after the system
/// profile has been set to it.
pub fn activate(platform: Platform, store_path: &str) -> (run: Invocation)
    ensures
        run.program@ == store_path@ + activation_of(platform).0,
        texts(run.args@) == activation_of(platform).1,
{
    let mut program = String::from_str(store_path);
    let mut args: Vec<String> = Vec::new();
    match platform {
        Platform::Linux => {
            program.append("/bin/switch-to-configuration");
            args.push(String::from_str("switch"));
            assert(texts(args@) =~= seq!["switch"@]);
        },
        Platform::MacOs => {
            program.append("/activate");
            assert(texts(args@) =~= Seq::<Seq<char>>::empty());
        },
    }
    Invocation { program, args }
}

/// What comes of a program that has run: it went through where it could be
/// run and ended with status zero, and failed with what it wrote otherwise.
pub fn outcome(ran: Option<(bool, String)>) -> (result: Result<(), String>)
    ensures
        match ran {
            Some((true, _)) => result is Ok,
            Some((false, complaint)) => result == Err::<(), String>(complaint),
            None => result matches Err(message) && message@ == NOT_RUN@,
        },
{
    match ran {
        Some((true, _)) => Ok(()),
        Some((false, complaint)) => Err(complaint),
        None => Err(String::from_str(NOT_RUN)),
    }
}

/// What is said of a program that could not be run.
pub const NOT_RUN: &'static str = "the program could not be run";

/// Whether a program ran and ended with status zero.
pub open spec fn went_through(ran: Option<(bool, String)>) -> bool {
    ran matches Some((true, _))
}

/// What a program that did not go through complains of: what it wrote, or
/// that it could not be run.
pub open spec fn complaint_of(ran: Option<(bool, String)>) -> Seq<char> {
    match ran {
        Some((_, complaint)) => complaint@,
        None => NOT_RUN@,
    }
}

/// How far an activation has come.
#[derive(Debug, Clone, Copy, PartialEq, Eq, Structural)]
pub enum Stage {
    /// The system profile is being set.
    Profile,
    /// The activation of the version is being run.
    Script,
}

/// An activation under way: the system profile is set first, and the
/// activation of the version is run only once that went through.
#[derive(Debug)]
pub struct Activation {
    /// The system of the host.
    pub platform: Platform,
    /// The store path of the version.
    pub store_path: String,
    /// How far the activation has come.
    pub stage: Stage,
}

/// What an activation does next.
#[derive(Debug)]
pub enum Act {
    /// It goes on with this program.
    Run(Activation, Invocation),
    /// It is over.
    Finished(Result<(), String>),
}

impl Activation {
    /// Begins the activation of the version at `store_path`: the first thing
    /// to run is what sets the system profile to it.
    pub fn start(platform: Platform, store_path: &str) -> (begun: (Activation, Invocation))
        ensures
            begun.0.platform == platform,
            begun.0.store_path@ == store_path@,
            begun.0.stage is Profile,
            begun.1.program@ == PROFILE_TOOL@,
            texts(begun.1.args@) == seq!["--profile"@, SYSTEM_PROFILE@, "--set"@, store_path@],
    {
        (
            Activation { platform, store_path: store_path.to_owned(), stage: Stage::Profile },
            set_system_profile(store_path),
        )
    }

    /// Whether `act` is what the activation does when `ran` is what came of
    /// the program it waited for. A program that did not go through ends the
    /// activation with its complaint; after the profile has been set the
    /// activation of the version is run, and after that nothing.
    pub open spec fn follows(self, ran: Option<(bool, String)>, act: Act) -> bool {
        if !went_through(ran) {
            act matches Act::Finished(Err(complaint)) && complaint@ == complaint_of(ran)
        } else {
            match self.stage {
                Stage::Profile => act matches Act::Run(next, run) && next.platform == self.platform
                    && next.store_path@ == self.store_path@ && next.stage is Script && run.program@
                    == self.store_path@ + activation_of(self.platform).0 && texts(run.args@)
                    == activation_of(self.platform).1,
                Stage::Script => act matches Act::Finished(Ok(_)),
            }
        }
    }

    /// Takes what came of the program that the activation waited for and
    /// says what the activation does next.
    pub fn advance(self, ran: Option<(bool, String)>) -> (act: Act)
        ensures
            self.follows(ran, act),
    {
        match outcome(ran) {
            Err(complaint) => Act::Finished(Err(complaint)),
            Ok(()) => match self.stage {
                Stage::Profile => {
                    let run = activate(self.platform, self.store_path.as_str());
                    Act::Run(
                        Activation {
                            platform: self.platform,
                            store_path: self.store_path,
                            stage: Stage::Script,
                        },
                        run,
                    )
                },
                Stage::Script => Act::Finished(Ok(())),
            },
        }
    }
}

/// The activation of a version is run exactly where setting the system
/// profile went through, and the two together go through exactly where each
/// of them did: a profile that could not be set, or an activation that ended
/// with another status than zero, is an error.
pub proof fn lemma_activation_runs_after_profile(
    begun: Activation,
    profile: Option<(bool, String)>,
    first: Act,
    script: Option<(bool, String)>,
    second: Act,
)
    requires
        begun.stage is Profile,
        begun.follows(profile, first),
        first matches Act::Run(next, _) ==> next.follows(script, second),
    ensures
        first is Run <==> went_through(profile),
        first matches Act::Finished(result) ==> result is Err,
        first is Run ==> second is Finished,
        first is Run ==> (second matches Act::Finished(Ok(_)) <==> went_through(script)),
{
}

} // verus!
