use std::collections::BTreeSet;

use yeet::agent::{agent_action, waiting_message, Duty, Enrollment, WAITING};
use yeet::generation::{garbage, generation_dir};
use yeet::path::file_name;
use yeet::secret::Secret;
use yeet::update::{Command, Fetched, Outcome, Step, Switching, Update, UpdateError};
use yeet::version::{AgentAction, RemoteStorePath};

/// A host that lives in memory.
#[derive(Clone, Debug, PartialEq)]
struct Host {
    link: Option<String>,
    entries: BTreeSet<String>,
    active: String,
    notified: u32,
}

/// What goes wrong on the host.
#[derive(Default)]
struct Trouble {
    download: bool,
    fetch: bool,
    unreadable: bool,
    manifest: Option<Vec<Fetched>>,
    no_manifest: bool,
    create: bool,
    point: bool,
    activation_fails: bool,
    activation_takes: bool,
    collect: bool,
    restore: bool,
    remove: bool,
    notify: bool,
}

fn version(store_path: &str) -> RemoteStorePath {
    RemoteStorePath {
        store_path: store_path.to_owned(),
        substitutor: "https://cache.example".to_owned(),
        public_key: "cache-1:key=".to_owned(),
    }
}

fn fetched(name: &str, content: Option<&[u8]>) -> Fetched {
    Fetched {
        name: name.to_owned(),
        definition: Secret {
            name: name.to_owned(),
            path: format!("/run/{name}"),
            mode: "0400".to_owned(),
            owner: "0".to_owned(),
            group: "0".to_owned(),
            symlink: false,
        },
        content: content.map(<[u8]>::to_vec),
    }
}

fn perform(host: &mut Host, trouble: &mut Trouble, requested: &str, command: Command) -> Outcome {
    match command {
        Command::Download { version } => {
            assert_eq!(version.store_path, requested);
            if trouble.download {
                Outcome::Failed("no route to cache".to_owned())
            } else {
                Outcome::Done
            }
        }
        Command::ReadLink => Outcome::Link(host.link.clone()),
        Command::FetchSecrets { store_path } => {
            assert_eq!(store_path, requested);
            if trouble.fetch {
                return Outcome::Failed("connection refused".to_owned());
            }
            if trouble.no_manifest {
                Outcome::Secrets(None)
            } else {
                Outcome::Secrets(Some(trouble.manifest.take().unwrap_or_default()))
            }
        }
        Command::CreateGeneration { generation, files } => {
            if trouble.create {
                // Half made.
                host.entries.insert(generation.to_string());
                return Outcome::Failed("disk full".to_owned());
            }
            assert!(files.iter().all(|file| !file.name.contains('/')));
            host.entries.insert(generation.to_string());
            Outcome::Done
        }
        Command::PointLink { generation } => {
            if trouble.point {
                host.link = None;
                return Outcome::Failed("read-only file system".to_owned());
            }
            host.link = Some(generation_dir(generation));
            Outcome::Done
        }
        Command::Activate { store_path } => {
            assert_eq!(store_path, requested);
            if trouble.activation_takes {
                host.active = store_path;
            }
            if trouble.activation_fails {
                Outcome::Failed("exit status: 1".to_owned())
            } else {
                Outcome::Done
            }
        }
        Command::ReadActive => {
            if trouble.unreadable {
                return Outcome::Failed("no such link".to_owned());
            }
            Outcome::Active(host.active.clone())
        }
        Command::CollectGarbage { keep } => {
            let entries: Vec<String> = host.entries.iter().cloned().collect();
            for entry in garbage(entries, &keep.to_string()) {
                if trouble.collect {
                    // The first of them goes, the next does not.
                    trouble.collect = false;
                    host.entries.remove(&entry);
                    return Outcome::Failed("directory not empty".to_owned());
                }
                host.entries.remove(&entry);
            }
            Outcome::Done
        }
        Command::RestoreLink { target } => {
            if trouble.restore {
                host.link = None;
                return Outcome::Failed("read-only file system".to_owned());
            }
            host.link = target;
            Outcome::Done
        }
        Command::RemoveGeneration { generation } => {
            if trouble.remove {
                return Outcome::Failed("permission denied".to_owned());
            }
            host.entries.remove(&generation.to_string());
            Outcome::Done
        }
        Command::Notify => {
            if trouble.notify {
                return Outcome::Failed("nobody listens".to_owned());
            }
            host.notified += 1;
            Outcome::Done
        }
    }
}

fn run(host: &mut Host, mut trouble: Trouble, requested: &str) -> Result<Option<u64>, UpdateError> {
    let (mut update, mut command) = Update::start(version(requested));
    for _ in 0..32 {
        let outcome = perform(host, &mut trouble, requested, command);
        match update.advance(outcome) {
            Step::Finished(result) => return result,
            Step::Next(next, then) => {
                update = next;
                command = then;
            }
        }
        // The link never names a generation that is not there.
        if let Some(target) = &host.link {
            if target.starts_with("/etc/yeet/secret.d/") {
                assert!(host.entries.contains(&file_name(target).unwrap()));
            }
        }
    }
    panic!("the update does not end");
}

fn host_on_generation(n: u64) -> Host {
    Host {
        link: Some(generation_dir(n)),
        entries: [n.to_string()].into(),
        active: "/nix/store/aaaa-sys".to_owned(),
        notified: 0,
    }
}

#[test]
fn switch_to_with_rollback() {
    let mut host = host_on_generation(4);
    let before = host.clone();
    let trouble = Trouble {
        manifest: Some(vec![fetched("db", Some(b"hunter2"))]),
        activation_fails: true,
        ..Trouble::default()
    };
    let result = run(&mut host, trouble, "/nix/store/bbbb-sys");
    assert!(matches!(result, Err(UpdateError::Activation(why)) if why == "exit status: 1"));
    assert_eq!(host.active, "/nix/store/aaaa-sys");
    assert_eq!(host.link.as_deref(), Some("/etc/yeet/secret.d/4"));
    assert!(!host.entries.contains("5"));
    assert_eq!(host, before);
}

#[test]
fn switch_that_goes_through() {
    let mut host = host_on_generation(4);
    host.entries.insert("3".to_owned());
    host.entries.insert("stale".to_owned());
    let trouble = Trouble {
        manifest: Some(vec![fetched("db", Some(b"hunter2")), fetched("dir/api", Some(b"key"))]),
        activation_takes: true,
        ..Trouble::default()
    };
    let result = run(&mut host, trouble, "/nix/store/bbbb-sys");
    assert!(matches!(result, Ok(Some(5))));
    assert_eq!(host.active, "/nix/store/bbbb-sys");
    assert_eq!(host.link.as_deref(), Some("/etc/yeet/secret.d/5"));
    assert_eq!(host.entries, BTreeSet::from(["5".to_owned()]));
    assert_eq!(host.notified, 1);
}

#[test]
fn first_switch_makes_generation_zero() {
    let mut host = Host {
        link: None,
        entries: BTreeSet::new(),
        active: "/nix/store/aaaa-sys".to_owned(),
        notified: 0,
    };
    let trouble = Trouble {
        manifest: Some(vec![fetched("db", Some(b"hunter2"))]),
        activation_takes: true,
        ..Trouble::default()
    };
    assert!(matches!(run(&mut host, trouble, "/nix/store/bbbb-sys"), Ok(Some(0))));
    assert_eq!(host.link.as_deref(), Some("/etc/yeet/secret.d/0"));

    // A failed switch on a host without a link leaves it without one.
    let mut bare = Host {
        link: None,
        entries: BTreeSet::new(),
        active: "/nix/store/aaaa-sys".to_owned(),
        notified: 0,
    };
    let before = bare.clone();
    let trouble = Trouble {
        manifest: Some(vec![fetched("db", Some(b"hunter2"))]),
        ..Trouble::default()
    };
    assert!(matches!(
        run(&mut bare, trouble, "/nix/store/bbbb-sys"),
        Err(UpdateError::NotActivated)
    ));
    assert_eq!(bare, before);
}

#[test]
fn switch_without_secrets_keeps_the_generation() {
    let mut host = host_on_generation(4);
    let trouble = Trouble { no_manifest: true, activation_takes: true, ..Trouble::default() };
    assert!(matches!(run(&mut host, trouble, "/nix/store/bbbb-sys"), Ok(None)));
    assert_eq!(host.active, "/nix/store/bbbb-sys");
    assert_eq!(host.link.as_deref(), Some("/etc/yeet/secret.d/4"));
    assert_eq!(host.entries, BTreeSet::from(["4".to_owned()]));

    let mut host = host_on_generation(4);
    let before = host.clone();
    let trouble = Trouble { no_manifest: true, activation_fails: true, ..Trouble::default() };
    assert!(matches!(
        run(&mut host, trouble, "/nix/store/bbbb-sys"),
        Err(UpdateError::Activation(_))
    ));
    assert_eq!(host, before);
}

#[test]
fn every_failure_before_the_switch_is_undone() {
    let secrets = || Some(vec![fetched("db", Some(b"hunter2"))]);
    let cases: Vec<(Trouble, fn(&UpdateError) -> bool)> = vec![
        (Trouble { download: true, ..Trouble::default() }, |e| {
            matches!(e, UpdateError::Download(why) if why == "no route to cache")
        }),
        (
            Trouble {
                manifest: Some(vec![fetched("db", Some(b"x")), fetched("gone", None)]),
                ..Trouble::default()
            },
            |e| matches!(e, UpdateError::MissingSecret(name) if name == "gone"),
        ),
        (
            Trouble { manifest: Some(vec![fetched("..", Some(b"x"))]), ..Trouble::default() },
            |e| matches!(e, UpdateError::Generation(_)),
        ),
        (Trouble { manifest: secrets(), create: true, ..Trouble::default() }, |e| {
            matches!(e, UpdateError::Create(why) if why == "disk full")
        }),
        (Trouble { manifest: secrets(), point: true, ..Trouble::default() }, |e| {
            matches!(e, UpdateError::Point(_))
        }),
        (Trouble { manifest: secrets(), ..Trouble::default() }, |e| {
            matches!(e, UpdateError::NotActivated)
        }),
        (Trouble { fetch: true, ..Trouble::default() }, |e| {
            matches!(e, UpdateError::Stage(why) if why == "connection refused")
        }),
        (Trouble { manifest: secrets(), unreadable: true, ..Trouble::default() }, |e| {
            matches!(e, UpdateError::Verify(why) if why == "no such link")
        }),
    ];
    for (trouble, expected) in cases {
        let mut host = host_on_generation(7);
        let before = host.clone();
        let error = run(&mut host, trouble, "/nix/store/bbbb-sys").unwrap_err();
        assert!(expected(&error), "{error:?}");
        assert_eq!(host, before, "{error:?}");
    }
}

#[test]
fn an_activation_that_complains_but_takes_is_a_switch() {
    let mut host = host_on_generation(1);
    let trouble = Trouble {
        manifest: Some(vec![fetched("db", Some(b"hunter2"))]),
        activation_fails: true,
        activation_takes: true,
        ..Trouble::default()
    };
    assert!(matches!(run(&mut host, trouble, "/nix/store/bbbb-sys"), Ok(Some(2))));
    assert_eq!(host.entries, BTreeSet::from(["2".to_owned()]));
}

#[test]
fn a_switch_nobody_hears_of_is_still_a_switch() {
    let mut host = host_on_generation(1);
    let trouble = Trouble {
        manifest: Some(vec![fetched("db", Some(b"hunter2"))]),
        activation_takes: true,
        notify: true,
        ..Trouble::default()
    };
    let result = run(&mut host, trouble, "/nix/store/bbbb-sys");
    assert!(matches!(result, Err(UpdateError::Notify(why)) if why == "nobody listens"));
    assert_eq!(host.active, "/nix/store/bbbb-sys");
    assert_eq!(host.link.as_deref(), Some("/etc/yeet/secret.d/2"));
    assert_eq!(host.entries, BTreeSet::from(["2".to_owned()]));
}

#[test]
fn a_version_that_cannot_be_read_counts_as_not_running() {
    // Whatever the activation said, and whether it took or not.
    for (fails, takes) in [(false, false), (true, false), (false, true), (true, true)] {
        let mut host = host_on_generation(4);
        let before = host.clone();
        let trouble = Trouble {
            manifest: Some(vec![fetched("db", Some(b"hunter2"))]),
            activation_fails: fails,
            activation_takes: takes,
            unreadable: true,
            ..Trouble::default()
        };
        let result = run(&mut host, trouble, "/nix/store/bbbb-sys");
        assert!(matches!(result, Err(UpdateError::Verify(why)) if why == "no such link"));
        assert_eq!(host.link, before.link);
        assert_eq!(host.entries, before.entries);
        assert_eq!(host.active, if takes { "/nix/store/bbbb-sys" } else { "/nix/store/aaaa-sys" });
    }
}

#[test]
fn a_switch_that_leaves_something_behind_is_an_error() {
    let mut host = host_on_generation(4);
    host.entries.insert("3".to_owned());
    host.entries.insert("stale".to_owned());
    let trouble = Trouble {
        manifest: Some(vec![fetched("db", Some(b"hunter2"))]),
        activation_takes: true,
        collect: true,
        ..Trouble::default()
    };
    let result = run(&mut host, trouble, "/nix/store/bbbb-sys");
    assert!(matches!(result, Err(UpdateError::Collect(why)) if why == "directory not empty"));
    // The host runs the version with its secrets; only the tidying is wanting.
    assert_eq!(host.active, "/nix/store/bbbb-sys");
    assert_eq!(host.link.as_deref(), Some("/etc/yeet/secret.d/5"));
    assert!(host.entries.contains("5"));
    assert!(host.entries.len() > 1);
    assert!(host.entries.iter().all(|entry| ["3", "4", "5", "stale"].contains(&entry.as_str())));
    assert_eq!(host.notified, 0);
}

#[test]
fn a_rollback_that_fails_says_so() {
    // The link cannot be put back: the generation stays, for the link may name it.
    let mut host = host_on_generation(4);
    let trouble = Trouble {
        manifest: Some(vec![fetched("db", Some(b"hunter2"))]),
        activation_fails: true,
        restore: true,
        ..Trouble::default()
    };
    let result = run(&mut host, trouble, "/nix/store/bbbb-sys");
    match result {
        Err(UpdateError::Restore { reason, cause }) => {
            assert_eq!(reason, "read-only file system");
            assert!(matches!(*cause, UpdateError::Activation(why) if why == "exit status: 1"));
        }
        other => panic!("{other:?}"),
    }
    assert_eq!(host.active, "/nix/store/aaaa-sys");
    assert_eq!(host.entries, BTreeSet::from(["4".to_owned(), "5".to_owned()]));

    // The generation cannot be removed: the link is back where it was.
    let mut host = host_on_generation(4);
    let trouble = Trouble {
        manifest: Some(vec![fetched("db", Some(b"hunter2"))]),
        remove: true,
        ..Trouble::default()
    };
    let result = run(&mut host, trouble, "/nix/store/bbbb-sys");
    match result {
        Err(UpdateError::Remove { reason, cause }) => {
            assert_eq!(reason, "permission denied");
            assert!(matches!(*cause, UpdateError::NotActivated));
        }
        other => panic!("{other:?}"),
    }
    assert_eq!(host.active, "/nix/store/aaaa-sys");
    assert_eq!(host.link.as_deref(), Some("/etc/yeet/secret.d/4"));
    assert_eq!(host.entries, BTreeSet::from(["4".to_owned(), "5".to_owned()]));

    // A generation that was half made and cannot be removed.
    let mut host = host_on_generation(4);
    let trouble = Trouble {
        manifest: Some(vec![fetched("db", Some(b"hunter2"))]),
        create: true,
        remove: true,
        ..Trouble::default()
    };
    let result = run(&mut host, trouble, "/nix/store/bbbb-sys");
    assert!(matches!(
        result,
        Err(UpdateError::Remove { cause, .. }) if matches!(&*cause, UpdateError::Create(why) if why == "disk full")
    ));
    assert_eq!(host.link.as_deref(), Some("/etc/yeet/secret.d/4"));
}

#[test]
fn no_generation_follows_the_last() {
    let mut host = host_on_generation(u64::MAX);
    let before = host.clone();
    let trouble = Trouble {
        manifest: Some(vec![fetched("db", Some(b"hunter2"))]),
        activation_takes: true,
        ..Trouble::default()
    };
    let result = run(&mut host, trouble, "/nix/store/bbbb-sys");
    assert!(matches!(result, Err(UpdateError::Exhausted)));
    assert_eq!(host, before);

    let mut host = host_on_generation(u64::MAX - 1);
    let trouble = Trouble {
        manifest: Some(vec![fetched("db", Some(b"hunter2"))]),
        activation_takes: true,
        ..Trouble::default()
    };
    assert!(matches!(run(&mut host, trouble, "/nix/store/bbbb-sys"), Ok(Some(u64::MAX))));
    assert_eq!(host.entries, BTreeSet::from([u64::MAX.to_string()]));
}

#[test]
fn generations_grow_past_32_bits() {
    let mut host = host_on_generation(4294967294);
    for expected in 4294967295..4294967300u64 {
        let trouble = Trouble {
            manifest: Some(vec![fetched("db", Some(b"hunter2"))]),
            activation_takes: true,
            ..Trouble::default()
        };
        assert!(matches!(run(&mut host, trouble, "/nix/store/bbbb-sys"), Ok(Some(n)) if n == expected));
        assert_eq!(host.link, Some(generation_dir(expected)));
        host.active = "/nix/store/aaaa-sys".to_owned();
    }
}

#[test]
fn generations_only_grow() {
    let mut host = host_on_generation(0);
    for expected in 1..6u64 {
        let trouble = Trouble {
            manifest: Some(vec![fetched("db", Some(b"hunter2"))]),
            activation_takes: true,
            ..Trouble::default()
        };
        let requested = format!("/nix/store/v{expected}");
        assert!(matches!(run(&mut host, trouble, &requested), Ok(Some(n)) if n == expected));
        assert_eq!(host.entries, BTreeSet::from([expected.to_string()]));
    }
}

#[test]
fn only_a_switch_begins_an_update() {
    assert!(agent_action(AgentAction::Nothing).is_none());
    assert!(agent_action(AgentAction::Detach).is_none());
    let (update, command) = agent_action(AgentAction::SwitchTo(version("/nix/store/bbbb-sys"))).unwrap();
    assert_eq!(update.version.store_path, "/nix/store/bbbb-sys");
    assert!(update.previous.is_none());
    assert!(matches!(command, Command::Download { version } if version.substitutor == "https://cache.example"));
}

#[test]
fn enrolment_keeps_its_code() {
    let start = Enrollment::Unverified;
    assert_eq!(start.checked(false, true), (Enrollment::Unverified, Duty::Enroll { facts: true }));
    assert_eq!(start.checked(false, false), (Enrollment::Unverified, Duty::Enroll { facts: false }));
    let pending = start.asked(4217);
    assert_eq!(pending, Enrollment::PendingCode(4217));
    assert_eq!(pending.checked(false, true), (pending, Duty::Wait { code: 4217 }));
    assert_eq!(pending.checked(true, true), (Enrollment::Verified, Duty::Poll));
    assert_eq!(Enrollment::Verified.checked(true, false), (Enrollment::Verified, Duty::Poll));
    // A host that was removed asks anew.
    assert_eq!(
        Enrollment::Verified.checked(false, false),
        (Enrollment::Unverified, Duty::Enroll { facts: false })
    );
    assert_eq!(
        waiting_message(4217),
        "Verification requested but not yet approved. Code: 4217"
    );
    assert_eq!(WAITING, "Waiting for verification");
}

#[test]
fn a_switch_by_hand_activates_and_tells() {
    let (switching, command) = yeet::update::switch_to("/nix/store/bbbb-sys");
    assert_eq!(switching, Switching::Activating);
    assert!(matches!(&command, Command::Activate { store_path } if store_path == "/nix/store/bbbb-sys"));
    let (switching, command) = switching.advance(Outcome::Done).unwrap().unwrap();
    assert_eq!(switching, Switching::Telling);
    assert!(matches!(command, Command::Notify));
    assert!(matches!(switching.advance(Outcome::Done), Ok(None)));
}

#[test]
fn a_switch_by_hand_that_fails_tells_nobody() {
    let (switching, _) = yeet::update::switch_to("/nix/store/bbbb-sys");
    let failed = switching.advance(Outcome::Failed("exit status: 1".to_owned()));
    assert!(matches!(failed, Err(UpdateError::Activation(why)) if why == "exit status: 1"));
    let unheard = Switching::Telling.advance(Outcome::Failed("nobody listens".to_owned()));
    assert!(matches!(unheard, Err(UpdateError::Notify(why)) if why == "nobody listens"));
}

#[test]
fn an_agent_waits_as_long_as_it_sleeps() {
    let mut agent = yeet::agent::agent(30, true);
    assert_eq!(agent.enrollment, Enrollment::Unverified);
    assert_eq!(agent.retry().after, 30);
    assert_eq!(agent.agent_loop(false), Duty::Enroll { facts: true });
    agent.enrolled_with(4217);
    assert_eq!(agent.agent_loop(false), Duty::Wait { code: 4217 });
    assert_eq!(agent.agent_loop(false), Duty::Wait { code: 4217 });
    assert_eq!(agent.agent_loop(true), Duty::Poll);
    assert_eq!(agent.enrollment, Enrollment::Verified);
    assert_eq!(agent.agent_loop(false), Duty::Enroll { facts: true });
    assert_eq!(agent.sleep, 30);
}
