use age::secrecy::ExposeSecret;
use yeet::auth::{self, Action};
use yeet::host::{VerificationArtifacts, VerificationAttempt};
use yeet::key::PublicKey;
use yeet::keys::Identity;
use yeet::state::snapshot::{RestoreError, Snapshot};
use yeet::state::AppState;

const ADMIN: PublicKey = PublicKey { bytes: [1; 32] };
const KH: PublicKey = PublicKey { bytes: [2; 32] };
const OTHER: PublicKey = PublicKey { bytes: [3; 32] };

fn busy_state() -> AppState {
    let server = age::x25519::Identity::generate();
    let mut state = AppState::new(Identity::parse(server.to_string().expose_secret()).unwrap());
    state.add_admin_key(ADMIN);
    for (key, name, seed) in [(KH, "alpha", 1), (OTHER, "beta", 2)] {
        let attempt = VerificationAttempt {
            key,
            store_path: "/nix/store/aaaa-sys".to_owned(),
            artifacts: VerificationArtifacts { nixos_facter: None },
        };
        let code = state.add_verification_attempt(attempt, seed, 10).unwrap();
        state.verify_attempt(&ADMIN, code, name, 11).unwrap();
    }
    let pending = VerificationAttempt {
        key: PublicKey { bytes: [9; 32] },
        store_path: "/nix/store/cccc-sys".to_owned(),
        artifacts: VerificationArtifacts { nixos_facter: Some("{}".to_owned()) },
    };
    state.add_verification_attempt(pending, 77, 12).unwrap();
    let recipient: age::x25519::Recipient = state.get_server_recipient().parse().unwrap();
    state.add_secret("db", age::encrypt(&recipient, b"hunter2").unwrap()).unwrap();
    state.add_secret("api", age::encrypt(&recipient, b"key").unwrap()).unwrap();
    state.secret_add_access_for("db", "alpha");
    state.secret_add_access_for("db", "beta");
    let tags: Vec<u128> = (0..40).map(|_| state.create_tag()).collect();
    state.set_host_tags("alpha", tags.iter().copied().collect());
    state.set_policy(KH, Action::Host(auth::Host::Rename), tags[..20].iter().copied().collect());
    state.set_policy(OTHER, Action::Status(auth::Status::ListHosts), [tags[3]].into());
    state
        .update_hosts(&ADMIN, &vec![("beta".to_owned(), "/nix/store/bbbb-sys".to_owned())], "k", "s")
        .unwrap();
    state
}

fn shape(snapshot: &Snapshot) -> String {
    format!("{snapshot:?}")
}

#[test]
fn a_snapshot_is_read_back_as_it_was_written() {
    let state = busy_state();
    let written = state.export();
    let expected = shape(&written);
    let read = AppState::restore(written).unwrap();
    let rewritten = read.export();
    assert_eq!(shape(&rewritten), expected);

    // And once more: writing does not depend on the order in which sets are walked.
    let again = AppState::restore(rewritten).unwrap().export();
    assert_eq!(shape(&again), expected);
}

#[test]
fn tags_are_written_in_rising_order() {
    let snapshot = busy_state().export();
    assert!(snapshot.tags.windows(2).all(|pair| pair[0] < pair[1]));
    assert_eq!(snapshot.tags.len(), 40);
    for host in &snapshot.hosts {
        assert!(host.tags.windows(2).all(|pair| pair[0] < pair[1]));
    }
    for policy in &snapshot.policies {
        assert!(policy.2.windows(2).all(|pair| pair[0] < pair[1]));
    }
    assert_eq!(snapshot.hosts[0].name, "alpha");
    assert_eq!(snapshot.hosts[0].tags.len(), 40);
    assert_eq!(snapshot.policies.len(), 2);
    assert_eq!(snapshot.secrets.len(), 2);
    assert_eq!(snapshot.acl, vec![("db".to_owned(), vec!["alpha".to_owned(), "beta".to_owned()])]);
    assert_eq!(snapshot.admin_keys, vec![ADMIN]);
    assert_eq!(snapshot.verification_attempts.len(), 1);
}

#[test]
fn a_restored_state_behaves_like_the_one_written() {
    let mut read = AppState::restore(busy_state().export()).unwrap();
    assert!(read.is_host_verified(&KH));
    assert!(read.is_admin(&ADMIN));
    assert_eq!(read.get_acl_by_secret("db"), vec!["alpha".to_owned(), "beta".to_owned()]);
    // KH may rename the host that carries its tags, and no other.
    assert!(read.rename_host(&KH, "beta", "gamma").is_err());
    read.rename_host(&KH, "alpha", "delta").unwrap();
    // OTHER may list the host that carries the tag of its policy.
    let listed = read.status(&OTHER);
    assert_eq!(listed.len(), 1);
    assert_eq!(listed[0].name, "delta");
}

#[test]
fn a_broken_snapshot_is_not_restored() {
    let fresh = || busy_state().export();

    let mut snapshot = fresh();
    snapshot.server_identity = "AGE-SECRET-KEY-1NOPE".to_owned();
    assert_eq!(AppState::restore(snapshot).err(), Some(RestoreError::Identity));

    let mut snapshot = fresh();
    snapshot.hosts[1].name = "alpha".to_owned();
    assert_eq!(AppState::restore(snapshot).err(), Some(RestoreError::Hosts));

    let mut snapshot = fresh();
    snapshot.hosts[1].key = KH;
    assert_eq!(AppState::restore(snapshot).err(), Some(RestoreError::Hosts));

    let mut snapshot = fresh();
    let (code, key) = (snapshot.verification_attempts[0].code, snapshot.verification_attempts[0].key);
    snapshot.verification_attempts.push(yeet::host::PendingAttempt {
        code,
        key: PublicKey { bytes: [8; 32] },
        store_path: String::new(),
        artifacts: VerificationArtifacts { nixos_facter: None },
        created_at: 0,
    });
    assert_eq!(AppState::restore(snapshot).err(), Some(RestoreError::Attempts));
    let mut snapshot = fresh();
    snapshot.verification_attempts.push(yeet::host::PendingAttempt {
        code: code + 1,
        key,
        store_path: String::new(),
        artifacts: VerificationArtifacts { nixos_facter: None },
        created_at: 0,
    });
    assert_eq!(AppState::restore(snapshot).err(), Some(RestoreError::Attempts));

    let mut snapshot = fresh();
    snapshot.secrets.push(("db".to_owned(), vec![]));
    assert_eq!(AppState::restore(snapshot).err(), Some(RestoreError::Secrets));

    let mut snapshot = fresh();
    snapshot.acl.push(("db".to_owned(), vec![]));
    assert_eq!(AppState::restore(snapshot).err(), Some(RestoreError::Secrets));

    let mut snapshot = fresh();
    snapshot.acl.push(("twice".to_owned(), vec!["alpha".to_owned(), "beta".to_owned(), "alpha".to_owned()]));
    assert_eq!(AppState::restore(snapshot).err(), Some(RestoreError::Secrets));
    let mut snapshot = fresh();
    snapshot.acl.push(("once".to_owned(), vec!["alpha".to_owned(), "beta".to_owned()]));
    assert!(AppState::restore(snapshot).is_ok());

    let mut snapshot = fresh();
    let twin = (snapshot.policies[0].0, snapshot.policies[0].1, vec![]);
    snapshot.policies.push(twin);
    assert_eq!(AppState::restore(snapshot).err(), Some(RestoreError::Policies));
}

#[test]
fn an_empty_state_round_trips() {
    let server = age::x25519::Identity::generate();
    let state = AppState::new(Identity::parse(server.to_string().expose_secret()).unwrap());
    let written = state.export();
    assert!(written.hosts.is_empty() && written.tags.is_empty() && written.policies.is_empty());
    let expected = shape(&written);
    assert_eq!(shape(&AppState::restore(written).unwrap().export()), expected);
}
