use age::secrecy::ExposeSecret;
use yeet::auth::{self, Action};
use yeet::host::{VerificationArtifacts, VerificationAttempt, ATTEMPT_LIFETIME};
use yeet::key::PublicKey;
use yeet::keys::Identity;
use yeet::state::{decide, AppState, StateError};
use yeet::version::AgentAction;

const ADMIN: PublicKey = PublicKey { bytes: [1; 32] };
const KH: PublicKey = PublicKey { bytes: [2; 32] };
const OTHER: PublicKey = PublicKey { bytes: [3; 32] };

fn fresh_state() -> (AppState, age::x25519::Identity) {
    let server = age::x25519::Identity::generate();
    let mut state = AppState::new(Identity::parse(server.to_string().expose_secret()).unwrap());
    state.add_admin_key(ADMIN);
    (state, server)
}

fn attempt(key: PublicKey, store_path: &str) -> VerificationAttempt {
    VerificationAttempt {
        key,
        store_path: store_path.to_owned(),
        artifacts: VerificationArtifacts { nixos_facter: Some("facts".to_owned()) },
    }
}

/// A state in which `alpha` is enrolled with the key `KH`.
fn enrolled() -> (AppState, age::x25519::Identity) {
    let (mut state, server) = fresh_state();
    let code = state
        .add_verification_attempt(attempt(KH, "/nix/store/aaaa-sys"), 3217, 100)
        .unwrap();
    state.verify_attempt(&ADMIN, code, "alpha", 200).unwrap();
    (state, server)
}

fn status_of<T: std::fmt::Debug>(result: Result<T, StateError>) -> u16 {
    result.unwrap_err().status()
}

#[test]
fn enroll_then_approve() {
    let (mut state, _) = fresh_state();
    assert!(!state.is_host_verified(&KH));

    let code = state.add_verification_attempt(attempt(KH, "/nix/store/aaaa-sys"), 3217, 100);
    assert_eq!(code.unwrap(), 4217);
    assert!(!state.is_host_verified(&KH));

    let artifacts = state.verify_attempt(&ADMIN, 4217, "alpha", 200).unwrap();
    assert_eq!(artifacts.nixos_facter.as_deref(), Some("facts"));
    assert!(state.is_host_verified(&KH));
    assert!(!state.is_host_verified(&OTHER));

    // The attempt is used up.
    assert_eq!(status_of(state.verify_attempt(&ADMIN, 4217, "again", 200)), 404);
}

#[test]
fn nothing_to_do() {
    let (mut state, _) = enrolled();
    let action = state.system_check(&KH, "/nix/store/aaaa-sys").unwrap();
    assert!(matches!(action, AgentAction::Nothing));

    let updates = vec![("alpha".to_owned(), "/nix/store/aaaa-sys".to_owned())];
    state.update_hosts(&ADMIN, &updates, "cache-1:key=", "https://cache.example").unwrap();
    let action = state.system_check(&KH, "/nix/store/aaaa-sys").unwrap();
    assert!(matches!(action, AgentAction::Nothing));
}

#[test]
fn a_published_version_is_switched_to() {
    let (mut state, _) = enrolled();
    let updates = vec![("alpha".to_owned(), "/nix/store/bbbb-sys".to_owned())];
    state.update_hosts(&ADMIN, &updates, "cache-1:key=", "https://cache.example").unwrap();

    match state.system_check(&KH, "/nix/store/aaaa-sys").unwrap() {
        AgentAction::SwitchTo(remote) => {
            assert_eq!(remote.store_path, "/nix/store/bbbb-sys");
            assert_eq!(remote.substitutor, "https://cache.example");
            assert_eq!(remote.public_key, "cache-1:key=");
        }
        other => panic!("{other:?}"),
    }
    let action = state.system_check(&KH, "/nix/store/bbbb-sys").unwrap();
    assert!(matches!(action, AgentAction::Nothing));

    // The host is listed with the version it last reported.
    let hosts = state.status(&ADMIN);
    assert_eq!(hosts.len(), 1);
    assert_eq!(hosts[0].name, "alpha");
    assert_eq!(hosts[0].current_version.as_deref(), Some("/nix/store/bbbb-sys"));
    assert_eq!(decide(&hosts[0], "/nix/store/aaaa-sys").clone_store_path(), Some("/nix/store/bbbb-sys".to_owned()));
}

trait StorePathOf {
    fn clone_store_path(&self) -> Option<String>;
}

impl StorePathOf for AgentAction {
    fn clone_store_path(&self) -> Option<String> {
        match self {
            AgentAction::SwitchTo(remote) => Some(remote.store_path.clone()),
            _ => None,
        }
    }
}

#[test]
fn an_unknown_key_is_not_checked() {
    let (mut state, _) = enrolled();
    assert_eq!(status_of(state.system_check(&OTHER, "/nix/store/aaaa-sys")), 401);
}

#[test]
fn a_detached_host_is_told_so() {
    let (mut state, _) = enrolled();
    // The host may not detach itself until it is allowed to.
    assert_eq!(status_of(state.detach_host(&KH, "alpha")), 403);
    state.set_detach_permission(&ADMIN, "alpha", true).unwrap();
    state.detach_host(&KH, "alpha").unwrap();
    let updates = vec![("alpha".to_owned(), "/nix/store/bbbb-sys".to_owned())];
    state.update_hosts(&ADMIN, &updates, "k", "s").unwrap();
    let action = state.system_check(&KH, "/nix/store/aaaa-sys").unwrap();
    assert!(matches!(action, AgentAction::Detach));
}

#[test]
fn secret_round_trip() {
    let (mut state, _) = enrolled();
    let server_recipient: age::x25519::Recipient = state.get_server_recipient().parse().unwrap();
    let ciphertext = age::encrypt(&server_recipient, b"hunter2").unwrap();
    state.add_secret("db", ciphertext).unwrap();
    state.secret_add_access_for("db", "alpha");

    let host = age::x25519::Identity::generate();
    let rh = host.to_public().to_string();
    let answer = state.get_secret("db", &rh, &KH).unwrap().unwrap();
    assert_eq!(age::decrypt(&host, &answer).unwrap(), b"hunter2");
}

#[test]
fn acl_denial() {
    let (mut state, _) = enrolled();
    let server_recipient: age::x25519::Recipient = state.get_server_recipient().parse().unwrap();
    let ciphertext = age::encrypt(&server_recipient, b"hunter2").unwrap();
    state.add_secret("db", ciphertext).unwrap();

    let host = age::x25519::Identity::generate();
    let rh = host.to_public().to_string();
    // Without the grant the answer is `null`, and no error.
    assert_eq!(state.get_secret("db", &rh, &KH).unwrap(), None);
    // A secret that does not exist looks the same.
    assert_eq!(state.get_secret("nope", &rh, &KH).unwrap(), None);
    state.secret_add_access_for("nope", "alpha");
    assert_eq!(state.get_secret("nope", &rh, &KH).unwrap(), None);
}

#[test]
fn host_rename() {
    let (mut state, server) = enrolled();
    let server_recipient: age::x25519::Recipient = state.get_server_recipient().parse().unwrap();
    let ciphertext = age::encrypt(&server_recipient, b"hunter2").unwrap();
    state.add_secret("db", ciphertext).unwrap();
    state.secret_add_access_for("db", "alpha");

    state.rename_host(&ADMIN, "alpha", "beta").unwrap();
    assert_eq!(state.get_acl_by_secret("db"), vec!["beta".to_owned()]);

    let host = age::x25519::Identity::generate();
    let rh = host.to_public().to_string();
    let answer = state.get_secret("db", &rh, &KH).unwrap().unwrap();
    assert_eq!(age::decrypt(&host, &answer).unwrap(), b"hunter2");

    // Under the old name nothing can be read any more.
    let mut store = yeet::secret_store::SecretStore::new();
    let store_key = Identity::parse(server.to_string().expose_secret()).unwrap();
    store
        .add_secret("db", age::encrypt(&server_recipient, b"hunter2").unwrap(), &store_key)
        .unwrap();
    store.add_access_for("db", "alpha");
    store.rename_host("alpha", "beta");
    let recipient = yeet::keys::Recipient::parse(&rh).unwrap();
    assert_eq!(store.get_secret_for("db", &store_key, "alpha", &recipient).unwrap(), None);
    assert!(store.get_secret_for("db", &store_key, "beta", &recipient).unwrap().is_some());

    assert_eq!(state.status(&ADMIN)[0].name, "beta");
    assert!(state.is_host_verified(&KH));
}

#[test]
fn requests_that_are_turned_away() {
    let (mut state, _) = enrolled();
    // Only an administrator may do what no policy grants.
    assert_eq!(status_of(state.auth_admin(&KH)), 403);
    assert!(state.auth_admin(&ADMIN).is_ok());
    assert_eq!(status_of(state.remove_host(&KH, "alpha")), 403);
    assert_eq!(status_of(state.remove_host(&KH, "nobody")), 403);
    assert_eq!(status_of(state.remove_host(&ADMIN, "nobody")), 404);
    assert_eq!(status_of(state.rename_host(&ADMIN, "nobody", "x")), 404);
    // A host cannot enrol twice, nor two hosts under one name.
    assert_eq!(status_of(state.add_verification_attempt(attempt(KH, "/p"), 1, 300)), 409);
    let code = state.add_verification_attempt(attempt(OTHER, "/p"), 1, 300).unwrap();
    assert_eq!(status_of(state.verify_attempt(&ADMIN, code, "alpha", 301)), 409);
    assert_eq!(status_of(state.verify_attempt(&KH, code, "gamma", 301)), 403);
    state.verify_attempt(&ADMIN, code, "gamma", 301).unwrap();
    assert_eq!(status_of(state.rename_host(&ADMIN, "gamma", "alpha")), 409);
    state.rename_host(&ADMIN, "gamma", "gamma").unwrap();
    // A recipient that is none is malformed; a ciphertext that is none is a fault.
    assert_eq!(status_of(state.get_secret("db", "age1nonsense", &KH)), 400);
    assert_eq!(status_of(state.add_secret("db", b"plain".to_vec())), 500);
    assert_eq!(status_of(state.get_secret("db", "age1nonsense", &ADMIN)), 401);
}

#[test]
fn attempts_expire_and_codes_do_not_collide() {
    let (mut state, _) = fresh_state();
    let first = state.add_verification_attempt(attempt(KH, "/a"), 0, 1000).unwrap();
    assert_eq!(first, 1000);
    // The next attempt with the same seed gets the next code.
    let second = state.add_verification_attempt(attempt(OTHER, "/b"), 9000, 1001).unwrap();
    assert_eq!(second, 1001);
    // Asking again replaces the attempt of the same key, and its code is free again.
    let again = state.add_verification_attempt(attempt(KH, "/a"), 0, 1002).unwrap();
    assert_eq!(again, 1000);
    let last = state.add_verification_attempt(attempt(KH, "/a"), 8999, 1003).unwrap();
    assert_eq!(last, 9999);
    let wrapped = state.add_verification_attempt(attempt(KH, "/a"), 8999 + 9000, 1004).unwrap();
    assert_eq!(wrapped, 9999);

    // An attempt can be approved while it is alive, and not after.
    let late = 1001 + ATTEMPT_LIFETIME;
    assert_eq!(status_of(state.verify_attempt(&ADMIN, second, "late", late)), 404);
    state.verify_attempt(&ADMIN, second, "in-time", late - 1).unwrap();
}

#[test]
fn a_policy_opens_what_it_grants() {
    let (mut state, _) = enrolled();
    assert!(state.status(&OTHER).is_empty());
    assert!(state
        .authorize(&ADMIN, Action::Secret(auth::Secret::ListSecrets), &[].into())
        .is_ok());
    assert_eq!(
        status_of(state.authorize(&OTHER, Action::Secret(auth::Secret::ListSecrets), &[7].into())),
        403
    );
    assert!(state.has_admin_credential());
}

#[test]
fn a_state_without_administrator() {
    let server = age::x25519::Identity::generate();
    let state = AppState::new(Identity::parse(server.to_string().expose_secret()).unwrap());
    assert!(!state.has_admin_credential());
    assert_eq!(state.get_server_recipient(), server.to_public().to_string());
    assert!(state.list_secrets().is_empty());
    assert!(state.get_all_acl().is_empty());
}

#[test]
fn keys_and_names() {
    let (mut state, _) = enrolled();
    assert_eq!(state.is_detach_allowed(&KH).unwrap(), false);
    state.set_detach_permission(&ADMIN, "alpha", true).unwrap();
    assert_eq!(state.is_detach_allowed(&KH).unwrap(), true);
    assert_eq!(status_of(state.is_detach_allowed(&OTHER)), 401);

    assert_eq!(state.hostname_by_key(&ADMIN, &KH), Some("alpha".to_owned()));
    assert_eq!(state.hostname_by_key(&KH, &KH), None);
    assert_eq!(state.hostname_by_key(&ADMIN, &OTHER), None);

    let mut keys = state.known_keys();
    keys.sort_by_key(|key| key.bytes);
    assert_eq!(keys, vec![ADMIN, KH]);

    assert_eq!(status_of(state.remove_admin_key(&KH, &ADMIN)), 403);
    state.add_admin_key(OTHER);
    state.add_admin_key(OTHER);
    state.remove_admin_key(&ADMIN, &OTHER).unwrap();
    assert!(!state.is_admin(&OTHER));
    assert!(state.is_admin(&ADMIN));
    state.remove_admin_key(&ADMIN, &ADMIN).unwrap();
    assert!(!state.has_admin_credential());
}
