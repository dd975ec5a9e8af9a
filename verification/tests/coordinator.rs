use age::secrecy::ExposeSecret;
use yeet::auth::{self, Action};
use yeet::endpoint::{find, routes, Endpoint, Method};
use yeet::host::{VerificationArtifacts, VerificationAttempt};
use yeet::key::PublicKey;
use yeet::keys::Identity;
use yeet::persist::{checksum, Saver, SAVE_INTERVAL, STATE_FILE};
use yeet::routes::host::{remove_host, rename_host, HostRemoveRequest, HostRenameRequest};
use yeet::routes::secret::{
    add_secret, get_acl_by_secret, get_all_acl, get_secret, get_server_recipient, list, remove_secret,
    rename_secret, set_acl, AclBySecretRequest, AclSecretRequest, AddSecretRequest, GetSecretRequest,
    RemoveSecretRequest, RenameSecretRequest,
};
use yeet::routes::system::{
    add_verification_attempt, is_host_verified, system_check, update_hosts, verify_attempt,
    HostUpdateRequest, VerificationAcceptance, VersionRequest,
};
use yeet::signature::{covered_components, is_fresh, verify, Presented, SignatureError, TOLERANCE};
use yeet::state::AppState;
use yeet::version::AgentAction;

const ADMIN: PublicKey = PublicKey { bytes: [1; 32] };
const KH: PublicKey = PublicKey { bytes: [2; 32] };

fn state() -> (AppState, age::x25519::Identity) {
    let server = age::x25519::Identity::generate();
    let mut state = AppState::new(Identity::parse(server.to_string().expose_secret()).unwrap());
    state.add_admin_key(ADMIN);
    (state, server)
}

#[test]
fn the_secret_requests_end_to_end() {
    let (mut state, server) = state();
    let attempt = VerificationAttempt {
        key: KH,
        store_path: "/nix/store/aaaa-sys".to_owned(),
        artifacts: VerificationArtifacts { nixos_facter: None },
    };
    let code = add_verification_attempt(&mut state, attempt, 3217, 5).unwrap();
    assert_eq!(is_host_verified(&state, &KH), 404);
    let request = VerificationAcceptance { code, hostname: "alpha".to_owned() };
    verify_attempt(&mut state, &ADMIN, request, 6).unwrap();
    assert_eq!(is_host_verified(&state, &KH), 200);

    let recipient = get_server_recipient(&state, &KH).unwrap();
    assert_eq!(recipient, server.to_public().to_string());
    let theirs: age::x25519::Recipient = recipient.parse().unwrap();
    let secret = age::encrypt(&theirs, b"hunter2").unwrap();

    // Only an administrator may touch the secrets.
    let request = || AddSecretRequest { name: "db".to_owned(), secret: secret.clone() };
    assert_eq!(add_secret(&mut state, &KH, request()).unwrap_err().status(), 403);
    assert_eq!(add_secret(&mut state, &ADMIN, request()).unwrap(), 200);
    assert_eq!(list(&state, &KH).unwrap_err().status(), 403);
    assert_eq!(list(&state, &ADMIN).unwrap(), vec!["db".to_owned()]);

    let grant = AclSecretRequest::AllowHost { secret: "db".to_owned(), host: "alpha".to_owned() };
    assert_eq!(set_acl(&mut state, &KH, grant.clone()).unwrap_err().status(), 403);
    assert_eq!(set_acl(&mut state, &ADMIN, grant).unwrap(), 200);
    assert_eq!(
        get_acl_by_secret(&state, &ADMIN, AclBySecretRequest { secret: "db".to_owned() }).unwrap(),
        vec!["alpha".to_owned()]
    );
    assert_eq!(
        get_all_acl(&state, &ADMIN).unwrap(),
        vec![("db".to_owned(), vec!["alpha".to_owned()])]
    );

    let host = age::x25519::Identity::generate();
    let ask = |name: &str| GetSecretRequest {
        secret: name.to_owned(),
        recipient: host.to_public().to_string(),
    };
    let answer = get_secret(&state, &KH, ask("db")).unwrap().unwrap();
    assert_eq!(age::decrypt(&host, &answer).unwrap(), b"hunter2");
    assert_eq!(get_secret(&state, &ADMIN, ask("db")).unwrap_err().status(), 401);

    let request = RenameSecretRequest { current_name: "db".to_owned(), new_name: "pg".to_owned() };
    assert_eq!(rename_secret(&mut state, &ADMIN, request).unwrap(), 200);
    assert_eq!(get_secret(&state, &KH, ask("db")).unwrap(), None);
    assert!(get_secret(&state, &KH, ask("pg")).unwrap().is_some());

    let deny = AclSecretRequest::RemoveHost { secret: "pg".to_owned(), host: "alpha".to_owned() };
    assert_eq!(set_acl(&mut state, &ADMIN, deny).unwrap(), 200);
    assert_eq!(get_secret(&state, &KH, ask("pg")).unwrap(), None);

    let request = RemoveSecretRequest { secret_name: "pg".to_owned() };
    assert_eq!(remove_secret(&mut state, &KH, request.clone()).unwrap_err().status(), 403);
    assert_eq!(remove_secret(&mut state, &ADMIN, request).unwrap(), 200);
    assert!(list(&state, &ADMIN).unwrap().is_empty());
}

#[test]
fn the_host_requests_end_to_end() {
    let (mut state, _) = state();
    let attempt = VerificationAttempt {
        key: KH,
        store_path: "/nix/store/aaaa-sys".to_owned(),
        artifacts: VerificationArtifacts { nixos_facter: None },
    };
    let code = add_verification_attempt(&mut state, attempt, 0, 5).unwrap();
    let request = VerificationAcceptance { code, hostname: "alpha".to_owned() };
    verify_attempt(&mut state, &ADMIN, request, 6).unwrap();
    state.secret_add_access_for("db", "alpha");

    let update = HostUpdateRequest {
        hosts: vec![("alpha".to_owned(), "/nix/store/bbbb-sys".to_owned())],
        public_key: "k".to_owned(),
        substitutor: "s".to_owned(),
    };
    assert_eq!(update_hosts(&mut state, &KH, update.clone()).unwrap_err().status(), 403);
    assert_eq!(update_hosts(&mut state, &ADMIN, update).unwrap(), 200);
    let unknown = HostUpdateRequest {
        hosts: vec![
            ("alpha".to_owned(), "/nix/store/cccc-sys".to_owned()),
            ("nobody".to_owned(), "/nix/store/cccc-sys".to_owned()),
        ],
        public_key: "k".to_owned(),
        substitutor: "s".to_owned(),
    };
    assert_eq!(update_hosts(&mut state, &ADMIN, unknown).unwrap_err().status(), 404);
    let check = VersionRequest { store_path: "/nix/store/aaaa-sys".to_owned() };
    assert!(matches!(
        system_check(&mut state, &KH, check).unwrap(),
        AgentAction::SwitchTo(remote) if remote.store_path == "/nix/store/bbbb-sys"
    ));

    // A policy lets someone who is no administrator rename the hosts that carry its tag.
    let tag = state.create_tag();
    state.set_host_tags("alpha", [tag].into());
    let rename = || HostRenameRequest { current_name: "alpha".to_owned(), new_name: "beta".to_owned() };
    assert_eq!(rename_host(&mut state, &KH, rename()).unwrap_err().status(), 403);
    state.set_policy(KH, Action::Host(auth::Host::Rename), [tag].into());
    assert_eq!(rename_host(&mut state, &KH, rename()).unwrap(), 200);
    assert_eq!(state.get_acl_by_secret("db"), vec!["beta".to_owned()]);
    state.delete_tag(&tag);
    let back = HostRenameRequest { current_name: "beta".to_owned(), new_name: "alpha".to_owned() };
    assert_eq!(rename_host(&mut state, &KH, back).unwrap_err().status(), 403);
    state.set_policy(KH, Action::Host(auth::Host::Rename), [tag].into());
    state.delete_policy(KH, Action::Host(auth::Host::Rename));
    let back = HostRenameRequest { current_name: "beta".to_owned(), new_name: "alpha".to_owned() };
    assert_eq!(rename_host(&mut state, &KH, back).unwrap_err().status(), 403);

    let remove = || HostRemoveRequest { hostname: "beta".to_owned() };
    assert_eq!(remove_host(&mut state, &KH, remove()).unwrap_err().status(), 403);
    assert_eq!(remove_host(&mut state, &ADMIN, remove()).unwrap(), 200);
    assert!(state.get_acl_by_secret("db").is_empty());
    assert_eq!(is_host_verified(&state, &KH), 404);
    assert_eq!(remove_host(&mut state, &ADMIN, remove()).unwrap_err().status(), 404);
}

#[test]
fn every_request_has_its_place() {
    let all = routes();
    assert_eq!(all.len(), 23);
    for endpoint in &all {
        assert_eq!(find(endpoint.method(), endpoint.path()), Some(*endpoint));
    }
    assert_eq!(find(Method::Post, "/system/check"), Some(Endpoint::SystemCheck));
    assert_eq!(find(Method::Get, "/system/check"), None);
    assert_eq!(find(Method::Get, "/system/verify"), Some(Endpoint::IsVerified));
    assert_eq!(find(Method::Post, "/system/verify"), Some(Endpoint::AddVerification));
    assert_eq!(find(Method::Post, "/secret"), Some(Endpoint::Secret));
    assert_eq!(find(Method::Get, "/secret/acl/all"), Some(Endpoint::SecretAclAll));
    assert_eq!(find(Method::Post, "/secret/"), None);
    assert_eq!(find(Method::Post, ""), None);
    assert_eq!(Endpoint::SystemUpdate.action(), Some(Action::Host(auth::Host::Update)));
    assert_eq!(Endpoint::VerifyAccept.action(), Some(Action::Host(auth::Host::Accept)));
    assert_eq!(Endpoint::SecretList.action(), Some(Action::Secret(auth::Secret::ListSecrets)));
    assert_eq!(Endpoint::SecretAclAll.action(), Some(Action::Secret(auth::Secret::ACL)));
    assert_eq!(Endpoint::Detach.action(), Some(Action::Host(auth::Host::Attach)));
    assert_eq!(Endpoint::SystemCheck.action(), None);
    assert_eq!(Endpoint::Secret.action(), None);
}

#[test]
fn the_state_is_written_when_it_has_changed() {
    assert_eq!(SAVE_INTERVAL, 500);
    assert_eq!(STATE_FILE, "state.json");
    let mut saver = Saver::new();
    assert_eq!(saver.written, 0);
    assert!(saver.due(b"{}"));
    assert_eq!(saver.written, checksum(b"{}"));
    assert!(!saver.due(b"{}"));
    assert!(!saver.due(b"{}"));
    assert!(saver.due(b"{\"hosts\":[]}"));
    assert!(!saver.due(b"{\"hosts\":[]}"));
    assert!(saver.due(b"{}"));
    assert_ne!(checksum(b"a"), checksum(b"b"));
    assert_eq!(checksum(b"a"), checksum(b"a"));
}

fn presented(digest: &[u8], created: u64, holds: bool) -> Presented {
    Presented {
        content_digest: Some(digest.to_vec()),
        created: Some(created),
        key: Some(KH),
        signature_holds: holds,
    }
}

#[test]
fn a_good_signature_names_the_caller() {
    assert_eq!(verify(&presented(b"digest", 1000, true), b"digest", 1000), Ok(KH));
    assert_eq!(verify(&presented(b"digest", 1000, true), b"digest", 1000 + TOLERANCE), Ok(KH));
    assert_eq!(verify(&presented(b"digest", 1000 + TOLERANCE, true), b"digest", 1000), Ok(KH));
}

#[test]
fn each_way_a_request_can_be_wrong() {
    let mut missing = presented(b"digest", 1000, true);
    missing.content_digest = None;
    assert_eq!(verify(&missing, b"digest", 1000), Err(SignatureError::MissingHeaders));
    let mut missing = presented(b"digest", 1000, true);
    missing.created = None;
    assert_eq!(verify(&missing, b"digest", 1000), Err(SignatureError::MissingHeaders));
    let mut missing = presented(b"digest", 1000, true);
    missing.key = None;
    assert_eq!(verify(&missing, b"digest", 1000), Err(SignatureError::MissingHeaders));

    // A body that was changed on the way.
    assert_eq!(
        verify(&presented(b"digest", 1000, true), b"other!", 1000),
        Err(SignatureError::BodyDigestMismatch)
    );
    assert_eq!(
        verify(&presented(b"digest", 1000, true), b"digest2", 1000),
        Err(SignatureError::BodyDigestMismatch)
    );
    // A request that is replayed later, or dated ahead.
    assert_eq!(
        verify(&presented(b"digest", 1000, true), b"digest", 1001 + TOLERANCE),
        Err(SignatureError::StaleTimestamp)
    );
    assert_eq!(
        verify(&presented(b"digest", 1001 + TOLERANCE, true), b"digest", 1000),
        Err(SignatureError::StaleTimestamp)
    );
    // A signature that does not hold, and the order of the checks.
    assert_eq!(
        verify(&presented(b"digest", 1000, false), b"digest", 1000),
        Err(SignatureError::BadSignature)
    );
    assert_eq!(
        verify(&presented(b"digest", 0, false), b"other", 1000),
        Err(SignatureError::BodyDigestMismatch)
    );
    assert_eq!(
        verify(&presented(b"digest", 0, false), b"digest", 1000),
        Err(SignatureError::StaleTimestamp)
    );
    assert_eq!(SignatureError::BadSignature.status(), 401);
    assert_eq!(covered_components(), ["@method", "@path", "content-digest"]);
    assert_eq!(SignatureError::MissingHeaders.status(), 401);
}

#[test]
fn freshness_at_the_ends_of_time() {
    assert!(is_fresh(0, 0));
    assert!(is_fresh(0, TOLERANCE));
    assert!(!is_fresh(0, TOLERANCE + 1));
    assert!(is_fresh(u64::MAX, u64::MAX));
    assert!(is_fresh(u64::MAX - TOLERANCE, u64::MAX));
    assert!(!is_fresh(u64::MAX - TOLERANCE - 1, u64::MAX));
    assert!(is_fresh(u64::MAX, u64::MAX - TOLERANCE));
    assert!(!is_fresh(u64::MAX, 0));
}
