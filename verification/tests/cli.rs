use yeet::cli::approve::{approve, check_output, keep_facts, BadOutput};
use yeet::cli::common::{get_server_url, Field, Kind, Next, Question};
use yeet::cli::hosts::{hostnames, hosts};
use yeet::cli::publish::{cache_name, publish, signing_key, substitutor};
use yeet::cli::secret::{
    self, add, deny, handle_secret_command, remove, rename, show, Needs, SecretArgs, SecretCommands,
};
use yeet::cli::host;
use yeet::host::{Host, VerificationArtifacts};
use yeet::key::PublicKey;
use yeet::routes::secret::AclSecretRequest;

fn strings(items: &[&str]) -> Vec<String> {
    items.iter().map(|item| item.to_string()).collect()
}

fn question<R>(field: Field, kind: Kind, message: &str) -> Next<R> {
    Next::Ask(Question { field, kind, message: message.to_owned() })
}

fn named(name: &str, n: u8) -> Host {
    Host {
        name: name.to_owned(),
        key: PublicKey { bytes: [n; 32] },
        tags: Default::default(),
        current_version: None,
        desired_version: None,
        detach_allowed: false,
        detached: false,
    }
}

#[test]
fn the_coordinator_is_the_one_named_or_the_agents() {
    assert_eq!(get_server_url(Some("a".into()), Some("b".into())), Ok("a".to_owned()));
    assert_eq!(get_server_url(None, Some("b".into())), Ok("b".to_owned()));
    assert_eq!(get_server_url(None, None), Err("`--url` required for publish".to_owned()));
}

#[test]
fn each_command_needs_something_of_the_coordinator() {
    let needs = |command| handle_secret_command(&SecretArgs { command });
    assert_eq!(needs(SecretCommands::Add { name: None, file: None }), Needs::ServerRecipient);
    assert_eq!(needs(SecretCommands::Rename { name: None, new: None }), Needs::Secrets);
    assert_eq!(needs(SecretCommands::Remove { name: None }), Needs::Secrets);
    assert_eq!(needs(SecretCommands::Allow { host: None, secret: None }), Needs::SecretsAndHosts);
    assert_eq!(needs(SecretCommands::Deny { host: None, secret: None }), Needs::SecretsAndHosts);
    assert_eq!(needs(SecretCommands::Show { secret: vec![], host: vec![] }), Needs::AccessLists);
}

#[test]
fn adding_a_secret_encrypts_it_for_the_coordinator() {
    let server = age::x25519::Identity::generate();
    let recipient = server.to_public().to_string();
    assert!(matches!(
        add("age1nonsense", Some("db".into()), Some(b"x".to_vec())),
        Next::Fail(message) if message == "Could not parse the server recipient key"
    ));
    assert!(matches!(
        add(&recipient, None, None),
        Next::Ask(Question { field: Field::Name, kind: Kind::Text, message })
            if message == "What should the name of the secret be?"
    ));
    assert!(matches!(
        add(&recipient, Some("db".into()), None),
        Next::Ask(Question { field: Field::File, kind: Kind::Text, message }) if message == "Secret File:"
    ));
    match add(&recipient, Some("db".into()), Some(b"hunter2".to_vec())) {
        Next::Send(request) => {
            assert_eq!(request.name, "db");
            assert_eq!(age::decrypt(&server, &request.secret).unwrap(), b"hunter2");
        }
        other => panic!("{other:?}"),
    }
}

#[test]
fn renaming_a_secret() {
    let known = strings(&["db", "api"]);
    assert_eq!(
        rename(&known, None, Some("x".into())),
        question(Field::Secret, Kind::Select, "Which secret do you want to rename?")
    );
    assert_eq!(
        rename(&known, Some("nope".into()), None),
        Next::Fail("Secret nope does not exist!".to_owned())
    );
    assert_eq!(
        rename(&known, Some("db".into()), None),
        question(Field::New, Kind::Text, "What should the new name be?")
    );
    match rename(&known, Some("db".into()), Some("database".into())) {
        Next::Send(request) => {
            assert_eq!(request.current_name, "db");
            assert_eq!(request.new_name, "database");
        }
        other => panic!("{other:?}"),
    }
}

#[test]
fn removing_a_secret_has_to_be_confirmed() {
    let known = strings(&["db"]);
    assert!(matches!(remove(&known, None, None), Next::Ask(Question { field: Field::Secret, .. })));
    assert!(matches!(
        remove(&known, Some("x".into()), Some(true)),
        Next::Fail(message) if message == "Secret x does not exist!"
    ));
    assert!(matches!(
        remove(&known, Some("db".into()), None),
        Next::Ask(Question { field: Field::Confirm, kind: Kind::Confirm, message })
            if message == "Are you sure you want to delete db. This action is not reversable"
    ));
    assert!(matches!(remove(&known, Some("db".into()), Some(false)), Next::Stop));
    assert!(matches!(
        remove(&known, Some("db".into()), Some(true)),
        Next::Send(request) if request.secret_name == "db"
    ));
}

#[test]
fn access_is_given_and_taken() {
    let secrets = strings(&["db"]);
    let hosts = strings(&["alpha", "beta"]);
    assert!(matches!(
        secret::allow(&secrets, &hosts, None, Some("alpha".into())),
        Next::Ask(Question { field: Field::Secret, kind: Kind::Select, message })
            if message == "Which secret do you want to modify?"
    ));
    assert!(matches!(
        secret::allow(&secrets, &hosts, Some("x".into()), Some("alpha".into())),
        Next::Fail(message) if message == "Secret x does not exist!"
    ));
    assert!(matches!(
        secret::allow(&secrets, &hosts, Some("db".into()), None),
        Next::Ask(Question { field: Field::Host, kind: Kind::Select, message })
            if message == "Which Host should be able to access this secret?"
    ));
    assert!(matches!(
        deny(&secrets, &hosts, Some("db".into()), None),
        Next::Ask(Question { field: Field::Host, kind: Kind::Select, message })
            if message == "Which Host should be removed?"
    ));
    assert!(matches!(
        secret::allow(&secrets, &hosts, Some("db".into()), Some("gamma".into())),
        Next::Fail(message) if message == "Host gamma does not exist!"
    ));
    assert!(matches!(
        secret::allow(&secrets, &hosts, Some("db".into()), Some("beta".into())),
        Next::Send(AclSecretRequest::AllowHost { secret, host }) if secret == "db" && host == "beta"
    ));
    assert!(matches!(
        deny(&secrets, &hosts, Some("db".into()), Some("beta".into())),
        Next::Send(AclSecretRequest::RemoveHost { secret, host }) if secret == "db" && host == "beta"
    ));
}

#[test]
fn access_lists_are_shown_for_the_secrets_named() {
    let lists = vec![
        ("db".to_owned(), strings(&["alpha"])),
        ("api".to_owned(), strings(&["alpha", "beta"])),
        ("tls".to_owned(), strings(&[])),
    ];
    assert_eq!(show(lists.clone(), &strings(&[])), lists);
    assert_eq!(
        show(lists.clone(), &strings(&["tls", "db", "nope"])),
        vec![lists[0].clone(), lists[2].clone()]
    );
    assert_eq!(show(lists.clone(), &strings(&["nope"])), vec![]);
}

#[test]
fn removing_and_renaming_a_host_have_to_be_confirmed() {
    assert!(matches!(
        host::remove(None, None),
        Next::Ask(Question { field: Field::Host, kind: Kind::Select, message })
            if message == "Which host do you want to delete>"
    ));
    assert!(matches!(
        host::remove(Some("alpha".into()), None),
        Next::Ask(Question { field: Field::Confirm, message, .. })
            if message == "Are you sure you want to delete alpha. This action is not reversable"
    ));
    assert!(matches!(host::remove(Some("alpha".into()), Some(false)), Next::Stop));
    assert!(matches!(
        host::remove(Some("alpha".into()), Some(true)),
        Next::Send(request) if request.hostname == "alpha"
    ));

    assert!(matches!(
        host::rename(None, Some("beta".into()), Some(true)),
        Next::Ask(Question { field: Field::Host, message, .. }) if message == "Which host do you want to rename>"
    ));
    assert!(matches!(
        host::rename(Some("alpha".into()), None, None),
        Next::Ask(Question { field: Field::New, message, .. }) if message == "What should the new name be?"
    ));
    assert!(matches!(
        host::rename(Some("alpha".into()), Some("beta".into()), None),
        Next::Ask(Question { field: Field::Confirm, message, .. })
            if message == "Are you sure you want to rename alpha to beta."
    ));
    assert!(matches!(host::rename(Some("alpha".into()), Some("beta".into()), Some(false)), Next::Stop));
    assert!(matches!(
        host::rename(Some("alpha".into()), Some("beta".into()), Some(true)),
        Next::Send(request) if request.current_name == "alpha" && request.new_name == "beta"
    ));
}

#[test]
fn approving_a_host() {
    assert!(matches!(
        approve(Some(4217), None),
        Next::Ask(Question { field: Field::Hostname, kind: Kind::Text, message }) if message == "Hostname:"
    ));
    assert!(matches!(
        approve(None, Some("alpha".into())),
        Next::Ask(Question { field: Field::Code, kind: Kind::Number, message }) if message == "Approval code:"
    ));
    assert!(matches!(
        approve(Some(4217), Some("alpha".into())),
        Next::Send(request) if request.code == 4217 && request.hostname == "alpha"
    ));

    let none = VerificationArtifacts { nixos_facter: None };
    assert!(matches!(keep_facts(none, Some("out".into())), Next::Stop));
    let facts = || VerificationArtifacts { nixos_facter: Some("{}".to_owned()) };
    assert!(matches!(
        keep_facts(facts(), None),
        Next::Ask(Question { field: Field::Output, message, .. }) if message == "Facter Output:"
    ));
    assert_eq!(keep_facts(facts(), Some("out".into())), Next::Send(("out".to_owned(), "{}".to_owned())));

    assert_eq!(check_output(false, true, false), Err(BadOutput::NotADirectory));
    assert_eq!(check_output(true, false, false), Err(BadOutput::NoDirectory));
    assert_eq!(check_output(true, true, true), Err(BadOutput::Exists));
    assert_eq!(check_output(true, true, false), Ok(()));
}

#[test]
fn hosts_are_picked_by_name() {
    let all = vec![named("gamma", 3), named("alpha", 1), named("beta", 2)];
    assert_eq!(hostnames(&all), strings(&["alpha", "beta", "gamma"]));
    let short = hosts(vec![named("gamma", 3), named("alpha", 1)], false, &strings(&["alpha"]));
    assert_eq!(short.len(), 2);
    let full = hosts(all, true, &strings(&["beta", "gamma"]));
    let names: Vec<&str> = full.iter().map(|host| host.name.as_str()).collect();
    assert_eq!(names, ["gamma", "beta"]);
}

#[test]
fn publishing_needs_a_cache_a_key_and_hosts() {
    assert_eq!(cache_name(Some("fleet".into())), Ok("fleet".to_owned()));
    assert_eq!(
        cache_name(None),
        Err("Cachix cache name required. Set it in config or via the --cachix flag".to_owned())
    );
    assert_eq!(signing_key(Some("mine".into()), strings(&["theirs"])), Ok("mine".to_owned()));
    assert_eq!(signing_key(None, strings(&["first", "second"])), Ok("first".to_owned()));
    assert_eq!(
        signing_key(None, vec![]),
        Err("Cachix cache has no public signing keys".to_owned())
    );
    assert_eq!(substitutor("fleet"), "https://fleet.cachix.org");

    let built = vec![("alpha".to_owned(), "/nix/store/bbbb-sys".to_owned())];
    let request = publish("fleet", "fleet-1:key=".to_owned(), built.clone()).unwrap();
    assert_eq!(request.hosts, built);
    assert_eq!(request.public_key, "fleet-1:key=");
    assert_eq!(request.substitutor, "https://fleet.cachix.org");
    assert_eq!(
        publish("fleet", "k".to_owned(), vec![]).err(),
        Some("No hosts found - did you commit your files?".to_owned())
    );
}
