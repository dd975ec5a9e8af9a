use yeet::generation::{
    decimal, garbage, generation_dir, next_generation, plan_file, plan_generation, GenerationError,
    SecretFile, GENERATION_MODE, SECRET_LINK, SECRET_ROOT,
};
use yeet::activate::{activate, outcome, set_system_profile, Platform};
use yeet::secret::Secret;
use yeet::settings::{listen_address, state_file};

fn secret(name: &str, mode: &str, owner: &str, group: &str) -> Secret {
    Secret {
        name: name.to_owned(),
        path: format!("/run/secrets/{name}"),
        mode: mode.to_owned(),
        owner: owner.to_owned(),
        group: group.to_owned(),
        symlink: true,
    }
}

#[test]
fn layout() {
    assert_eq!(SECRET_LINK, "/etc/yeet/secret");
    assert_eq!(SECRET_ROOT, "/etc/yeet/secret.d");
    assert_eq!(GENERATION_MODE, 0o751);
    assert_eq!(generation_dir(0), "/etc/yeet/secret.d/0");
    assert_eq!(generation_dir(17), "/etc/yeet/secret.d/17");
}

#[test]
fn decimal_agrees_with_std() {
    for n in [0u64, 1, 9, 10, 11, 99, 100, 4294967295, 4294967296, u64::MAX] {
        assert_eq!(decimal(n), n.to_string());
    }
    for n in (0..5_000_000u64).step_by(7919) {
        assert_eq!(decimal(n), n.to_string());
    }
}

#[test]
fn first_generation_is_zero() {
    assert_eq!(next_generation(None), Some(0));
    assert_eq!(next_generation(Some("/etc/yeet/secret.d/current")), Some(0));
    assert_eq!(next_generation(Some("/")), Some(0));
    assert_eq!(next_generation(Some("/etc/yeet/secret.d/-1")), Some(0));
    assert_eq!(next_generation(Some("/etc/yeet/secret.d/")), Some(0));
    // A number that no generation can have had is no number.
    assert_eq!(next_generation(Some("/etc/yeet/secret.d/18446744073709551616")), Some(0));
}

#[test]
fn next_generation_is_one_more() {
    assert_eq!(next_generation(Some("/etc/yeet/secret.d/0")), Some(1));
    assert_eq!(next_generation(Some("/etc/yeet/secret.d/1")), Some(2));
    assert_eq!(next_generation(Some("/etc/yeet/secret.d/41/")), Some(42));
    assert_eq!(next_generation(Some("7")), Some(8));
    assert_eq!(next_generation(Some("/etc/yeet/secret.d/4294967295")), Some(4294967296));
    assert_eq!(next_generation(Some("/etc/yeet/secret.d/4294967296")), Some(4294967297));
    for n in [0u64, 5, 99, 1000, 4294967295, 4294967296, u64::MAX - 1] {
        assert_eq!(next_generation(Some(&generation_dir(n))), Some(n + 1));
    }
}

#[test]
fn generation_numbers_never_start_again() {
    assert_eq!(next_generation(Some("/etc/yeet/secret.d/18446744073709551614")), Some(u64::MAX));
    assert_eq!(next_generation(Some("/etc/yeet/secret.d/18446744073709551615")), None);
    assert_eq!(next_generation(Some(&generation_dir(u64::MAX))), None);
    let mut link = generation_dir(4294967290);
    let mut last = 4294967290u64;
    for _ in 0..12 {
        let next = next_generation(Some(&link)).unwrap();
        assert!(next > last);
        last = next;
        link = generation_dir(next);
    }
    assert_eq!(last, 4294967302);
}

#[test]
fn a_file_is_planned_from_its_definition() {
    let planned = plan_file(&secret("db/password", "0400", "1000", "100"), b"hunter2".to_vec());
    assert_eq!(
        planned,
        Ok(SecretFile {
            name: "password".to_owned(),
            mode: 0o400,
            owner: 1000,
            group: 100,
            content: b"hunter2".to_vec(),
        })
    );
}

#[test]
fn a_definition_can_be_wrong_in_four_ways() {
    assert_eq!(
        plan_file(&secret("db/..", "x", "y", "z"), vec![]),
        Err(GenerationError::InvalidName("db/..".to_owned()))
    );
    assert_eq!(
        plan_file(&secret("db", "0888", "y", "z"), vec![]),
        Err(GenerationError::InvalidMode("0888".to_owned()))
    );
    assert_eq!(
        plan_file(&secret("db", "0400", "root", "z"), vec![]),
        Err(GenerationError::InvalidOwner("root".to_owned()))
    );
    assert_eq!(
        plan_file(&secret("db", "0400", "0", "wheel"), vec![]),
        Err(GenerationError::InvalidGroup("wheel".to_owned()))
    );
}

#[test]
fn a_generation_holds_every_secret_once() {
    let planned = plan_generation(vec![
        (secret("a", "0400", "0", "0"), b"1".to_vec()),
        (secret("dir/b", "0440", "1", "2"), b"2".to_vec()),
    ])
    .unwrap();
    assert_eq!(planned.len(), 2);
    assert_eq!(planned[0].name, "a");
    assert_eq!(planned[0].content, b"1");
    assert_eq!(planned[1].name, "b");
    assert_eq!(planned[1].mode, 0o440);
    assert_eq!(planned[1].owner, 1);
    assert_eq!(planned[1].group, 2);

    assert_eq!(plan_generation(vec![]), Ok(vec![]));
}

#[test]
fn the_first_bad_secret_stops_the_plan() {
    assert_eq!(
        plan_generation(vec![
            (secret("a", "0400", "0", "0"), vec![]),
            (secret("b", "rw", "0", "0"), vec![]),
            (secret("..", "0400", "0", "0"), vec![]),
        ]),
        Err(GenerationError::InvalidMode("rw".to_owned()))
    );
    assert_eq!(
        plan_generation(vec![
            (secret("x/a", "0400", "0", "0"), vec![]),
            (secret("y/a", "0400", "0", "0"), vec![]),
        ]),
        Err(GenerationError::DuplicateName("a".to_owned()))
    );
}

#[test]
fn garbage_is_all_but_the_kept_generation() {
    let entries = vec!["0".to_owned(), "2".to_owned(), "1".to_owned(), "tmp".to_owned()];
    assert_eq!(garbage(entries.clone(), "2"), vec!["0", "1", "tmp"]);
    assert_eq!(garbage(entries.clone(), "3"), vec!["0", "2", "1", "tmp"]);
    assert_eq!(garbage(vec![], "0"), Vec::<String>::new());
    assert_eq!(garbage(vec!["0".to_owned()], "0"), Vec::<String>::new());
}

#[test]
fn the_system_is_activated_as_its_platform_has_it() {
    let profile = set_system_profile("/nix/store/bbbb-sys");
    assert_eq!(profile.program, "nix-env");
    assert_eq!(profile.args, ["--profile", "/nix/var/nix/profiles/system", "--set", "/nix/store/bbbb-sys"]);
    let linux = activate(Platform::Linux, "/nix/store/bbbb-sys");
    assert_eq!(linux.program, "/nix/store/bbbb-sys/bin/switch-to-configuration");
    assert_eq!(linux.args, ["switch"]);
    let mac = activate(Platform::MacOs, "/nix/store/bbbb-sys");
    assert_eq!(mac.program, "/nix/store/bbbb-sys/activate");
    assert!(mac.args.is_empty());

    assert_eq!(outcome(Some((true, "warning".to_owned()))), Ok(()));
    assert_eq!(outcome(Some((false, "exit 1".to_owned()))), Err("exit 1".to_owned()));
    assert_eq!(outcome(None), Err("the program could not be run".to_owned()));
}

#[test]
fn the_coordinator_listens_where_it_is_told() {
    assert_eq!(listen_address(None, None), "localhost:4337");
    assert_eq!(listen_address(Some("0.0.0.0".to_owned()), None), "0.0.0.0:4337");
    assert_eq!(listen_address(None, Some("80".to_owned())), "localhost:80");
    assert_eq!(listen_address(Some("::1".to_owned()), Some("8080".to_owned())), "::1:8080");
    assert_eq!(state_file(None), "state.json");
    assert_eq!(state_file(Some("/var/lib/yeet/state.json".to_owned())), "/var/lib/yeet/state.json");
}
