use yeet::activate::{Act, Activation, Platform, Stage};

fn went() -> Option<(bool, String)> {
    Some((true, String::new()))
}

fn failed(complaint: &str) -> Option<(bool, String)> {
    Some((false, complaint.to_owned()))
}

#[test]
fn the_profile_is_set_first() {
    let (activation, first) = Activation::start(Platform::Linux, "/nix/store/bbbb-sys");
    assert_eq!(activation.stage, Stage::Profile);
    assert_eq!(activation.store_path, "/nix/store/bbbb-sys");
    assert_eq!(first.program, "nix-env");
    assert_eq!(
        first.args,
        vec!["--profile", "/nix/var/nix/profiles/system", "--set", "/nix/store/bbbb-sys"]
    );
}

#[test]
fn the_activation_runs_once_the_profile_is_set() {
    let (activation, _) = Activation::start(Platform::Linux, "/nix/store/bbbb-sys");
    let Act::Run(next, script) = activation.advance(went()) else {
        panic!("the activation is not run");
    };
    assert_eq!(next.stage, Stage::Script);
    assert_eq!(script.program, "/nix/store/bbbb-sys/bin/switch-to-configuration");
    assert_eq!(script.args, vec!["switch"]);
    assert!(matches!(next.advance(went()), Act::Finished(Ok(()))));

    let (activation, _) = Activation::start(Platform::MacOs, "/nix/store/bbbb-sys");
    let Act::Run(_, script) = activation.advance(Some((true, "warning".to_owned()))) else {
        panic!("the activation is not run");
    };
    assert_eq!(script.program, "/nix/store/bbbb-sys/activate");
    assert!(script.args.is_empty());
}

#[test]
fn no_activation_without_the_profile() {
    let (activation, _) = Activation::start(Platform::Linux, "/nix/store/bbbb-sys");
    match activation.advance(failed("error: path is not valid")) {
        Act::Finished(Err(complaint)) => assert_eq!(complaint, "error: path is not valid"),
        other => panic!("{other:?}"),
    }
    let (activation, _) = Activation::start(Platform::MacOs, "/nix/store/bbbb-sys");
    match activation.advance(None) {
        Act::Finished(Err(complaint)) => assert_eq!(complaint, "the program could not be run"),
        other => panic!("{other:?}"),
    }
}

#[test]
fn an_activation_that_exits_with_an_error_is_an_error() {
    let (activation, _) = Activation::start(Platform::Linux, "/nix/store/bbbb-sys");
    let Act::Run(next, _) = activation.advance(went()) else {
        panic!("the activation is not run");
    };
    match next.advance(failed("exit status: 1")) {
        Act::Finished(Err(complaint)) => assert_eq!(complaint, "exit status: 1"),
        other => panic!("{other:?}"),
    }
    let (activation, _) = Activation::start(Platform::Linux, "/nix/store/bbbb-sys");
    let Act::Run(next, _) = activation.advance(went()) else {
        panic!("the activation is not run");
    };
    assert!(matches!(next.advance(None), Act::Finished(Err(_))));
}
