use yeet::download::{credentials, download_args, netrc_args, trusted_keys, trusted_public_keys};
use yeet::version::RemoteStorePath;

fn strings(items: &[&str]) -> Vec<String> {
    items.iter().map(|item| item.to_string()).collect()
}

#[test]
fn trusted_keys_are_read_from_the_first_matching_line() {
    let lines = strings(&[
        "# comment",
        "substituters = https://cache.nixos.org",
        "trusted-public-keys = cache.nixos.org-1:abc= mine:def=",
        "trusted-public-keys = other:ghi=",
    ]);
    assert_eq!(trusted_public_keys(&lines), strings(&["cache.nixos.org-1:abc=", "mine:def="]));
}

#[test]
fn trusted_keys_without_a_setting() {
    // The default stands for the whole line, so nothing is left after its first two words.
    assert_eq!(trusted_public_keys(&strings(&[])), strings(&[]));
    assert_eq!(trusted_public_keys(&strings(&["substituters = x"])), strings(&[]));
    assert_eq!(trusted_public_keys(&strings(&["trusted-public-keys ="])), strings(&[]));
    assert_eq!(trusted_public_keys(&strings(&["trusted-public-keys"])), strings(&[]));
    assert_eq!(trusted_public_keys(&strings(&["trusted-public-keys-extra = a b"])), strings(&["a", "b"]));
}

#[test]
fn the_version_key_joins_the_local_keys() {
    assert_eq!(
        trusted_keys(strings(&["b:2", "a:1", "b:2"]), "c:3"),
        strings(&["a:1", "b:2", "c:3"])
    );
    assert_eq!(trusted_keys(strings(&["b:2", "a:1"]), "a:1"), strings(&["a:1", "b:2"]));
    assert_eq!(trusted_keys(strings(&[]), "only:1"), strings(&["only:1"]));
}

#[test]
fn download_arguments() {
    let version = RemoteStorePath {
        store_path: "/nix/store/bbbb-sys".to_owned(),
        substitutor: "https://fleet.cachix.org".to_owned(),
        public_key: "fleet.cachix.org-1:xyz=".to_owned(),
    };
    let keys = trusted_keys(strings(&["cache.nixos.org-1:abc="]), &version.public_key);
    assert_eq!(
        download_args(&version, &keys),
        strings(&[
            "--realise",
            "/nix/store/bbbb-sys",
            "--option",
            "extra-substituters",
            "https://fleet.cachix.org",
            "--option",
            "trusted-public-keys",
            "cache.nixos.org-1:abc= fleet.cachix.org-1:xyz=",
            "--option",
            "narinfo-cache-negative-ttl",
            "0",
        ])
    );
    assert_eq!(
        netrc_args("/tmp/.tmpAbCd"),
        strings(&["--option", "netrc-file", "/tmp/.tmpAbCd"])
    );
}

#[test]
fn a_version_is_fetched_without_credentials_that_cannot_be_had() {
    assert_eq!(credentials(Ok(Some(b"machine cache login me".to_vec()))), Some(b"machine cache login me".to_vec()));
    assert_eq!(credentials(Ok(None)), None);
    assert_eq!(credentials(Err("connection refused".to_owned())), None);
}
