//! What the local store tool is asked when a version is fetched.

use crate::text::{
    join, joined, rising, sort_unique, starts_with, texts, words, words_of,
};
use crate::version::{RemoteStorePath, RemoteView};
use vstd::prelude::*;
use vstd::string::StringExecFns;

verus! {

/// The setting of the store's configuration that lists the keys it trusts.
pub const TRUSTED_KEYS_SETTING: &'static str = "trusted-public-keys";

/// What stands for the setting in a configuration that does not have it.
pub const TRUSTED_KEYS_DEFAULT: &'static str =
    "cache.nixos.org-1:6NCHdD59X431o0gWypbMrAURkbJ16ZPMQFGspcDShjY=";

/// The line that lists the trusted keys: the first that begins with the name
/// of the setting, and the default where there is none.
pub open spec fn keys_line(lines: Seq<Seq<char>>) -> Seq<char>
    decreases lines.len(),
{
    if lines.len() == 0 {
        TRUSTED_KEYS_DEFAULT@
    } else if TRUSTED_KEYS_SETTING@.is_prefix_of(lines[0]) {
        lines[0]
    } else {
        keys_line(lines.skip(1))
    }
}

/// What follows the first two of `words`.
pub open spec fn after_two(words: Seq<Seq<char>>) -> Seq<Seq<char>> {
    if words.len() >= 2 {
        words.skip(2)
    } else {
        Seq::empty()
    }
}

/// The keys that a configuration with these lines trusts: the words of the
/// line that lists them, but for the first two, which are the name of the
/// setting and the sign that follows it.
pub open spec fn trusted_keys_of(lines: Seq<Seq<char>>) -> Seq<Seq<char>> {
    after_two(words_of(keys_line(lines)))
}

/// The keys that the local store trusts, from the lines of its configuration.
pub fn trusted_public_keys(lines: &Vec<String>) -> (keys: Vec<String>)
    ensures
        texts(keys@) == trusted_keys_of(texts(lines@)),
{
    let ghost all = texts(lines@);
    let mut i: usize = 0;
    let mut found = words(TRUSTED_KEYS_DEFAULT);
    assert(all.skip(0) =~= all);
    while i < lines.len()
        invariant
            i <= lines.len(),
            all == texts(lines@),
            keys_line(all) == keys_line(all.skip(i as int)),
            texts(found@) == words_of(TRUSTED_KEYS_DEFAULT@),
        decreases lines.len() - i,
    {
        assert(all.skip(i as int)[0] == lines[i as int]@);
        if starts_with(lines[i].as_str(), TRUSTED_KEYS_SETTING) {
            found = words(lines[i].as_str());
            proof {
                assert(texts(found@) == words_of(keys_line(all)));
            }
            return drop_two(found);
        }
        assert(all.skip(i as int).skip(1) =~= all.skip(i + 1));
        i += 1;
    }
    assert(all.skip(lines.len() as int) =~= Seq::<Seq<char>>::empty());
    drop_two(found)
}

/// `words` without its first two.
fn drop_two(words: Vec<String>) -> (rest: Vec<String>)
    ensures
        texts(rest@) == after_two(texts(words@)),
{
    let mut rest = words;
    if rest.len() >= 2 {
        let ghost before = texts(rest@);
        rest.remove(0);
        rest.remove(0);
        assert(texts(rest@) =~= before.skip(2));
        rest
    } else {
        let none: Vec<String> = Vec::new();
        assert(texts(none@) =~= Seq::<Seq<char>>::empty());
        none
    }
}

/// The keys to trust when a version is fetched: those that the local store
/// trusts and the key of the version's cache, in rising order, each once.
pub fn trusted_keys(local: Vec<String>, version_key: &str) -> (keys: Vec<String>)
    ensures
        rising(texts(keys@)),
        texts(keys@).to_set() == texts(local@).to_set().insert(version_key@),
{
    let mut all = local;
    let ghost before = texts(all@);
    all.push(version_key.to_owned());
    proof {
        assert(texts(all@) =~= before.push(version_key@));
        assert forall|t: Seq<char>| texts(all@).to_set().contains(t) <==> before.to_set().insert(
            version_key@,
        ).contains(t) by {
            if texts(all@).to_set().contains(t) {
                let k = choose|k: int| 0 <= k < texts(all@).len() && texts(all@)[k] == t;
                if k < before.len() {
                    assert(before[k] == t);
                }
            }
            if before.to_set().contains(t) {
                let k = choose|k: int| 0 <= k < before.len() && before[k] == t;
                assert(texts(all@)[k] == t);
            }
            if t == version_key@ {
                assert(texts(all@)[before.len() as int] == t);
            }
        }
        assert(texts(all@).to_set() =~= before.to_set().insert(version_key@));
    }
    sort_unique(all)
}

/// The arguments with which the store tool fetches `version`, trusting
/// `keys`.
pub open spec fn download_args_of(version: RemoteView, keys: Seq<Seq<char>>) -> Seq<Seq<char>> {
    seq![
        "--realise"@,
        version.store_path,
        "--option"@,
        "extra-substituters"@,
        version.substitutor,
        "--option"@,
        "trusted-public-keys"@,
        joined(keys, " "@),
        "--option"@,
        "narinfo-cache-negative-ttl"@,
        "0"@,
    ]
}

/// The arguments with which the store tool fetches `version`, trusting
/// `keys`: it is to realise the store path, with the version's cache among
/// the substituters, and not to remember that a path was missing there.
pub fn download_args(version: &RemoteStorePath, keys: &Vec<String>) -> (args: Vec<String>)
    ensures
        texts(args@) == download_args_of(version@, texts(keys@)),
{
    let mut args: Vec<String> = Vec::new();
    args.push(String::from_str("--realise"));
    args.push(version.store_path.clone());
    args.push(String::from_str("--option"));
    args.push(String::from_str("extra-substituters"));
    args.push(version.substitutor.clone());
    args.push(String::from_str("--option"));
    args.push(String::from_str("trusted-public-keys"));
    args.push(join(keys, " "));
    args.push(String::from_str("--option"));
    args.push(String::from_str("narinfo-cache-negative-ttl"));
    args.push(String::from_str("0"));
    assert(texts(args@) =~= download_args_of(version@, texts(keys@)));
    args
}

/// The arguments that hand the store tool the file with the credentials for
/// the cache.
pub fn netrc_args(path: &str) -> (args: Vec<String>)
    ensures
        texts(args@) == seq!["--option"@, "netrc-file"@, path@],
{
    let mut args: Vec<String> = Vec::new();
    args.push(String::from_str("--option"));
    args.push(String::from_str("netrc-file"));
    args.push(path.to_owned());
    assert(texts(args@) =~= seq!["--option"@, "netrc-file"@, path@]);
    args
}

/// The credentials for the cache, from what came of asking the coordinator
/// for them: none where it has none for this host, and none where it could
/// not be asked. A version is then fetched without them.
pub fn credentials(answer: Result<Option<Vec<u8>>, String>) -> (netrc: Option<Vec<u8>>)
    ensures
        netrc == match answer {
            Ok(found) => found,
            Err(_) => None::<Vec<u8>>,
        },
{
    match answer {
        Ok(found) => found,
        Err(_) => None,
    }
}

/// The program that fetches a version.
pub const STORE_TOOL: &'static str = "nix-store";

/// The secret that holds the credentials for the cache.
pub const NETRC_SECRET: &'static str = "netrc";

} // verus!
