//! Publishing versions.

use vstd::prelude::*;
use vstd::string::StringExecFns;

verus! {

/// What is said when no cache is named.
pub const CACHE_REQUIRED: &'static str =
    "Cachix cache name required. Set it in config or via the --cachix flag";

/// What is said when the cache has no key to sign with.
pub const NO_SIGNING_KEY: &'static str = "Cachix cache has no public signing keys";

/// What is said when there is nothing to publish.
pub const NO_HOSTS: &'static str = "No hosts found - did you commit your files?";

/// The cache to push to, which has to be named.
pub fn cache_name(configured: Option<String>) -> (name: Result<String, String>)
    ensures
        match configured {
            Some(named) => name == Ok::<String, String>(named),
            None => name matches Err(message) && message@ == CACHE_REQUIRED@,
        },
{
    match configured {
        Some(named) => Ok(named),
        None => Err(String::from_str(CACHE_REQUIRED)),
    }
}

/// The key with which the cache signs: the one configured, else the first
/// that the cache names.
pub fn signing_key(configured: Option<String>, of_cache: Vec<String>) -> (key: Result<
    String,
    String,
>)
    ensures
        match configured {
            Some(named) => key == Ok::<String, String>(named),
            None => if of_cache.len() > 0 {
                key == Ok::<String, String>(of_cache[0])
            } else {
                key matches Err(message) && message@ == NO_SIGNING_KEY@
            },
        },
{
    match configured {
        Some(named) => Ok(named),
        None => {
            let mut keys = of_cache;
            if keys.len() > 0 {
                Ok(keys.swap_remove(0))
            } else {
                Err(String::from_str(NO_SIGNING_KEY))
            }
        },
    }
}

/// Whether the hosts to build have to be looked up: where none is named.
pub fn needs_host_list(named: &Vec<String>) -> (ask: bool)
    ensures
        ask == (named.len() == 0),
{
    named.len() == 0
}

/// Lets a build with at least one host pass.
pub fn check_built(built: usize) -> (verdict: Result<(), String>)
    ensures
        if built > 0 {
            verdict is Ok
        } else {
            verdict matches Err(message) && message@ == NO_HOSTS@
        },
{
    if built > 0 {
        Ok(())
    } else {
        Err(String::from_str(NO_HOSTS))
    }
}

/// What is published: for each host that was built, the store path, with
/// the key and the address of the cache.
pub fn publish(cache: &str, public_key: String, built: Vec<(String, String)>) -> (request: Result<
    crate::routes::system::HostUpdateRequest,
    String,
>)
    ensures
        if built.len() > 0 {
            request matches Ok(update) && update.hosts == built && update.public_key == public_key
                && update.substitutor@ == substitutor_of(cache@)
        } else {
            request matches Err(message) && message@ == NO_HOSTS@
        },
{
    match check_built(built.len()) {
        Ok(()) => Ok(
            crate::routes::system::HostUpdateRequest {
                hosts: built,
                public_key,
                substitutor: substitutor(cache),
            },
        ),
        Err(message) => Err(message),
    }
}

/// The address of a cache, from its name.
pub open spec fn substitutor_of(cache: Seq<char>) -> Seq<char> {
    "https://"@ + cache + ".cachix.org"@
}

/// The address of the cache named `cache`, from which hosts fetch what was
/// pushed to it.
pub fn substitutor(cache: &str) -> (address: String)
    ensures
        address@ == substitutor_of(cache@),
{
    let mut address = String::from_str("https://");
    address.append(cache);
    address.append(".cachix.org");
    address
}

} // verus!
