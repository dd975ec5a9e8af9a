//! How the coordinator is told where to listen and where to keep its state.

use crate::persist::STATE_FILE;
use vstd::prelude::*;
use vstd::string::StringExecFns;

verus! {

/// The variable that names the port.
pub const PORT_VARIABLE: &'static str = "YEET_PORT";

/// The variable that names the host.
pub const HOST_VARIABLE: &'static str = "YEET_HOST";

/// The variable that names the file that holds the state.
pub const STATE_VARIABLE: &'static str = "YEET_STATE";

/// The variable that names the file with the key of the first administrator.
pub const INIT_KEY_VARIABLE: &'static str = "YEET_INIT_KEY";

/// The port where none is named.
pub const PORT: &'static str = "4337";

/// The host where none is named.
pub const HOST: &'static str = "localhost";

/// `value`, or `fallback` where there is none.
pub fn or_default(value: Option<String>, fallback: &str) -> (chosen: String)
    ensures
        chosen@ == match value {
            Some(given) => given@,
            None => fallback@,
        },
{
    match value {
        Some(given) => given,
        None => String::from_str(fallback),
    }
}

/// The address to listen on: the host and the port, each as named or as it
/// is where none is named, with a colon between.
pub open spec fn listen_address_of(host: Option<String>, port: Option<String>) -> Seq<char> {
    (match host {
        Some(given) => given@,
        None => HOST@,
    }) + ":"@ + (match port {
        Some(given) => given@,
        None => PORT@,
    })
}

/// The address to listen on.
pub fn listen_address(host: Option<String>, port: Option<String>) -> (address: String)
    ensures
        address@ == listen_address_of(host, port),
{
    let mut address = or_default(host, HOST);
    address.append(":");
    address.append(or_default(port, PORT).as_str());
    address
}

/// The file that holds the state.
pub fn state_file(named: Option<String>) -> (file: String)
    ensures
        file@ == match named {
            Some(given) => given@,
            None => STATE_FILE@,
        },
{
    or_default(named, STATE_FILE)
}

} // verus!
