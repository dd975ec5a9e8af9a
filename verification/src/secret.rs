//! What a version says about a secret it needs.

use vstd::prelude::*;

verus! {

/// How one secret is to be installed on a host. A version lists these in its
/// manifest, each under the name by which the coordinator knows the secret.
#[derive(Debug, Clone, PartialEq, Eq)]
pub struct Secret {
    /// The name of the file, not of the secret: where the secret is put inside
    /// a generation.
    pub name: String,
    /// Path where the decrypted secret is installed.
    pub path: String,
    /// Permissions of the decrypted secret, in octal.
    pub mode: String,
    /// User of the decrypted secret.
    pub owner: String,
    /// Group of the decrypted secret.
    pub group: String,
    /// Whether the secret is linked to its destination rather than copied.
    pub symlink: bool,
}

/// The file that holds the secrets of a version, at the root of its store
/// path.
pub const SECRETS_FILE: &'static str = "yeet-secrets.json";

} // verus!
