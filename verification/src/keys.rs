//! X25519 keys of the age format, held in their textual encoding.
//!
//! The cryptography is age's. Verus sees an identity or a recipient as the
//! string that encodes it, and what age computes from such strings as the
//! uninterpreted functions declared here. Every function below that is marked
//! `external_body` is trusted: its contract is a statement about age that
//! nothing in this crate proves.

use crate::text::same;
use std::str::FromStr;
use vstd::prelude::*;

verus! {

/// age's error type for a failed decryption.
#[verifier::external_type_specification]
#[verifier::external_body]
pub struct ExDecryptError(age::DecryptError);

/// age's error type for a failed encryption.
#[verifier::external_type_specification]
#[verifier::external_body]
pub struct ExEncryptError(age::EncryptError);

/// Whether `age::x25519::Identity::from_str` accepts `encoded`.
pub uninterp spec fn is_identity(encoded: Seq<char>) -> bool;

/// What `age::x25519::Recipient::from_str` makes of `encoded`, printed again:
/// the recipient in lower case and without stray bits, and `None` where
/// `encoded` is no recipient.
pub uninterp spec fn recipient_in(encoded: Seq<char>) -> Option<Seq<char>>;

/// Whether `recipient` is one of the fourteen encodings of a point of small
/// order: the points 0, 1 and -1 and the two of order eight, each as it is
/// and with the bit set that X25519 ignores, and 0 and 1 written as p and
/// p + 1 as well. Whatever is multiplied with such a point gives zero, so
/// nothing can be encrypted to it: age stops the program instead.
pub open spec fn small_order(recipient: Seq<char>) -> bool {
    ||| recipient == "age1ahlllllllllllllllllllllllllllllllllllllllllllllllalsn46ayy"@
    ||| recipient == "age1ahlllllllllllllllllllllllllllllllllllllllllllllllllsh3g6la"@
    ||| recipient == "age1amlllllllllllllllllllllllllllllllllllllllllllllllalselrwrv"@
    ||| recipient == "age1amlllllllllllllllllllllllllllllllllllllllllllllllllsam3fc4"@
    ||| recipient == "age1anlllllllllllllllllllllllllllllllllllllllllllllllals4n2t7m"@
    ||| recipient == "age1anllllllllllllllllllllllllllllllllllllllllllllllllls3hcv9z"@
    ||| recipient == "age1qqqqqqqqqqqqqqqqqqqqqqqqqqqqqqqqqqqqqqqqqqqqqqqqqqqq5cu47z"@
    ||| recipient == "age1qqqqqqqqqqqqqqqqqqqqqqqqqqqqqqqqqqqqqqqqqqqqqqqqqzqqsuwj9m"@
    ||| recipient == "age1qyqqqqqqqqqqqqqqqqqqqqqqqqqqqqqqqqqqqqqqqqqqqqqqqqqqj7vrya"@
    ||| recipient == "age1qyqqqqqqqqqqqqqqqqqqqqqqqqqqqqqqqqqqqqqqqqqqqqqqqzqqk67yly"@
    ||| recipient == "age1t7wft09r2zxzfvwsk92eeql0tvzyghxytqwgapkcyf8dm5ylz8ts72fzt7"@
    ||| recipient == "age1t7wft09r2zxzfvwsk92eeql0tvzyghxytqwgapkcyf8dm5ylz9ts6wm9s8"@
    ||| recipient == "age1ur4h5lpmgxu2u9jku0a0r87ydtdqnr0tnsetrlvxvgz3vh6fhqqqzyt4v9"@
    ||| recipient == "age1ur4h5lpmgxu2u9jku0a0r87ydtdqnr0tnsetrlvxvgz3vh6fhzqqxqejhu"@
}

/// Whether `encoded` is a recipient that something can be encrypted to.
pub open spec fn is_recipient(encoded: Seq<char>) -> bool {
    recipient_in(encoded) matches Some(recipient) && !small_order(recipient)
}

/// The encoding of the recipient that `age::x25519::Identity::to_public`
/// derives from the identity encoded by `identity`.
pub uninterp spec fn public_key(identity: Seq<char>) -> Seq<char>;

/// What `age::decrypt` recovers from `ciphertext` with the identity encoded by
/// `identity`; `None` where it reports an error.
pub uninterp spec fn plaintext(identity: Seq<char>, ciphertext: Seq<u8>) -> Option<Seq<u8>>;

/// Every identity whose public key is `recipient` decrypts `ciphertext` to
/// `message`.
pub open spec fn sealed_for(recipient: Seq<char>, message: Seq<u8>, ciphertext: Seq<u8>) -> bool {
    forall|identity: Seq<char>|
        is_identity(identity) && #[trigger] public_key(identity) == recipient ==> plaintext(
            identity,
            ciphertext,
        ) == Some(message)
}

/// Trusted: `age::x25519::Identity::from_str` succeeds exactly on the strings
/// that `is_identity` names.
#[verifier::external_body]
fn age_identity_parses(encoded: &str) -> (ok: bool)
    ensures
        ok == is_identity(encoded@),
{
    age::x25519::Identity::from_str(encoded).is_ok()
}

/// Trusted: `recipient_in` names what `age::x25519::Recipient::from_str`
/// followed by the recipient's `Display` gives, and `None` where `from_str`
/// fails.
#[verifier::external_body]
fn age_recipient(encoded: &str) -> (recipient: Option<String>)
    ensures
        match recipient {
            Some(printed) => recipient_in(encoded@) == Some(printed@),
            None => recipient_in(encoded@) is None,
        },
{
    match age::x25519::Recipient::from_str(encoded) {
        Ok(recipient) => Some(recipient.to_string()),
        Err(_) => None,
    }
}

/// Trusted: `age::x25519::Identity::to_public`, printed with the recipient's
/// `Display`, yields the string that `public_key` names.
#[verifier::external_body]
fn age_to_public(identity: &str) -> (recipient: String)
    requires
        is_identity(identity@),
    ensures
        recipient@ == public_key(identity@),
{
    let key = age::x25519::Identity::from_str(identity).expect("age reads the identity");
    key.to_public().to_string()
}

/// Trusted: what `age::decrypt` returns depends on the identity and the
/// ciphertext alone; `plaintext` names the message where it returns one, and
/// is `None` where it returns an error.
#[verifier::external_body]
fn age_decrypt(identity: &str, ciphertext: &[u8]) -> (result: Result<Vec<u8>, age::DecryptError>)
    requires
        is_identity(identity@),
    ensures
        match result {
            Ok(message) => plaintext(identity@, ciphertext@) == Some(message@),
            Err(_) => plaintext(identity@, ciphertext@) is None,
        },
{
    let key = age::x25519::Identity::from_str(identity).expect("age reads the identity");
    age::decrypt(&key, ciphertext)
}

/// Trusted: what `age::encrypt` returns for a recipient, `age::decrypt`
/// decrypts to the same message with the identity that the recipient belongs
/// to. This is what age says of the two types: a file encrypted to a
/// recipient can be decrypted with the corresponding identity. The ciphertext
/// itself depends on fresh randomness and is not named. Recipients of small
/// order are left out: for them `wrap_file_key` of `age::x25519::Recipient`
/// gets the all-zero shared secret and panics.
#[verifier::external_body]
fn age_encrypt(recipient: &str, message: &[u8]) -> (result: Result<Vec<u8>, age::EncryptError>)
    requires
        is_recipient(recipient@),
    ensures
        result matches Ok(ciphertext) ==> sealed_for(recipient@, message@, ciphertext@),
{
    let key = age::x25519::Recipient::from_str(recipient).expect("age reads the recipient");
    age::encrypt(&key, message)
}

/// Whether `recipient` is one of the encodings of a point of small order.
pub fn is_small_order(recipient: &str) -> (small: bool)
    ensures
        small == small_order(recipient@),
{
    same(recipient, "age1ahlllllllllllllllllllllllllllllllllllllllllllllllalsn46ayy")
        || same(recipient, "age1ahlllllllllllllllllllllllllllllllllllllllllllllllllsh3g6la")
        || same(recipient, "age1amlllllllllllllllllllllllllllllllllllllllllllllllalselrwrv")
        || same(recipient, "age1amlllllllllllllllllllllllllllllllllllllllllllllllllsam3fc4")
        || same(recipient, "age1anlllllllllllllllllllllllllllllllllllllllllllllllals4n2t7m")
        || same(recipient, "age1anllllllllllllllllllllllllllllllllllllllllllllllllls3hcv9z")
        || same(recipient, "age1qqqqqqqqqqqqqqqqqqqqqqqqqqqqqqqqqqqqqqqqqqqqqqqqqqqq5cu47z")
        || same(recipient, "age1qqqqqqqqqqqqqqqqqqqqqqqqqqqqqqqqqqqqqqqqqqqqqqqqqzqqsuwj9m")
        || same(recipient, "age1qyqqqqqqqqqqqqqqqqqqqqqqqqqqqqqqqqqqqqqqqqqqqqqqqqqqj7vrya")
        || same(recipient, "age1qyqqqqqqqqqqqqqqqqqqqqqqqqqqqqqqqqqqqqqqqqqqqqqqqzqqk67yly")
        || same(recipient, "age1t7wft09r2zxzfvwsk92eeql0tvzyghxytqwgapkcyf8dm5ylz8ts72fzt7")
        || same(recipient, "age1t7wft09r2zxzfvwsk92eeql0tvzyghxytqwgapkcyf8dm5ylz9ts6wm9s8")
        || same(recipient, "age1ur4h5lpmgxu2u9jku0a0r87ydtdqnr0tnsetrlvxvgz3vh6fhqqqzyt4v9")
        || same(recipient, "age1ur4h5lpmgxu2u9jku0a0r87ydtdqnr0tnsetrlvxvgz3vh6fhzqqxqejhu")
}

/// A secret key: decrypts what was encrypted to its public key.
pub struct Identity {
    encoded: String,
}

/// A public key: what a message is encrypted to.
pub struct Recipient {
    encoded: String,
}

impl View for Identity {
    type V = Seq<char>;

    closed spec fn view(&self) -> Seq<char> {
        self.encoded@
    }
}

impl View for Recipient {
    type V = Seq<char>;

    closed spec fn view(&self) -> Seq<char> {
        self.encoded@
    }
}

impl Identity {
    #[verifier::type_invariant]
    spec fn well_formed(self) -> bool {
        is_identity(self.encoded@) && is_recipient(public_key(self.encoded@))
    }

    /// Reads an identity from its encoding; `None` where age rejects it, or
    /// where nothing could be encrypted to its public key.
    pub fn parse(encoded: &str) -> (parsed: Option<Identity>)
        ensures
            parsed is Some <==> is_identity(encoded@) && is_recipient(public_key(encoded@)),
            parsed matches Some(identity) ==> identity@ == encoded@,
    {
        if !age_identity_parses(encoded) {
            return None;
        }
        let public = age_to_public(encoded);
        match Recipient::parse(public.as_str()) {
            Some(_) => Some(Identity { encoded: encoded.to_owned() }),
            None => None,
        }
    }

    /// The recipient that belongs to this identity.
    pub fn to_public(&self) -> (recipient: Recipient)
        ensures
            recipient@ == public_key(self@),
    {
        proof {
            use_type_invariant(self);
        }
        Recipient { encoded: age_to_public(self.encoded.as_str()) }
    }

    /// Decrypts `ciphertext` with this identity.
    pub fn decrypt(&self, ciphertext: &[u8]) -> (result: Result<Vec<u8>, age::DecryptError>)
        ensures
            match result {
                Ok(message) => plaintext(self@, ciphertext@) == Some(message@),
                Err(_) => plaintext(self@, ciphertext@) is None,
            },
    {
        proof {
            use_type_invariant(self);
        }
        age_decrypt(self.encoded.as_str(), ciphertext)
    }

    /// The textual encoding, which `parse` reads back.
    pub fn as_str(&self) -> (encoded: &str)
        ensures
            encoded@ == self@,
            is_identity(self@),
            is_recipient(public_key(self@)),
    {
        proof {
            use_type_invariant(self);
        }
        self.encoded.as_str()
    }
}

impl Recipient {
    #[verifier::type_invariant]
    spec fn well_formed(self) -> bool {
        is_recipient(self.encoded@)
    }

    /// Reads a recipient from its encoding; `None` where age rejects it, and
    /// where its key is of small order.
    pub fn parse(encoded: &str) -> (parsed: Option<Recipient>)
        ensures
            parsed is Some <==> is_recipient(encoded@),
            parsed matches Some(recipient) ==> recipient@ == encoded@,
    {
        let printed = match age_recipient(encoded) {
            Some(printed) => printed,
            None => {
                return None;
            },
        };
        if is_small_order(printed.as_str()) {
            None
        } else {
            Some(Recipient { encoded: encoded.to_owned() })
        }
    }

    /// Encrypts `message` to this recipient.
    pub fn encrypt(&self, message: &[u8]) -> (result: Result<Vec<u8>, age::EncryptError>)
        ensures
            result matches Ok(ciphertext) ==> sealed_for(self@, message@, ciphertext@),
    {
        proof {
            use_type_invariant(self);
        }
        age_encrypt(self.encoded.as_str(), message)
    }

    /// The textual encoding, which `parse` reads back.
    pub fn as_str(&self) -> (encoded: &str)
        ensures
            encoded@ == self@,
            is_recipient(self@),
    {
        proof {
            use_type_invariant(self);
        }
        self.encoded.as_str()
    }
}

} // verus!
