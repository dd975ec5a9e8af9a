//! Whether a signed request is let in.
//!
//! Every request carries a signature over its method, its path, a digest of
//! its body and the time it was made, together with the key that made the
//! signature. The cryptography is not done here: what is handed in is what
//! the request carried and what checking it gave. Decided here is the order
//! of the checks and which failure is reported.

use crate::key::PublicKey;
use crate::text::texts;
use vstd::prelude::*;
use vstd::string::StringExecFns;

verus! {

/// Why a request is not let in. Each of these is reported as status 401.
#[derive(Debug, Clone, Copy, PartialEq, Eq, Structural)]
pub enum SignatureError {
    /// The request lacks the signature, its parameters or the digest of the
    /// body.
    MissingHeaders,
    /// The digest that the request carries is not that of its body.
    BodyDigestMismatch,
    /// The signature was made too long ago, or too far in the future.
    StaleTimestamp,
    /// The signature is not that of the key over what the request says.
    BadSignature,
}

/// The status that reports a request that is not let in.
pub const UNAUTHORIZED: u16 = 401;

impl SignatureError {
    /// The HTTP status that reports this error.
    pub fn status(&self) -> (code: u16)
        ensures
            code == 401,
    {
        UNAUTHORIZED
    }
}

/// The header that carries the digest of the body.
pub const DIGEST_HEADER: &'static str = "content-digest";

/// What a signature covers besides the time it was made: the method of the
/// request, its path, and the digest of its body.
pub fn covered_components() -> (covered: Vec<String>)
    ensures
        texts(covered@) == seq!["@method"@, "@path"@, DIGEST_HEADER@],
{
    let mut covered: Vec<String> = Vec::new();
    covered.push(String::from_str("@method"));
    covered.push(String::from_str("@path"));
    covered.push(String::from_str(DIGEST_HEADER));
    assert(texts(covered@) =~= seq!["@method"@, "@path"@, DIGEST_HEADER@]);
    covered
}

/// By how many seconds the clocks of signer and verifier may differ.
pub const TOLERANCE: u64 = 300;

/// What a request carried to prove where it comes from.
#[derive(Debug)]
pub struct Presented {
    /// The digest of the body that the request names, if it names one.
    pub content_digest: Option<Vec<u8>>,
    /// When the signature says it was made, in seconds, if there is a
    /// signature with its parameters.
    pub created: Option<u64>,
    /// The key that the signature names, if there is a signature.
    pub key: Option<PublicKey>,
    /// Whether the signature is that of the key over the method, the path,
    /// the digest and the time of the request.
    pub signature_holds: bool,
}

/// Whether a signature made at `created` is fresh at `now`.
pub open spec fn fresh(created: u64, now: u64) -> bool {
    created <= now + TOLERANCE && now <= created + TOLERANCE
}

/// Who a request comes from, or why it is not let in. The digest is looked
/// at before anything that was signed is believed.
pub open spec fn verdict(presented: Presented, body_digest: Seq<u8>, now: u64) -> Result<
    PublicKey,
    SignatureError,
> {
    match (presented.content_digest, presented.created, presented.key) {
        (Some(digest), Some(created), Some(key)) => if digest@ != body_digest {
            Err(SignatureError::BodyDigestMismatch)
        } else if !fresh(created, now) {
            Err(SignatureError::StaleTimestamp)
        } else if !presented.signature_holds {
            Err(SignatureError::BadSignature)
        } else {
            Ok(key)
        },
        _ => Err(SignatureError::MissingHeaders),
    }
}

/// Whether a signature made at `created` is fresh at `now`.
pub fn is_fresh(created: u64, now: u64) -> (yes: bool)
    ensures
        yes == fresh(created, now),
{
    let early = if now > u64::MAX - TOLERANCE {
        true
    } else {
        created <= now + TOLERANCE
    };
    let late = if created > u64::MAX - TOLERANCE {
        true
    } else {
        now <= created + TOLERANCE
    };
    early && late
}

/// Whether two runs of bytes are the same.
pub fn same_bytes(left: &Vec<u8>, right: &[u8]) -> (same: bool)
    ensures
        same == (left@ == right@),
{
    if left.len() != right.len() {
        return false;
    }
    let mut i: usize = 0;
    while i < left.len()
        invariant
            i <= left.len(),
            left.len() == right.len(),
            forall|k: int| 0 <= k < i ==> left[k] == right[k],
        decreases left.len() - i,
    {
        if left[i] != right[i] {
            return false;
        }
        i += 1;
    }
    assert(left@ =~= right@);
    true
}

/// Says who a request comes from, or why it is not let in: `body_digest` is
/// the digest of the body as it arrived, and `now` the time in seconds.
pub fn verify(presented: &Presented, body_digest: &[u8], now: u64) -> (result: Result<
    PublicKey,
    SignatureError,
>)
    ensures
        result == verdict(*presented, body_digest@, now),
{
    let digest = match &presented.content_digest {
        Some(digest) => digest,
        None => {
            return Err(SignatureError::MissingHeaders);
        },
    };
    let created = match presented.created {
        Some(created) => created,
        None => {
            return Err(SignatureError::MissingHeaders);
        },
    };
    let key = match presented.key {
        Some(key) => key,
        None => {
            return Err(SignatureError::MissingHeaders);
        },
    };
    if !same_bytes(digest, body_digest) {
        Err(SignatureError::BodyDigestMismatch)
    } else if !is_fresh(created, now) {
        Err(SignatureError::StaleTimestamp)
    } else if !presented.signature_holds {
        Err(SignatureError::BadSignature)
    } else {
        Ok(key)
    }
}

/// A request whose signature holds, whose digest is that of its body and
/// which was signed at the time it is looked at comes from the key that it
/// names.
pub proof fn lemma_good_request_is_let_in(presented: Presented, body_digest: Seq<u8>, now: u64)
    requires
        presented.content_digest matches Some(digest) && digest@ == body_digest,
        presented.created == Some(now),
        presented.key is Some,
        presented.signature_holds,
    ensures
        verdict(presented, body_digest, now) == Ok::<PublicKey, SignatureError>(
            presented.key->0,
        ),
{
}

} // verus!
