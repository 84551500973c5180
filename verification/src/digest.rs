//! Content identities computed by outside crates.
use crate::artifact::identity_follows_the_digest;
use crate::text::hexadecimal;
use sha2::Digest;
use vstd::prelude::*;

verus! {

/// The SHA-256 digest of a byte sequence.
pub uninterp spec fn sha256_digest(bytes: Seq<u8>) -> Seq<u8>;

/// The canonical form of a JSON document, as `uor_addr::json::canonicalize`
/// emits it: members sorted, strings normalized, no space between tokens.
/// There is none where the bytes are no valid JSON or nest too deeply.
pub uninterp spec fn canonical_json(bytes: Seq<u8>) -> Option<Seq<u8>>;

/// The text form of a digest.
pub open spec fn identity_text(digest: Seq<u8>) -> Seq<char> {
    "sha256:"@ + hexadecimal(digest)
}

/// The address of a JSON document is the text form of the digest of its
/// canonical form.
pub open spec fn json_address(bytes: Seq<u8>) -> Result<Seq<char>, Seq<char>> {
    match canonical_json(bytes) {
        None => Err("InvalidJson"@),
        Some(canonical) => Ok(identity_text(sha256_digest(canonical))),
    }
}

/// Documents with the same canonical form have the same address, and they do
/// have one.
pub proof fn equivalent_documents_share_an_address(first: Seq<u8>, second: Seq<u8>)
    requires
        canonical_json(first) == canonical_json(second),
    ensures
        json_address(first) == json_address(second),
        canonical_json(first) is Some ==> json_address(first) is Ok,
{
}

/// Documents with different addresses have different canonical forms, and
/// different canonical forms share an address only where their digests
/// collide.
pub proof fn addresses_tell_canonical_forms_apart(first: Seq<u8>, second: Seq<u8>)
    requires
        canonical_json(first) is Some,
        canonical_json(second) is Some,
    ensures
        json_address(first) == json_address(second) <==> sha256_digest(
            canonical_json(first)->Some_0,
        ) == sha256_digest(canonical_json(second)->Some_0),
{
    identity_follows_the_digest(
        sha256_digest(canonical_json(first)->Some_0),
        sha256_digest(canonical_json(second)->Some_0),
    );
}

/// `sha2::Sha256` fed with all of `bytes` in one update. The contract names
/// the digest as a function of the bytes and states that it has 32 bytes; the
/// compression function itself is not described.
#[verifier::external_body]
pub(crate) fn sha256(bytes: &[u8]) -> (digest: Vec<u8>)
    ensures
        digest@ == sha256_digest(bytes@),
        digest@.len() == 32,
{
    let mut state = sha2::Sha256::new();
    state.update(bytes);
    state.finalize().to_vec()
}

/// `uor_addr::json::address` on `bytes`. It canonicalizes the bytes, hashes the
/// canonical form with SHA-256 and renders the digest as a `sha256:` label of
/// lower-case hexadecimal digits, so the contract states the label over the
/// canonical form: bytes without one fail as `InvalidJson`, and any others
/// have an address. Which documents share a canonical form, and the
/// compression function, are not described.
#[verifier::external_body]
pub(crate) fn address_of_json(bytes: &[u8]) -> (outcome: Result<String, String>)
    ensures
        match canonical_json(bytes@) {
            None => outcome matches Err(failure) && failure@ == "InvalidJson"@,
            Some(canonical) => outcome matches Ok(label) && label@ == identity_text(
                sha256_digest(canonical),
            ) && label@.len() == 71,
        },
{
    match uor_addr::json::address(bytes) {
        Ok(outcome) => Ok(outcome.address.to_string()),
        Err(failure) => Err(format!("{failure:?}")),
    }
}

} // verus!
