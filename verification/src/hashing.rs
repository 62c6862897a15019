//! The password hasher: a deterministic one-way digest over the cleartext,
//! rendered as an upper-case hexadecimal string. The digest is used both when
//! a credential record is created and when a login attempt is verified.
//!
//! This is an unsalted, unkeyed hash; that is the documented behaviour of
//! this library, not a secure scheme for production use.

use vstd::prelude::*;

verus! {

/// The digest string produced by hashing a cleartext password: the SHA-256
/// digest of the UTF-8 bytes of the input, written as upper-case hexadecimal.
/// The digest is a function of the input characters alone, so repeated calls
/// on equal inputs yield equal digests.
pub uninterp spec fn sha256_hex_of(s: Seq<char>) -> Seq<char>;

/// A digit of an upper-case hexadecimal rendering.
pub open spec fn upper_hex_digit(c: char) -> bool {
    ('0' <= c && c <= '9') || ('A' <= c && c <= 'F')
}

/// Hashing is deterministic: equal cleartexts always carry equal digests, in
/// this call and in every later one. That unequal cleartexts carry unequal
/// digests holds only with overwhelming probability, and is not stated.
pub proof fn lemma_hash_deterministic(a: Seq<char>, b: Seq<char>)
    requires
        a == b,
    ensures
        sha256_hex_of(a) == sha256_hex_of(b),
{
}

/// Relies on `sha2::Sha256` (update, finalize) and the `UpperHex` rendering
/// of its output: the digest depends on the input bytes alone, and is the
/// 32-byte digest written as two upper-case hexadecimal digits per byte —
/// 64 hex characters, never the cleartext.
#[verifier::external_body]
pub fn hash_password(password: &str) -> (r: String)
    ensures
        r@ == sha256_hex_of(password@),
        r@.len() == 64,
        forall|i: int| 0 <= i < r@.len() ==> upper_hex_digit(#[trigger] r@[i]),
{
    let mut hasher = <sha2::Sha256 as sha2::Digest>::new();
    sha2::Digest::update(&mut hasher, password);
    format!("{:X}", sha2::Digest::finalize(hasher))
}

} // verus!
