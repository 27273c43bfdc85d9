//! Fingerprints.
use crate::text;
use sha2::Digest;
use vstd::prelude::*;
use vstd::string::*;

verus! {

/// The SHA-256 of bytes, in lower-case hexadecimal.
pub uninterp spec fn sha256_text(bytes: Seq<u8>) -> Seq<char>;

/// `sha2::Sha256::digest`, its 32 bytes written with two hexadecimal digits each: the digest is
/// named, and has the form of one.
#[verifier::external_body]
pub(crate) fn sha256_hex(bytes: &Vec<u8>) -> (digest: String)
    ensures
        digest@ == sha256_text(bytes@),
        text::is_sha256(digest@),
{
    format!("{:x}", sha2::Sha256::digest(bytes))
}

/// The fingerprint of a text.
pub open spec fn text_digest(content: Seq<char>) -> Seq<char> {
    sha256_text(vstd::utf8::encode_utf8(content))
}

/// The fingerprint of a text.
pub fn digest_of(content: &str) -> (digest: String)
    ensures
        digest@ == text_digest(content@),
        text::is_sha256(digest@),
{
    let bytes = content.as_bytes_vec();
    sha256_hex(&bytes)
}

} // verus!
