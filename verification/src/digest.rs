//! Hash digests as text. Both digests are computed by outside crates; the
//! contracts name their results.

use vstd::prelude::*;

verus! {

/// The MD5 digest of the UTF-8 bytes of `text`, as 32 lowercase
/// hexadecimal digits.
pub uninterp spec fn md5_hex(text: Seq<char>) -> Seq<char>;

/// The SHA-256 digest of `bytes`, as 64 uppercase hexadecimal digits.
pub uninterp spec fn sha256_hex(bytes: Seq<u8>) -> Seq<char>;

/// Whether a character is a decimal digit or one of the letters `a` to `f`.
pub open spec fn is_lower_hex(c: char) -> bool {
    ('0' as int <= c as int && c as int <= '9' as int) || ('a' as int <= c as int && c as int <= 'f' as int)
}

/// `md5::compute` of the `md5` crate, formatted in lowercase hexadecimal:
/// the result is the MD5 digest of the text, each of its 16 bytes written as
/// two lowercase hexadecimal digits.
#[verifier::external_body]
pub(crate) fn md5_hex_digest(text: &str) -> (r: String)
    ensures
        r@ == md5_hex(text@),
        r@.len() == 32,
        forall|i: int| 0 <= i < r@.len() ==> is_lower_hex(#[trigger] r@[i]),
{
    format!("{:x}", md5::compute(text))
}

/// `Sha256::digest` of the `sha2` crate, formatted in uppercase
/// hexadecimal: the result is the SHA-256 digest of the bytes.
#[verifier::external_body]
pub(crate) fn sha256_hex_digest(bytes: &[u8]) -> (r: String)
    ensures
        r@ == sha256_hex(bytes@),
{
    format!("{:X}", <sha2::Sha256 as sha2::Digest>::digest(bytes))
}

} // verus!
