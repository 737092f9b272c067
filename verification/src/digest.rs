//! Digests that stand for longer texts.
use sha2::{Digest, Sha256};
use crate::text::{chars_of, slice_text};
use vstd::prelude::*;
use vstd::utf8::encode_utf8;

verus! {

/// The SHA-256 digest of some bytes, in lower-case hexadecimal.
pub uninterp spec fn sha256_hex(bytes: Seq<u8>) -> Seq<char>;

/// Whether a character is a lower-case hexadecimal digit.
pub open spec fn is_hex(character: char) -> bool {
    '0' <= character <= '9' || 'a' <= character <= 'f'
}

/// `sha2::Sha256`, fed with all the bytes and finalized, gives a digest of 32
/// bytes, which depends on the bytes alone. Formatted with `{:x}`, a digest
/// shows two lower-case hexadecimal digits for each byte. Which digest belongs
/// to which bytes is not stated.
#[verifier::external_body]
pub(crate) fn sha256_text(bytes: &[u8]) -> (result: String)
    ensures
        result@ == sha256_hex(bytes@),
        result@.len() == 64,
        forall|index: int| 0 <= index < 64 ==> is_hex(#[trigger] result@[index]),
{
    let mut hasher = Sha256::new();
    hasher.update(bytes);
    format!("{:x}", hasher.finalize())
}

/// The first twelve digits of the digest of a text.
pub open spec fn short_digest(text: Seq<char>) -> Seq<char> {
    sha256_hex(encode_utf8(text)).take(12)
}

/// The first twelve digits of the digest of a text.
pub fn short_digest_text(text: &str) -> (result: String)
    ensures
        result@ == short_digest(text@),
        result@.len() == 12,
        forall|index: int| 0 <= index < 12 ==> is_hex(#[trigger] result@[index]),
{
    let digest = sha256_text(text.as_bytes());
    let characters = chars_of(digest.as_str());
    let result = slice_text(characters.as_slice(), 0, 12);
    proof {
        assert(digest@.subrange(0, 12) =~= digest@.take(12));
        assert forall|index: int| 0 <= index < 12 implies is_hex(#[trigger] result@[index]) by {
            assert(result@[index] == digest@[index]);
        }
    }
    result
}

} // verus!
