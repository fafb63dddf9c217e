//! Names for generated code, made from the hash of its source.

use base64ct::Encoding;
use sha2::Digest;
use vstd::prelude::*;
use vstd::string::StringSliceAdditionalSpecFns;

verus! {

/// The SHA-256 digest of a byte string.
pub uninterp spec fn sha256_of(data: Seq<u8>) -> Seq<u8>;

/// The URL-safe Base64 text, without padding, of a byte string.
pub uninterp spec fn base64url_of(data: Seq<u8>) -> Seq<char>;

/// The SHA-256 digest of `data`.
///
/// Wraps `sha2::Sha256::digest`, which hashes the whole input with a fresh
/// hasher.  The digest depends on the bytes alone and is 32 bytes long.
#[verifier::external_body]
fn sha256_digest(data: &[u8]) -> (digest: Vec<u8>)
    ensures
        digest@ == sha256_of(data@),
        digest@.len() == 32,
{
    sha2::Sha256::digest(data).to_vec()
}

/// The URL-safe Base64 text of `data`, without padding.
///
/// Wraps `base64ct::Base64UrlUnpadded::encode_string`, which refuses inputs
/// whose length times four does not fit in a `usize`.  The text depends on
/// the bytes alone.
#[verifier::external_body]
fn base64url_unpadded(data: &[u8]) -> (text: String)
    requires
        data@.len() <= usize::MAX / 4,
    ensures
        text@ == base64url_of(data@),
{
    base64ct::Base64UrlUnpadded::encode_string(data)
}

/// The text with every `-` replaced by `m_`.
pub open spec fn without_dashes(text: Seq<char>) -> Seq<char>
    decreases text.len(),
{
    if text.len() == 0 {
        Seq::empty()
    } else if text.last() == '-' {
        without_dashes(text.drop_last()) + "m_"@
    } else {
        without_dashes(text.drop_last()).push(text.last())
    }
}

/// The name made from an encoded digest: the letter `A`, then the digest
/// with its dashes replaced, so that the name is an identifier.
pub open spec fn name_of_digest(encoded: Seq<char>) -> Seq<char> {
    "A"@ + without_dashes(encoded)
}

/// Makes a name from an encoded digest.
pub fn digest_name(encoded: &str) -> (name: String)
    ensures
        name@ == name_of_digest(encoded@),
{
    let mut name = String::from_str("A");
    let len = encoded.unicode_len();
    let mut i: usize = 0;
    assert(encoded@.take(0) =~= Seq::<char>::empty());
    while i < len
        invariant
            i <= len,
            len == encoded@.len(),
            name@ == "A"@ + without_dashes(encoded@.take(i as int)),
        decreases len - i,
    {
        let c = encoded.get_char(i);
        proof {
            let next = encoded@.take(i as int + 1);
            assert(next.drop_last() =~= encoded@.take(i as int));
            assert(next.last() == c);
            reveal_strlit("-");
        }
        if c == '-' {
            name.append("m_");
            assert(name@ =~= "A"@ + without_dashes(encoded@.take(i as int + 1)));
        } else {
            let piece = encoded.substring_char(i, i + 1);
            assert(piece@ =~= seq![c]);
            name.append(piece);
            assert(name@ =~= "A"@ + without_dashes(encoded@.take(i as int + 1)));
        }
        i += 1;
    }
    assert(encoded@.take(len as int) =~= encoded@);
    name
}

/// The name of the code whose source is `s`: made from the URL-safe Base64
/// text of the SHA-256 digest of the source.
pub fn sha256(s: &str) -> (name: String)
    ensures
        name@ == name_of_digest(base64url_of(sha256_of(s.spec_bytes()))),
{
    let digest = sha256_digest(s.as_bytes());
    let encoded = base64url_unpadded(digest.as_slice());
    digest_name(encoded.as_str())
}

} // verus!
