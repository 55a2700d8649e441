//! Content hashing: sha256 (from `sha2`) rendered as lowercase hex (from
//! `hex`).

use vstd::prelude::*;
use sha2::Digest;

verus! {

/// The sha256 digest of `data`, as `sha2` computes it.
pub uninterp spec fn sha256_spec(data: Seq<u8>) -> Seq<u8>;

/// sha2's `Sha256::digest`: the digest of `data` is a function of `data`
/// alone and is 32 bytes long. Nothing else about the hash function is
/// stated (its collision resistance in particular is not).
#[verifier::external_body]
pub(crate) fn sha256_digest(data: &[u8]) -> (r: Vec<u8>)
    ensures
        r@ == sha256_spec(data@),
        r@.len() == 32,
{
    sha2::Sha256::digest(data).to_vec()
}

/// Lowercase hex digit of `n` (0 to 15).
pub open spec fn hex_digit_lower(n: int) -> char {
    if n < 10 {
        crate::text::digit_spec(n)
    } else if n == 10 {
        'a'
    } else if n == 11 {
        'b'
    } else if n == 12 {
        'c'
    } else if n == 13 {
        'd'
    } else if n == 14 {
        'e'
    } else {
        'f'
    }
}

/// Two lowercase hex digits per byte, high nibble first.
pub open spec fn hex_lower(data: Seq<u8>) -> Seq<char>
    decreases data.len(),
{
    if data.len() == 0 {
        Seq::empty()
    } else {
        seq![hex_digit_lower((data[0] / 16) as int), hex_digit_lower((data[0] % 16) as int)] + hex_lower(data.drop_first())
    }
}

/// `hex::encode`: each byte as two lowercase hex digits, high nibble first
/// (the crate's documented behaviour).
#[verifier::external_body]
pub(crate) fn hex_encode(data: &[u8]) -> (r: String)
    ensures
        r@ == hex_lower(data@),
{
    hex::encode(data)
}

/// A lowercase hex digit.
pub open spec fn is_lower_hex_digit(c: char) -> bool {
    (48 <= (c as int) <= 57) || (97 <= (c as int) <= 102)
}

/// `sha256:` followed by the 64 lowercase hex digits of a 32-byte digest.
pub open spec fn is_sha256_tag(s: Seq<char>) -> bool {
    &&& s.len() == 71
    &&& s.take(7) == "sha256:"@
    &&& forall|i: int| 7 <= i < 71 ==> is_lower_hex_digit(#[trigger] s[i])
}

/// Hex rendering doubles the length and uses lowercase hex digits only.
pub proof fn lemma_hex_lower_form(data: Seq<u8>)
    ensures
        hex_lower(data).len() == 2 * data.len(),
        forall|i: int| 0 <= i < hex_lower(data).len() ==> is_lower_hex_digit(#[trigger] hex_lower(data)[i]),
    decreases data.len(),
{
    if data.len() > 0 {
        lemma_hex_lower_form(data.drop_first());
        let h = seq![hex_digit_lower((data[0] / 16) as int), hex_digit_lower((data[0] % 16) as int)];
        assert(is_lower_hex_digit(h[0]) && is_lower_hex_digit(h[1]));
        let t = hex_lower(data.drop_first());
        assert forall|i: int| 0 <= i < hex_lower(data).len() implies is_lower_hex_digit(#[trigger] hex_lower(data)[i]) by {
            if i >= 2 {
                assert(hex_lower(data)[i] == t[i - 2]);
            }
        }
    }
}

/// `sha256:` followed by the hex of a 32-byte digest is a sha256 tag.
pub proof fn lemma_sha256_tag(digest: Seq<u8>)
    requires
        digest.len() == 32,
    ensures
        is_sha256_tag("sha256:"@ + hex_lower(digest)),
{
    reveal_strlit("sha256:");
    lemma_hex_lower_form(digest);
    let s = "sha256:"@ + hex_lower(digest);
    assert(s.take(7) =~= "sha256:"@);
    assert forall|i: int| 7 <= i < 71 implies is_lower_hex_digit(#[trigger] s[i]) by {
        assert(s[i] == hex_lower(digest)[i - 7]);
    }
}

} // verus!
