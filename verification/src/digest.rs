use vstd::prelude::*;
use crate::xml::bytes_opt;

verus! {

/// The MD5 digest of `data`, as OpenSSL computes it.
pub uninterp spec fn md5_digest(data: Seq<u8>) -> Seq<u8>;

/// Hashes `data` with `openssl::hash::hash(MessageDigest::md5(), data)`.
/// Claimed: when OpenSSL succeeds, the result is `md5_digest(data)`, 16 bytes
/// long. OpenSSL may refuse (a provider without MD5, an internal error); then
/// the result is `None`, and nothing more is said of when that happens.
#[verifier::external_body]
pub(crate) fn md5(data: &[u8]) -> (r: Option<Vec<u8>>)
    ensures
        r is Some ==> bytes_opt(r) == Some(md5_digest(data@)),
        r is Some ==> md5_digest(data@).len() == 16,
{
    match openssl::hash::hash(openssl::hash::MessageDigest::md5(), data) {
        Ok(d) => Some(d.to_vec()),
        Err(_) => None,
    }
}

/// The lowercase hexadecimal digit for `d < 16`.
pub open spec fn hex_digit(d: nat) -> char {
    if d < 10 {
        (48 + d) as char
    } else {
        (87 + d) as char
    }
}

/// Lowercase hexadecimal: two digits per byte, the high half first.
#[verifier::opaque]
pub open spec fn hex_lower(data: Seq<u8>) -> Seq<char>
    decreases data.len(),
{
    if data.len() == 0 {
        Seq::empty()
    } else {
        hex_lower(data.drop_last()) + seq![
            hex_digit((data.last() / 16) as nat),
            hex_digit((data.last() % 16) as nat),
        ]
    }
}

/// Encodes bytes with `hex::encode`. Claimed, as the `hex` source shows (the
/// table `0123456789abcdef`, high half first): the result is `hex_lower(data)`.
#[verifier::external_body]
pub(crate) fn hex_encode(data: &[u8]) -> (s: String)
    ensures
        s@ == hex_lower(data@),
{
    hex::encode(data)
}

/// Lowercase hexadecimal has two characters per byte: the `i`-th byte's high
/// half at `2 * i` and its low half at `2 * i + 1`, each one of `0-9a-f`.
pub proof fn law_hex_lower_digits(data: Seq<u8>)
    ensures
        hex_lower(data).len() == 2 * data.len(),
        forall|i: int|
            0 <= i < data.len() ==> hex_lower(data)[2 * i] == hex_digit((#[trigger] data[i] / 16) as nat)
                && hex_lower(data)[2 * i + 1] == hex_digit((data[i] % 16) as nat),
        forall|j: int|
            0 <= j < hex_lower(data).len() ==> ('0' <= #[trigger] hex_lower(data)[j] <= '9' || 'a'
                <= hex_lower(data)[j] <= 'f'),
    decreases data.len(),
{
    reveal(hex_lower);
    if data.len() > 0 {
        let d = data.drop_last();
        law_hex_lower_digits(d);
        let h = hex_lower(d);
        let last = data.last();
        assert(hex_lower(data) == h + seq![
            hex_digit((last / 16) as nat),
            hex_digit((last % 16) as nat),
        ]);
        assert forall|i: int| 0 <= i < data.len() implies hex_lower(data)[2 * i] == hex_digit(
            (#[trigger] data[i] / 16) as nat,
        ) && hex_lower(data)[2 * i + 1] == hex_digit((data[i] % 16) as nat) by {
            if i < d.len() {
                assert(data[i] == d[i]);
            }
        }
        assert forall|j: int| 0 <= j < hex_lower(data).len() implies ('0' <= #[trigger] hex_lower(
            data,
        )[j] <= '9' || 'a' <= hex_lower(data)[j] <= 'f') by {
            if j < h.len() {
                assert(hex_lower(data)[j] == h[j]);
            }
        }
    }
}

} // verus!
