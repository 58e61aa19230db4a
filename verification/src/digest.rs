//! Content digests.

use crate::text;
use crate::text::hex_digest;
use sha2::{Digest, Sha256};
use vstd::prelude::*;

verus! {

/// The SHA-256 digest of `data`.
pub uninterp spec fn sha256_of(data: Seq<u8>) -> Seq<u8>;

/// Computes a digest with `sha2::Sha256::digest`. The claims: the digest depends on the data alone
/// and has 32 bytes.
#[verifier::external_body]
fn sha256(data: &[u8]) -> (digest: [u8; 32])
    ensures
        digest@ == sha256_of(data@),
        digest@.len() == 32,
{
    Sha256::digest(data).into()
}

/// The SHA-256 digest of `data` in hexadecimal.
pub fn sha256_hex(data: &[u8]) -> (text: String)
    ensures
        text@ == text::hex_digest_text(sha256_of(data@)),
{
    let digest = sha256(data);
    hex_digest(&digest)
}

/// Hexadecimal text has two characters for each byte.
proof fn lemma_hex_length(data: Seq<u8>)
    ensures
        text::hex_digest_text(data).len() == data.len() * 2,
    decreases data.len(),
{
    if data.len() > 0 {
        lemma_hex_length(data.drop_last());
    }
}

/// Hexadecimal text tells which bytes it renders.
pub proof fn law_hex_digest_is_injective(a: Seq<u8>, b: Seq<u8>)
    requires
        text::hex_digest_text(a) == text::hex_digest_text(b),
    ensures
        a == b,
    decreases a.len(),
{
    lemma_hex_length(a);
    lemma_hex_length(b);
    if a.len() > 0 {
        let (s, t) = (text::hex_digest_text(a), text::hex_digest_text(b));
        let (front_a, front_b) = (
            text::hex_digest_text(a.drop_last()),
            text::hex_digest_text(b.drop_last()),
        );
        lemma_hex_length(a.drop_last());
        lemma_hex_length(b.drop_last());
        assert(s.take(front_a.len() as int) =~= front_a);
        assert(t.take(front_b.len() as int) =~= front_b);
        law_hex_digest_is_injective(a.drop_last(), b.drop_last());
        let n = front_a.len() as int;
        assert(s[n] == text::lower_digit((a.last() / 16) as nat));
        assert(t[n] == text::lower_digit((b.last() / 16) as nat));
        assert(s[n + 1] == text::lower_digit((a.last() % 16) as nat));
        assert(t[n + 1] == text::lower_digit((b.last() % 16) as nat));
        assert(a =~= a.drop_last().push(a.last()));
        assert(b =~= b.drop_last().push(b.last()));
    } else {
        assert(a =~= b);
    }
}

} // verus!
