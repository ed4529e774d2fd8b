//! Content digests: SHA-256, rendered as lowercase hexadecimal.

use sha2::Digest;
use vstd::prelude::*;

verus! {

/// The SHA-256 digest of a byte sequence: 32 bytes that depend on the
/// input alone.
pub uninterp spec fn sha256_of(bytes: Seq<u8>) -> Seq<u8>;

/// Relies on sha2's Sha256 hasher: the digest is 32 bytes long and is a
/// function of the input bytes alone.
#[verifier::external_body]
fn sha256(bytes: &Vec<u8>) -> (r: Vec<u8>)
    ensures
        r@ == sha256_of(bytes@),
        r@.len() == 32,
{
    sha2::Sha256::digest(bytes.as_slice()).to_vec()
}

/// The lowercase hexadecimal digit with value `n`.
pub open spec fn hex_digit(n: int) -> char {
    "0123456789abcdef"@[n]
}

/// The two hexadecimal digits of one byte, high digit first.
pub open spec fn hex_of_byte(b: u8) -> Seq<char> {
    seq![hex_digit(b as int / 16), hex_digit(b as int % 16)]
}

/// The hexadecimal rendering of a byte sequence.
pub open spec fn hex_of_bytes(bytes: Seq<u8>) -> Seq<char>
    decreases bytes.len(),
{
    if bytes.len() == 0 {
        Seq::empty()
    } else {
        hex_of_bytes(bytes.drop_last()) + hex_of_byte(bytes.last())
    }
}

/// A hexadecimal rendering is twice as long as the bytes it renders.
pub proof fn lemma_hex_len(bytes: Seq<u8>)
    ensures
        hex_of_bytes(bytes).len() == 2 * bytes.len(),
    decreases bytes.len(),
{
    if bytes.len() > 0 {
        lemma_hex_len(bytes.drop_last());
    }
}

/// Renders bytes as lowercase hexadecimal.
pub fn to_hex(bytes: &Vec<u8>) -> (r: String)
    ensures
        r@ == hex_of_bytes(bytes@),
{
    let digits = "0123456789abcdef";
    proof {
        reveal_strlit("0123456789abcdef");
        assert(digits.is_ascii());
    }
    let mut out = String::new();
    let mut i: usize = 0;
    while i < bytes.len()
        invariant
            0 <= i <= bytes@.len(),
            digits@ =~= "0123456789abcdef"@,
            digits.is_ascii(),
            digits@.len() == 16,
            out@ == hex_of_bytes(bytes@.take(i as int)),
        decreases bytes@.len() - i,
    {
        let b = bytes[i];
        let hi = (b / 16) as usize;
        let lo = (b % 16) as usize;
        let dh = digits.substring_ascii(hi, hi + 1);
        let dl = digits.substring_ascii(lo, lo + 1);
        out.append(dh);
        out.append(dl);
        proof {
            assert(dh@ =~= seq![hex_digit(b as int / 16)]);
            assert(dl@ =~= seq![hex_digit(b as int % 16)]);
            assert(bytes@.take(i + 1).drop_last() =~= bytes@.take(i as int));
            assert(bytes@.take(i + 1).last() == b);
            assert(out@ =~= hex_of_bytes(bytes@.take(i + 1)));
        }
        i += 1;
    }
    proof {
        assert(bytes@.take(bytes@.len() as int) =~= bytes@);
    }
    out
}

/// Every character of a hexadecimal rendering is ASCII.
pub proof fn lemma_hex_ascii(bytes: Seq<u8>)
    ensures
        vstd::utf8::is_ascii_chars(hex_of_bytes(bytes)),
    decreases bytes.len(),
{
    reveal_strlit("0123456789abcdef");
    if bytes.len() > 0 {
        lemma_hex_ascii(bytes.drop_last());
        assert(forall|n: int| 0 <= n < 16 ==> '\0' <= #[trigger] hex_digit(n) <= '\u{7f}');
    }
}

/// No character of a hexadecimal rendering is a path separator.
pub proof fn lemma_hex_no_slash(bytes: Seq<u8>)
    ensures
        !hex_of_bytes(bytes).contains('/'),
    decreases bytes.len(),
{
    reveal_strlit("0123456789abcdef");
    if bytes.len() > 0 {
        lemma_hex_no_slash(bytes.drop_last());
        assert(forall|n: int| 0 <= n < 16 ==> #[trigger] hex_digit(n) != '/');
        if hex_of_bytes(bytes).contains('/') {
            let k = choose|k: int|
                0 <= k < hex_of_bytes(bytes).len() && #[trigger] hex_of_bytes(bytes)[k] == '/';
            if k < hex_of_bytes(bytes.drop_last()).len() {
                assert(hex_of_bytes(bytes.drop_last()).contains('/'));
            }
        }
    }
}

/// The digest under which the object store files a byte sequence: the
/// lowercase hexadecimal SHA-256 of the bytes.
pub open spec fn digest_of(bytes: Seq<u8>) -> Seq<char> {
    hex_of_bytes(sha256_of(bytes))
}

/// Computes the digest of a byte sequence: 64 hexadecimal characters.
pub fn sha256sum(bytes: &Vec<u8>) -> (r: String)
    ensures
        r@ == digest_of(bytes@),
        r@.len() == 64,
{
    let d = sha256(bytes);
    proof {
        lemma_hex_len(d@);
    }
    to_hex(&d)
}

} // verus!
