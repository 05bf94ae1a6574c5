//! Content hashes: a document is identified by the BLAKE3 hash of its bytes, written as
//! lowercase hexadecimal.

use vstd::prelude::*;

verus! {

/// The 32-byte BLAKE3 digest of `bytes`.
pub uninterp spec fn blake3_digest(bytes: Seq<u8>) -> Seq<u8>;

/// Calls `blake3::hash` and hands back the digest's bytes. Trusted: the digest is a function
/// of `bytes` alone (named [`blake3_digest`]) and is 32 bytes long (`blake3::OUT_LEN`).
#[verifier::external_body]
fn blake3_hash(bytes: &[u8]) -> (d: Vec<u8>)
    ensures
        d@ == blake3_digest(bytes@),
        d@.len() == 32,
{
    blake3::hash(bytes).as_bytes().to_vec()
}

/// The lowercase hexadecimal digit for `d` (`0..16`).
pub open spec fn hex_digit(d: nat) -> char {
    if d < 10 {
        crate::text::digit_char(d)
    } else if d == 10 {
        'a'
    } else if d == 11 {
        'b'
    } else if d == 12 {
        'c'
    } else if d == 13 {
        'd'
    } else if d == 14 {
        'e'
    } else {
        'f'
    }
}

/// `bytes` written as lowercase hexadecimal, two digits per byte, high nibble first.
pub open spec fn hex_lower(bytes: Seq<u8>) -> Seq<char>
    decreases bytes.len(),
{
    if bytes.len() == 0 {
        Seq::empty()
    } else {
        seq![hex_digit((bytes[0] / 16) as nat), hex_digit((bytes[0] % 16) as nat)] + hex_lower(
            bytes.drop_first(),
        )
    }
}

fn hex_digit_char(d: u8) -> (c: char)
    requires
        d < 16,
    ensures
        c == hex_digit(d as nat),
{
    if d < 10 {
        if d == 0 { '0' }
        else if d == 1 { '1' }
        else if d == 2 { '2' }
        else if d == 3 { '3' }
        else if d == 4 { '4' }
        else if d == 5 { '5' }
        else if d == 6 { '6' }
        else if d == 7 { '7' }
        else if d == 8 { '8' }
        else { '9' }
    } else if d == 10 {
        'a'
    } else if d == 11 {
        'b'
    } else if d == 12 {
        'c'
    } else if d == 13 {
        'd'
    } else if d == 14 {
        'e'
    } else {
        'f'
    }
}

/// `bytes` as lowercase hexadecimal (see [`hex_lower`]).
pub fn to_hex_lower(bytes: &[u8]) -> (s: String)
    ensures
        s@ == hex_lower(bytes@),
{
    let mut s = String::new();
    let mut i: usize = 0;
    proof {
        assert(bytes@.skip(0) =~= bytes@);
    }
    while i < bytes.len()
        invariant
            i <= bytes@.len(),
            hex_lower(bytes@) == s@ + hex_lower(bytes@.skip(i as int)),
        decreases bytes@.len() - i,
    {
        let b = bytes[i];
        let hi = hex_digit_char(b / 16);
        let lo = hex_digit_char(b % 16);
        proof {
            let rest = bytes@.skip(i as int);
            assert(rest[0] == b);
            assert(rest.drop_first() =~= bytes@.skip(i as int + 1));
            assert(s@.push(hi).push(lo) + hex_lower(bytes@.skip(i as int + 1))
                =~= s@ + (seq![hi, lo] + hex_lower(rest.drop_first())));
        }
        s.push(hi);
        s.push(lo);
        i = i + 1;
    }
    proof {
        assert(bytes@.skip(i as int) =~= Seq::<u8>::empty());
        assert(s@ + Seq::<char>::empty() =~= s@);
    }
    s
}

/// Writing bytes in hexadecimal takes two digits per byte.
pub proof fn lemma_hex_lower_len(bytes: Seq<u8>)
    ensures
        hex_lower(bytes).len() == 2 * bytes.len(),
    decreases bytes.len(),
{
    if bytes.len() > 0 {
        lemma_hex_lower_len(bytes.drop_first());
    }
}

/// The content hash of a document's bytes: the lowercase hexadecimal BLAKE3 digest, 64
/// characters long.
pub fn content_hash(bytes: &[u8]) -> (h: String)
    ensures
        h@ == hex_lower(blake3_digest(bytes@)),
        h@.len() == 64,
{
    let digest = blake3_hash(bytes);
    proof {
        lemma_hex_lower_len(digest@);
    }
    to_hex_lower(digest.as_slice())
}

} // verus!
