//! A fingerprint of font files, stored in project files.

use vstd::prelude::*;
use crate::text::{chars_to_string, dec, hex_digits, pad_zeros, push_hex_padded, push_u64};

verus! {

/// FNV-1a (64-bit) over the first `k` bytes.
pub open spec fn fnv1a(bytes: Seq<u8>, k: int) -> u64
    decreases k,
{
    if k <= 0 {
        0xcbf29ce484222325u64
    } else {
        (fnv1a(bytes, k - 1) ^ (bytes[k - 1] as u64)).wrapping_mul(0x100000001b3u64)
    }
}

/// The fingerprint text: the FNV-1a hash as 16 lower-case hex digits, a dash,
/// and the byte count.
pub open spec fn font_hash_spec(bytes: Seq<u8>) -> Seq<char> {
    pad_zeros(hex_digits(fnv1a(bytes, bytes.len() as int) as nat, false), 16) + seq!['-'] + dec(
        bytes.len() as int,
    )
}

/// Fingerprints font bytes: FNV-1a hash and length, as `hhhhhhhhhhhhhhhh-n`.
pub fn font_hash(font_bytes: &[u8]) -> (r: String)
    ensures
        r@ == font_hash_spec(font_bytes@),
{
    let mut h: u64 = 0xcbf29ce484222325;
    let mut i: usize = 0;
    while i < font_bytes.len()
        invariant
            i <= font_bytes@.len(),
            h == fnv1a(font_bytes@, i as int),
        decreases font_bytes.len() - i,
    {
        h = h ^ (font_bytes[i] as u64);
        h = h.wrapping_mul(0x100000001b3);
        i = i + 1;
    }
    let mut s: Vec<char> = Vec::new();
    push_hex_padded(&mut s, h, 16, false);
    s.push('-');
    push_u64(&mut s, font_bytes.len() as u64);
    assert(s@ =~= font_hash_spec(font_bytes@));
    chars_to_string(&s)
}

} // verus!
