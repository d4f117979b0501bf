//! BLAKE3 digests, written in lower-case hexadecimal.
use vstd::prelude::*;

verus! {

/// The 32-byte BLAKE3 digest of `input` (`blake3::hash`).
pub uninterp spec fn blake3_digest(input: Seq<u8>) -> Seq<u8>;

/// The lower-case hexadecimal digit of a nibble.
pub open spec fn hex_digit(n: nat) -> char {
    if n < 10 {
        (('0' as nat) + n) as char
    } else {
        (('a' as nat) + (n - 10)) as char
    }
}

/// Bytes in lower-case hexadecimal, two digits per byte, high nibble first.
pub open spec fn hex_text(bytes: Seq<u8>) -> Seq<char> {
    Seq::new(
        2 * bytes.len(),
        |i: int|
            if i % 2 == 0 {
                hex_digit((bytes[i / 2] / 16) as nat)
            } else {
                hex_digit((bytes[i / 2] % 16) as nat)
            },
    )
}

/// `blake3::hash(input).to_hex()`: the digest in 64 lower-case
/// hexadecimal digits, high nibble of each byte first, as the crate's
/// `Hash::to_hex` writes it.
#[verifier::external_body]
pub(crate) fn blake3_hex(input: &[u8]) -> (r: String)
    ensures
        r@ == hex_text(blake3_digest(input@)) && r@.len() == 64,
{
    blake3::hash(input).to_hex().to_string()
}

} // verus!
