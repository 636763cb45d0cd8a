//! Random bytes and random identifiers.

use vstd::prelude::*;

verus! {

/// `RngCore::fill_bytes` on `rand::thread_rng()`: `n` random bytes. Nothing is
/// claimed of the bytes but their number. The outside call panics where the
/// system gives no seed for the generator.
#[verifier::external_body]
pub(crate) fn random_bytes(n: usize) -> (bytes: Vec<u8>)
    requires
        n <= isize::MAX,
    ensures
        bytes@.len() == n,
{
    let mut bytes = vec![0u8; n];
    rand::RngCore::fill_bytes(&mut rand::thread_rng(), &mut bytes);
    bytes
}

/// Small hexadecimal digits.
pub open spec fn is_hex_digit(c: char) -> bool {
    '0' <= c <= '9' || 'a' <= c <= 'f'
}

/// Where a hyphenated UUID has its hyphens.
pub open spec fn is_uuid_hyphen(i: int) -> bool {
    i == 8 || i == 13 || i == 18 || i == 23
}

/// The text of a random (version 4) UUID: groups of 8, 4, 4, 4 and 12 small
/// hexadecimal digits, joined by hyphens.
pub open spec fn is_uuid(s: Seq<char>) -> bool {
    &&& s.len() == 36
    &&& forall|i: int|
        0 <= i < 36 ==> (if is_uuid_hyphen(i) {
            #[trigger] s[i] == '-'
        } else {
            is_hex_digit(s[i])
        })
    &&& s[14] == '4'
    &&& s[19] == '8' || s[19] == '9' || s[19] == 'a' || s[19] == 'b'
}

/// `Uuid::new_v4` as text: a fresh random identifier. Only its layout is
/// claimed, not that it differs from any other.
#[verifier::external_body]
pub(crate) fn new_uuid() -> (id: String)
    ensures
        is_uuid(id@),
{
    uuid::Uuid::new_v4().to_string()
}

} // verus!
