//! Request identifiers handed out when a backing service fails, held as the
//! 128 bits of a UUID.

use vstd::prelude::*;

verus! {

/// Calls `uuid::Uuid::new_v4` and takes the fresh random identifier's bits
/// with `as_u128`. Nothing is claimed of their value, which rests on the
/// random number generator.
#[verifier::external_body]
pub(crate) fn fresh_request_id() -> (r: u128) {
    uuid::Uuid::new_v4().as_u128()
}

/// The lower-case hexadecimal digit of `d`, for `d` below 16.
pub open spec fn hex_digit(d: int) -> char {
    seq!['0', '1', '2', '3', '4', '5', '6', '7', '8', '9', 'a', 'b', 'c', 'd', 'e', 'f'][d]
}

/// The last `n` hexadecimal digits of `bits`, the most significant first.
pub open spec fn hex_digits(bits: nat, n: nat) -> Seq<char>
    decreases n,
{
    if n == 0 {
        Seq::empty()
    } else {
        hex_digits(bits / 16, (n - 1) as nat).push(hex_digit((bits % 16) as int))
    }
}

/// The identifier with bits `bits` in hyphenated lower-case form: its 32
/// hexadecimal digits, the most significant first, in groups of 8, 4, 4, 4
/// and 12 joined by hyphens.
pub open spec fn hyphenated_hex(bits: u128) -> Seq<char> {
    let h = hex_digits(bits as nat, 32);
    h.subrange(0, 8) + seq!['-'] + h.subrange(8, 12) + seq!['-'] + h.subrange(12, 16) + seq!['-']
        + h.subrange(16, 20) + seq!['-'] + h.subrange(20, 32)
}

/// Calls the `Debug` formatting of the `uuid::Uuid` that `Uuid::from_u128`
/// makes of `bits`. Claimed: the text is the identifier in hyphenated
/// lower-case form, its bytes taken in big-endian order as `from_u128` lays
/// them out.
#[verifier::external_body]
pub(crate) fn request_id_text(bits: u128) -> (r: String)
    ensures
        r@ == hyphenated_hex(bits),
{
    format!("{:?}", uuid::Uuid::from_u128(bits))
}

} // verus!
