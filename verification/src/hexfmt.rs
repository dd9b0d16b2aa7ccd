//! Lowercase hexadecimal rendering of byte strings, and small string-building
//! helpers shared by the wire-format code.

use vstd::prelude::*;

verus! {

/// The lowercase hexadecimal digit for a nibble value below sixteen.
pub open spec fn hex_digit_char(n: u8) -> char
    recommends
        n < 16,
{
    if n < 10 {
        (n + 48) as char
    } else {
        (n + 87) as char
    }
}

/// A lowercase hexadecimal digit, or a decimal digit.
pub open spec fn is_lower_hex_char(c: char) -> bool {
    (48 <= c as u32 && c as u32 <= 57) || (97 <= c as u32 && c as u32 <= 102)
}

/// Any hexadecimal digit, in either case.
pub open spec fn is_hex_char(c: char) -> bool {
    (48 <= c as u32 && c as u32 <= 57) || (97 <= c as u32 && c as u32 <= 102) || (65 <= c as u32
        && c as u32 <= 70)
}

/// The nibble value of a hexadecimal digit.
pub open spec fn hex_char_val(c: char) -> u8
    recommends
        is_hex_char(c),
{
    let v = c as u32;
    if 48 <= v && v <= 57 {
        (v - 48) as u8
    } else if 97 <= v {
        (v - 87) as u8
    } else {
        (v - 55) as u8
    }
}

/// The lowercase hexadecimal rendering of a byte string: two digits per byte,
/// high nibble first, bytes in order.
pub open spec fn hex_of(b: Seq<u8>) -> Seq<char>
    decreases b.len(),
{
    if b.len() == 0 {
        Seq::empty()
    } else {
        seq![hex_digit_char((b[0] >> 4) as u8), hex_digit_char((b[0] & 0xf) as u8)] + hex_of(
            b.drop_first(),
        )
    }
}

pub proof fn lemma_hex_of_len(b: Seq<u8>)
    ensures
        hex_of(b).len() == 2 * b.len(),
    decreases b.len(),
{
    if b.len() > 0 {
        lemma_hex_of_len(b.drop_first());
    }
}

pub proof fn lemma_hex_digit_char_lower(n: u8)
    requires
        n < 16,
    ensures
        is_lower_hex_char(hex_digit_char(n)),
{
    if n < 10 {
        assert(hex_digit_char(n) as u32 == n + 48);
    } else {
        assert(hex_digit_char(n) as u32 == n + 87);
    }
}

pub proof fn lemma_hex_of_is_lower_hex(b: Seq<u8>)
    ensures
        forall|i: int| 0 <= i < hex_of(b).len() ==> is_lower_hex_char(#[trigger] hex_of(b)[i]),
    decreases b.len(),
{
    if b.len() > 0 {
        assert(forall|x: u8| (x >> 4) < 16 && (x & 0xf) < 16) by (bit_vector);
        lemma_hex_digit_char_lower((b[0] >> 4) as u8);
        lemma_hex_digit_char_lower((b[0] & 0xf) as u8);
        lemma_hex_of_is_lower_hex(b.drop_first());
        assert forall|i: int| 0 <= i < hex_of(b).len() implies is_lower_hex_char(
            #[trigger] hex_of(b)[i],
        ) by {
            if i == 0 {
                assert(hex_of(b)[0] == hex_digit_char((b[0] >> 4) as u8));
            } else if i == 1 {
                assert(hex_of(b)[1] == hex_digit_char((b[0] & 0xf) as u8));
            } else {
                assert(hex_of(b)[i] == hex_of(b.drop_first())[i - 2]);
            }
        }
    }
}

/// Relies on hex::encode: it renders each byte as two lowercase hexadecimal
/// digits, high nibble first, in the order of the input bytes.
#[verifier::external_body]
pub(crate) fn hex_encode(b: &Vec<u8>) -> (r: String)
    ensures
        r@ == hex_of(b@),
{
    hex::encode(b.as_slice())
}

/// Relies on String::push: it appends exactly the given character.
#[verifier::external_body]
pub(crate) fn push_char(s: &mut String, c: char)
    ensures
        final(s)@ == old(s)@ + seq![c],
{
    s.push(c);
}

} // verus!
