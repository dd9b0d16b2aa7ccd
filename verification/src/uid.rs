//! 128-bit identifiers (leaderboard ids, leaderboard keys, player ids and
//! player keys), held as their sixteen raw bytes, with the hyphenated
//! lowercase textual form used on the wire and in configuration.

use vstd::prelude::*;
use vstd::string::StrSliceExecFns;
use crate::hexfmt::{hex_digit_char, hex_char_val, is_hex_char, is_lower_hex_char};

verus! {

/// A 128-bit identifier, as sixteen raw bytes.
#[derive(Debug)]
pub struct Uid {
    pub bytes: Vec<u8>,
}

impl View for Uid {
    type V = Seq<u8>;

    open spec fn view(&self) -> Seq<u8> {
        self.bytes@
    }
}

/// The positions of the four hyphens in the 36-character textual form.
pub open spec fn is_hyphen_pos(i: int) -> bool {
    i == 8 || i == 13 || i == 18 || i == 23
}

/// The nibble written at (non-hyphen) position `i` of the textual form.
pub open spec fn nib_index(i: int) -> int {
    if i < 8 {
        i
    } else if i < 13 {
        i - 1
    } else if i < 18 {
        i - 2
    } else if i < 23 {
        i - 3
    } else {
        i - 4
    }
}

/// The position of nibble `j` in the textual form.
pub open spec fn str_pos(j: int) -> int {
    if j < 8 {
        j
    } else if j < 12 {
        j + 1
    } else if j < 16 {
        j + 2
    } else if j < 20 {
        j + 3
    } else {
        j + 4
    }
}

/// Nibble `j` of a byte string: high nibble first within each byte.
pub open spec fn nibble_of(b: Seq<u8>, j: int) -> u8 {
    if j % 2 == 0 {
        (b[j / 2] >> 4) as u8
    } else {
        (b[j / 2] & 0xf) as u8
    }
}

/// Character `i` of the hyphenated lowercase textual form of `b`.
pub open spec fn uuid_char(b: Seq<u8>, i: int) -> char {
    if is_hyphen_pos(i) {
        '-'
    } else {
        hex_digit_char(nibble_of(b, nib_index(i)))
    }
}

/// The hyphenated lowercase textual form of a sixteen-byte identifier.
pub open spec fn uuid_chars(b: Seq<u8>) -> Seq<char> {
    Seq::new(36, |i: int| uuid_char(b, i))
}

/// Whether `s` is a well-formed hyphenated identifier: 36 characters,
/// hyphens at positions 8, 13, 18 and 23, hexadecimal digits (either case)
/// everywhere else.
pub open spec fn is_valid_uuid_str(s: Seq<char>) -> bool {
    &&& s.len() == 36
    &&& forall|i: int|
        0 <= i < 36 ==> (if is_hyphen_pos(i) {
            s[i] == '-'
        } else {
            is_hex_char(#[trigger] s[i])
        })
}

/// The sixteen bytes denoted by a well-formed hyphenated identifier.
pub open spec fn uuid_bytes_of_str(s: Seq<char>) -> Seq<u8> {
    Seq::new(
        16,
        |k: int| ((hex_char_val(s[str_pos(2 * k)]) << 4) | hex_char_val(s[str_pos(2 * k + 1)])) as u8,
    )
}

impl Uid {
    /// Sixteen bytes held.
    pub open spec fn wf(&self) -> bool {
        self.bytes@.len() == 16
    }

    /// A copy of this identifier.
    pub fn dup(&self) -> (r: Uid)
        ensures
            r@ == self@,
            r.bytes@ == self.bytes@,
    {
        let mut b: Vec<u8> = Vec::new();
        let mut i: usize = 0;
        while i < self.bytes.len()
            invariant
                i <= self.bytes@.len(),
                b@ == self.bytes@.subrange(0, i as int),
            decreases self.bytes@.len() - i,
        {
            b.push(self.bytes[i]);
            i += 1;
        }
        proof {
            assert(b@ =~= self.bytes@);
        }
        Uid { bytes: b }
    }

    /// The raw bytes, for signing.
    pub fn as_bytes(&self) -> (r: Vec<u8>)
        ensures
            r@ == self@,
    {
        let u = self.dup();
        u.bytes
    }

    /// Whether two identifiers hold the same bytes.
    pub fn same_as(&self, other: &Uid) -> (r: bool)
        ensures
            r == (self@ =~= other@),
    {
        if self.bytes.len() != other.bytes.len() {
            return false;
        }
        let mut i: usize = 0;
        while i < self.bytes.len()
            invariant
                self.bytes@.len() == other.bytes@.len(),
                i <= self.bytes@.len(),
                forall|j: int| 0 <= j < i ==> self.bytes@[j] == other.bytes@[j],
            decreases self.bytes@.len() - i,
        {
            if self.bytes[i] != other.bytes[i] {
                return false;
            }
            i += 1;
        }
        true
    }

    /// Parse the hyphenated textual form; accepts hexadecimal digits of
    /// either case and nothing else.
    pub fn parse_str(s: &str) -> (r: Option<Uid>)
        ensures
            r is Some <==> is_valid_uuid_str(s@),
            r matches Some(u) ==> u.wf() && u@ == uuid_bytes_of_str(s@),
    {
        if s.unicode_len() != 36 {
            return None;
        }
        if s.get_char(8) != '-' || s.get_char(13) != '-' || s.get_char(18) != '-' || s.get_char(23)
            != '-' {
            return None;
        }
        let mut bytes: Vec<u8> = Vec::new();
        let mut k: usize = 0;
        while k < 16
            invariant
                s@.len() == 36,
                k <= 16,
                bytes@.len() == k,
                forall|j: int|
                    0 <= j < 2 * k ==> is_hex_char(#[trigger] s@[str_pos(j)]),
                forall|m: int| 0 <= m < k ==> bytes@[m] == uuid_bytes_of_str(s@)[m],
            decreases 16 - k,
        {
            let p1 = str_pos_x(2 * k);
            let p2 = str_pos_x(2 * k + 1);
            let c1 = s.get_char(p1);
            let c2 = s.get_char(p2);
            if !is_hex_char_x(c1) || !is_hex_char_x(c2) {
                proof {
                    if is_valid_uuid_str(s@) {
                        assert(!is_hyphen_pos(str_pos(2 * k as int)));
                        assert(!is_hyphen_pos(str_pos(2 * k as int + 1)));
                        assert(is_hex_char(s@[str_pos(2 * k as int)]));
                        assert(is_hex_char(s@[str_pos(2 * k as int + 1)]));
                    }
                }
                return None;
            }
            let hi = hex_char_value(c1);
            let lo = hex_char_value(c2);
            bytes.push((hi << 4u8) | lo);
            k += 1;
        }
        proof {
            assert forall|i: int| 0 <= i < 36 && !is_hyphen_pos(i) implies is_hex_char(s@[i]) by {
                let j = nib_index(i);
                assert(0 <= j < 32);
                assert(str_pos(j) == i);
                assert(is_hex_char(s@[str_pos(j)]));
            }
            assert(is_valid_uuid_str(s@));
            assert(bytes@ =~= uuid_bytes_of_str(s@));
        }
        Some(Uid { bytes })
    }

    /// Render the hyphenated lowercase textual form.
    pub fn hyphenated(&self) -> (r: String)
        requires
            self.wf(),
        ensures
            r@ == uuid_chars(self@),
    {
        let mut out = String::new();
        let mut i: usize = 0;
        while i < 36
            invariant
                self.wf(),
                i <= 36,
                out@.len() == i,
                forall|j: int| 0 <= j < i ==> out@[j] == uuid_char(self@, j),
            decreases 36 - i,
        {
            let c: char = if i == 8 || i == 13 || i == 18 || i == 23 {
                '-'
            } else {
                let j = nib_index_x(i);
                let byte = self.bytes[j / 2];
                let nib: u8 = if j % 2 == 0 {
                    byte >> 4u8
                } else {
                    byte & 0xf
                };
                proof {
                    assert((byte >> 4u8) < 16 && (byte & 0xf) < 16) by (bit_vector);
                }
                hex_digit_x(nib)
            };
            crate::hexfmt::push_char(&mut out, c);
            i += 1;
        }
        proof {
            assert(out@ =~= uuid_chars(self@));
        }
        out
    }
}

/// The position of nibble `j` in the textual form.
fn str_pos_x(j: usize) -> (r: usize)
    requires
        j < 32,
    ensures
        r == str_pos(j as int),
{
    if j < 8 {
        j
    } else if j < 12 {
        j + 1
    } else if j < 16 {
        j + 2
    } else if j < 20 {
        j + 3
    } else {
        j + 4
    }
}

/// The nibble written at (non-hyphen) position `i` of the textual form.
fn nib_index_x(i: usize) -> (r: usize)
    requires
        i < 36,
        !is_hyphen_pos(i as int),
    ensures
        r == nib_index(i as int),
        r < 32,
{
    if i < 8 {
        i
    } else if i < 13 {
        i - 1
    } else if i < 18 {
        i - 2
    } else if i < 23 {
        i - 3
    } else {
        i - 4
    }
}

/// Whether `c` is a hexadecimal digit of either case.
fn is_hex_char_x(c: char) -> (r: bool)
    ensures
        r == is_hex_char(c),
{
    let v = c as u32;
    (48 <= v && v <= 57) || (97 <= v && v <= 102) || (65 <= v && v <= 70)
}

/// The nibble value of a hexadecimal digit.
fn hex_char_value(c: char) -> (r: u8)
    requires
        is_hex_char(c),
    ensures
        r == hex_char_val(c),
{
    let v = c as u32;
    if 48 <= v && v <= 57 {
        (v - 48) as u8
    } else if 97 <= v {
        (v - 87) as u8
    } else {
        (v - 55) as u8
    }
}

/// The lowercase hexadecimal digit for a nibble value.
fn hex_digit_x(n: u8) -> (r: char)
    requires
        n < 16,
    ensures
        r == hex_digit_char(n),
{
    if n < 10 {
        (n + 48) as char
    } else {
        (n + 87) as char
    }
}

/// Whether the 36 characters of `s` starting at `from` are a canonical
/// (lowercase) hyphenated identifier.
pub open spec fn canon_uuid_at(s: Seq<char>, from: int) -> bool {
    forall|p: int|
        from <= p < from + 36 ==> (if is_hyphen_pos(p - from) {
            s[p] == '-'
        } else {
            is_lower_hex_char(#[trigger] s[p])
        })
}

/// A lowercase hexadecimal digit comes back from its value.
pub proof fn lemma_lower_hex_round(c: char)
    requires
        is_lower_hex_char(c),
    ensures
        hex_char_val(c) < 16,
        hex_digit_char(hex_char_val(c)) == c,
{
    let v = c as u32;
    if 48 <= v && v <= 57 {
        assert(hex_digit_char(hex_char_val(c)) as u32 == v);
    } else {
        assert(hex_digit_char(hex_char_val(c)) as u32 == v);
    }
}

/// A canonical textual form renders back from the bytes it denotes.
pub proof fn lemma_uuid_canonical(s: Seq<char>)
    requires
        s.len() == 36,
        canon_uuid_at(s, 0),
    ensures
        uuid_chars(uuid_bytes_of_str(s)) =~= s,
{
    let b = uuid_bytes_of_str(s);
    assert(forall|x: u8, y: u8|
        x < 16 && y < 16 ==> ((((x << 4) | y) as u8) >> 4) == x && ((((x << 4) | y) as u8) & 0xf)
            == y) by (bit_vector);
    assert forall|i: int| 0 <= i < 36 implies uuid_chars(b)[i] == s[i] by {
        if !is_hyphen_pos(i) {
            let j = nib_index(i);
            let k = j / 2;
            assert(str_pos(2 * k) == if j % 2 == 0 {
                i
            } else {
                str_pos(j - 1)
            });
            let c1 = s[str_pos(2 * k)];
            let c2 = s[str_pos(2 * k + 1)];
            assert(is_lower_hex_char(c1));
            assert(is_lower_hex_char(c2));
            lemma_lower_hex_round(c1);
            lemma_lower_hex_round(c2);
            let hi = hex_char_val(c1);
            let lo = hex_char_val(c2);
            assert(b[k] == ((hi << 4) | lo) as u8);
            assert((b[k] >> 4) == hi && (b[k] & 0xf) == lo);
            if j % 2 == 0 {
                assert(nibble_of(b, j) == hi);
                assert(str_pos(j) == i);
            } else {
                assert(nibble_of(b, j) == lo);
                assert(str_pos(j) == i);
            }
        }
    }
}

/// A rendered identifier is canonical wherever it stands in a larger text.
pub proof fn lemma_canon_at_from_chars(s: Seq<char>, from: int, b: Seq<u8>)
    requires
        b.len() == 16,
        0 <= from,
        from + 36 <= s.len(),
        s.subrange(from, from + 36) == uuid_chars(b),
    ensures
        canon_uuid_at(s, from),
{
    assert(forall|x: u8| (x >> 4) < 16 && (x & 0xf) < 16) by (bit_vector);
    assert forall|p: int| from <= p < from + 36 implies (if is_hyphen_pos(p - from) {
        s[p] == '-'
    } else {
        is_lower_hex_char(#[trigger] s[p])
    }) by {
        assert(s[p] == s.subrange(from, from + 36)[p - from]);
        if !is_hyphen_pos(p - from) {
            let n = nibble_of(b, nib_index(p - from));
            assert(uuid_chars(b)[p - from] == hex_digit_char(n));
            assert(n < 16);
            crate::hexfmt::lemma_hex_digit_char_lower(n);
        }
    }
}

impl Uid {
    /// Parse exactly the canonical lowercase hyphenated form found at
    /// position `from` of `s`.
    pub fn parse_canon(s: &str, from: usize) -> (r: Option<Uid>)
        requires
            from + 36 <= s@.len(),
            s@.len() <= usize::MAX,
        ensures
            r is Some <==> canon_uuid_at(s@, from as int),
            r matches Some(u) ==> u.wf() && s@.subrange(from as int, from as int + 36)
                =~= uuid_chars(u@),
    {
        if s.get_char(from + 8) != '-' || s.get_char(from + 13) != '-' || s.get_char(from + 18)
            != '-' || s.get_char(from + 23) != '-' {
            return None;
        }
        let mut bytes: Vec<u8> = Vec::new();
        let mut k: usize = 0;
        while k < 16
            invariant
                from + 36 <= s@.len(),
                s@.len() <= usize::MAX,
                k <= 16,
                bytes@.len() == k,
                forall|j: int|
                    0 <= j < 2 * k ==> is_lower_hex_char(#[trigger] s@[from + str_pos(j)]),
                forall|m: int|
                    0 <= m < k ==> bytes@[m] == uuid_bytes_of_str(
                        s@.subrange(from as int, from as int + 36),
                    )[m],
            decreases 16 - k,
        {
            let p1 = from + str_pos_x(2 * k);
            let p2 = from + str_pos_x(2 * k + 1);
            let c1 = s.get_char(p1);
            let c2 = s.get_char(p2);
            if !is_lower_hex_x(c1) || !is_lower_hex_x(c2) {
                proof {
                    if canon_uuid_at(s@, from as int) {
                        assert(!is_hyphen_pos(str_pos(2 * k as int)));
                        assert(!is_hyphen_pos(str_pos(2 * k as int + 1)));
                        assert(is_lower_hex_char(s@[from + str_pos(2 * k as int)]));
                        assert(is_lower_hex_char(s@[from + str_pos(2 * k as int + 1)]));
                    }
                }
                return None;
            }
            let hi = hex_char_value(c1);
            let lo = hex_char_value(c2);
            bytes.push((hi << 4u8) | lo);
            proof {
                let sub = s@.subrange(from as int, from as int + 36);
                assert(sub[str_pos(2 * k as int)] == s@[from + str_pos(2 * k as int)]);
                assert(sub[str_pos(2 * k as int + 1)] == s@[from + str_pos(2 * k as int + 1)]);
            }
            k += 1;
        }
        proof {
            let sub = s@.subrange(from as int, from as int + 36);
            assert forall|p: int|
                from <= p < from + 36 && !is_hyphen_pos(p - from) implies is_lower_hex_char(
                s@[p],
            ) by {
                let j = nib_index(p - from as int);
                assert(0 <= j < 32);
                assert(str_pos(j) == p - from);
                assert(is_lower_hex_char(s@[from + str_pos(j)]));
            }
            assert(canon_uuid_at(s@, from as int));
            assert forall|p: int| 0 <= p < 36 implies (if is_hyphen_pos(p) {
                sub[p] == '-'
            } else {
                is_lower_hex_char(sub[p])
            }) by {
                assert(sub[p] == s@[from + p]);
            }
            assert(canon_uuid_at(sub, 0));
            assert(bytes@ =~= uuid_bytes_of_str(sub));
            lemma_uuid_canonical(sub);
        }
        Some(Uid { bytes })
    }
}

/// Whether `c` is a lowercase hexadecimal digit.
fn is_lower_hex_x(c: char) -> (r: bool)
    ensures
        r == is_lower_hex_char(c),
{
    let v = c as u32;
    (48 <= v && v <= 57) || (97 <= v && v <= 102)
}

/// Rendering a sixteen-byte identifier and parsing the result yields the
/// same bytes: the textual form is well-formed and denotes the bytes it was
/// rendered from.
pub proof fn lemma_uuid_round_trip(b: Seq<u8>)
    requires
        b.len() == 16,
    ensures
        is_valid_uuid_str(uuid_chars(b)),
        uuid_bytes_of_str(uuid_chars(b)) =~= b,
{
    assert(forall|x: u8| (x >> 4) < 16 && (x & 0xf) < 16) by (bit_vector);
    assert forall|i: int| 0 <= i < 36 && !is_hyphen_pos(i) implies is_hex_char(
        uuid_chars(b)[i],
    ) by {
        let n = nibble_of(b, nib_index(i));
        assert(n < 16);
        assert(is_hex_char(hex_digit_char(n)));
    }
    assert(is_valid_uuid_str(uuid_chars(b)));
    assert(forall|x: u8| ((x >> 4) << 4) | (x & 0xf) == x) by (bit_vector);
    assert forall|k: int| 0 <= k < 16 implies uuid_bytes_of_str(uuid_chars(b))[k] == b[k] by {
        let s = uuid_chars(b);
        let p1 = str_pos(2 * k);
        let p2 = str_pos(2 * k + 1);
        assert(!is_hyphen_pos(p1));
        assert(!is_hyphen_pos(p2));
        assert(nib_index(p1) == 2 * k);
        assert(nib_index(p2) == 2 * k + 1);
        let hi = nibble_of(b, 2 * k);
        let lo = nibble_of(b, 2 * k + 1);
        assert(hi < 16 && lo < 16);
        assert(s[p1] == hex_digit_char(hi));
        assert(s[p2] == hex_digit_char(lo));
        assert(hex_char_val(hex_digit_char(hi)) == hi);
        assert(hex_char_val(hex_digit_char(lo)) == lo);
        assert(hi == (b[k] >> 4) && lo == (b[k] & 0xf));
        assert(((b[k] >> 4) << 4) | (b[k] & 0xf) == b[k]);
    }
}

} // verus!
