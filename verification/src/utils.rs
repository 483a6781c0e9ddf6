//! Plain value types shared across the pipeline: colors, bar
//! rectangles, and the ARGB hex color parser.

use vstd::prelude::*;
use vstd::string::StrSliceExecFns;

verus! {

/// An RGBA color, one byte per channel.
#[derive(Clone, Copy, PartialEq, Eq, Structural, Debug)]
pub struct Color {
    pub r: u8,
    pub g: u8,
    pub b: u8,
    pub a: u8,
}

/// A bar rectangle in Q16.16 screen pixels, y growing downward.
#[derive(Clone, Copy, PartialEq, Eq, Structural, Debug)]
pub struct Rect {
    pub x: i64,
    pub y: i64,
    pub w: i64,
    pub h: i64,
}

/// Why a color string was rejected.
#[derive(Clone, Copy, PartialEq, Eq, Structural, Debug)]
pub enum ColorParseError {
    /// The string held no characters.
    Empty,
    /// A character was not a hexadecimal digit.
    InvalidDigit,
    /// The value does not fit in 32 bits.
    Overflow,
}

/// Value of one hexadecimal digit, or `-1` for any other character.
pub open spec fn hex_digit_val(c: char) -> int {
    if 48 <= c as u32 <= 57 {
        c as u32 - 48
    } else if 97 <= c as u32 <= 102 {
        c as u32 - 87
    } else if 65 <= c as u32 <= 70 {
        c as u32 - 55
    } else {
        -1
    }
}

/// Whether a character is a hexadecimal digit.
pub open spec fn is_hex_digit(c: char) -> bool {
    hex_digit_val(c) >= 0
}

/// Numeric value of a hexadecimal digit string.
pub open spec fn hex_val(s: Seq<char>) -> int
    decreases s.len(),
{
    if s.len() == 0 {
        0
    } else {
        16 * hex_val(s.drop_last()) + hex_digit_val(s.last())
    }
}

/// The digit part of a color string: everything after one optional
/// leading plus sign.
pub open spec fn color_digits(s: Seq<char>) -> Seq<char> {
    if s.len() > 0 && s[0] == '+' {
        s.skip(1)
    } else {
        s
    }
}

/// Whether a string parses as an ARGB color: an optional leading
/// plus sign, then at least one hexadecimal digit, with at most 32
/// bits of value — the strings unsigned integer parsing accepts in
/// base 16.
pub open spec fn color_str_ok(s: Seq<char>) -> bool {
    &&& color_digits(s).len() > 0
    &&& forall|j: int| 0 <= j < color_digits(s).len() ==> is_hex_digit(color_digits(s)[j])
    &&& hex_val(color_digits(s)) <= 0xFFFFFFFF
}

/// The color encoded by a 32-bit ARGB value.
pub open spec fn color_of_u32(v: int) -> Color {
    Color {
        a: (v / 0x1000000) as u8,
        r: ((v / 0x10000) % 256) as u8,
        g: ((v / 0x100) % 256) as u8,
        b: (v % 256) as u8,
    }
}

fn hex_digit(c: char) -> (r: Option<u32>)
    ensures
        r is Some <==> is_hex_digit(c),
        r is Some ==> r->0 == hex_digit_val(c),
{
    let u = c as u32;
    if 48 <= u && u <= 57 {
        Some(u - 48)
    } else if 97 <= u && u <= 102 {
        Some(u - 87)
    } else if 65 <= u && u <= 70 {
        Some(u - 55)
    } else {
        None
    }
}

/// Nonnegativity and growth of the hex value: appending digits never
/// shrinks it.
proof fn lemma_hex_val_nonneg(s: Seq<char>)
    requires
        forall|j: int| 0 <= j < s.len() ==> is_hex_digit(s[j]),
    ensures
        hex_val(s) >= 0,
    decreases s.len(),
{
    if s.len() > 0 {
        lemma_hex_val_nonneg(s.drop_last());
        assert(is_hex_digit(s.last()));
    }
}

/// Parse an ARGB color from a string of hexadecimal digits, with one
/// optional leading plus sign, as unsigned integer parsing accepts.
/// The channels are the four bytes of the 32-bit value, most
/// significant first: alpha, red, green, blue.
pub fn str_to_color(s: &str) -> (r: Result<Color, ColorParseError>)
    ensures
        r is Ok <==> color_str_ok(s@),
        r is Ok ==> r->Ok_0 == color_of_u32(hex_val(color_digits(s@))),
        r == Err::<Color, ColorParseError>(ColorParseError::Empty) <==> s@.len() == 0,
        r == Err::<Color, ColorParseError>(ColorParseError::InvalidDigit) <==> (s@.len() > 0 && (
        color_digits(s@).len() == 0 || exists|j: int|
            0 <= j < color_digits(s@).len() && !is_hex_digit(color_digits(s@)[j]))),
        r == Err::<Color, ColorParseError>(ColorParseError::Overflow) <==> (color_digits(
            s@,
        ).len() > 0 && (forall|j: int|
            0 <= j < color_digits(s@).len() ==> is_hex_digit(color_digits(s@)[j])) && hex_val(
            color_digits(s@),
        ) > 0xFFFFFFFF),
{
    let n = s.unicode_len();
    if n == 0 {
        return Err(ColorParseError::Empty);
    }
    let start: usize = if s.get_char(0) == '+' {
        1
    } else {
        0
    };
    proof {
        assert(color_digits(s@) =~= s@.skip(start as int));
    }
    if start == n {
        // a plus sign alone carries no digits
        return Err(ColorParseError::InvalidDigit);
    }
    let mut i: usize = start;
    while i < n
        invariant
            n == s@.len(),
            start <= i <= n,
            start <= 1,
            color_digits(s@) =~= s@.skip(start as int),
            forall|j: int| start <= j < i ==> is_hex_digit(s@[j]),
        decreases n - i,
    {
        let c = s.get_char(i);
        if hex_digit(c).is_none() {
            proof {
                assert(color_digits(s@)[i - start] == s@[i as int]);
            }
            return Err(ColorParseError::InvalidDigit);
        }
        i += 1;
    }
    proof {
        assert forall|j: int|
            0 <= j < color_digits(s@).len() implies is_hex_digit(color_digits(s@)[j]) by {
            assert(color_digits(s@)[j] == s@[j + start]);
        };
    }
    let mut acc: u64 = 0;
    let mut k: usize = start;
    while k < n
        invariant
            n == s@.len(),
            start <= k <= n,
            start <= 1,
            color_digits(s@) =~= s@.skip(start as int),
            forall|j: int| start <= j < n ==> is_hex_digit(s@[j]),
            forall|j: int| 0 <= j < color_digits(s@).len() ==> is_hex_digit(color_digits(s@)[j]),
            acc as int == hex_val(color_digits(s@).take(k - start)),
            acc <= 0xFFFFFFFF,
        decreases n - k,
    {
        let c = s.get_char(k);
        let d = hex_digit(c).unwrap();
        let next: u64 = 16 * acc + (d as u64);
        proof {
            let dseq = color_digits(s@);
            assert(dseq.take(k - start + 1).drop_last() =~= dseq.take(k - start));
            assert(dseq.take(k - start + 1).last() == dseq[k - start]);
            assert(dseq[k - start] == s@[k as int]);
        }
        if next > 0xFFFFFFFF {
            proof {
                lemma_hex_overflow_sticks(color_digits(s@), k - start + 1);
            }
            return Err(ColorParseError::Overflow);
        }
        acc = next;
        k += 1;
    }
    proof {
        assert(color_digits(s@).take(n - start) =~= color_digits(s@));
    }
    let v: u32 = acc as u32;
    let cr: u8 = ((v >> 16) & 0xFF) as u8;
    let cg: u8 = ((v >> 8) & 0xFF) as u8;
    let cb: u8 = (v & 0xFF) as u8;
    let ca: u8 = (v >> 24) as u8;
    proof {
        lemma_argb_bytes(v);
    }
    Ok(Color { r: cr, g: cg, b: cb, a: ca })
}

/// Once a prefix of a digit string exceeds 32 bits, the whole string
/// does.
proof fn lemma_hex_overflow_sticks(s: Seq<char>, k: int)
    requires
        0 <= k <= s.len(),
        forall|j: int| 0 <= j < s.len() ==> is_hex_digit(s[j]),
        hex_val(s.take(k)) > 0xFFFFFFFF,
    ensures
        hex_val(s) > 0xFFFFFFFF,
    decreases s.len() - k,
{
    if k < s.len() {
        assert(s.take(k + 1).drop_last() =~= s.take(k));
        assert(s.take(k + 1).last() == s[k]);
        assert(is_hex_digit(s[k]));
        lemma_hex_overflow_sticks(s, k + 1);
    } else {
        assert(s.take(k) =~= s);
    }
}

/// The shifted channel extraction equals the arithmetic one.
proof fn lemma_argb_bytes(v: u32)
    ensures
        v >> 24 == v / 0x1000000,
        (v >> 16) & 0xFF == (v / 0x10000) % 256,
        (v >> 8) & 0xFF == (v / 0x100) % 256,
        v & 0xFF == v % 256,
        v / 0x1000000 < 256,
{
    assert(v >> 24 == v / 0x1000000) by (bit_vector);
    assert((v >> 16) & 0xFF == (v / 0x10000) % 256) by (bit_vector);
    assert((v >> 8) & 0xFF == (v / 0x100) % 256) by (bit_vector);
    assert(v & 0xFF == v % 256) by (bit_vector);
    assert(v / 0x1000000 < 256) by (bit_vector);
}

/// A zeroed bar rectangle, the initial content of the geometry table.
pub fn frect_new() -> (r: Rect)
    ensures
        r == (Rect { x: 0i64, y: 0i64, w: 0i64, h: 0i64 }),
{
    Rect { x: 0, y: 0, w: 0, h: 0 }
}

} // verus!
