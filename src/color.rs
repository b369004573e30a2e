//! Colour values given on a command line: RGBA8888 written in hex, with an
//! optional "#" or "0x" in front, or failing that in decimal.

use vstd::prelude::*;
use vstd::string::StringSliceAdditionalSpecFns;

verus! {

/// The value of ASCII digit `b` in base `radix` (10 or 16), if it is one.
pub open spec fn digit_value(b: u8, radix: u32) -> Option<u32> {
    if 0x30 <= b <= 0x39 {
        Some((b - 0x30) as u32)
    } else if radix == 16 && 0x61 <= b <= 0x66 {
        Some((b - 0x61 + 10) as u32)
    } else if radix == 16 && 0x41 <= b <= 0x46 {
        Some((b - 0x41 + 10) as u32)
    } else {
        None
    }
}

/// The number that the digits `d` write in base `radix`, if all are digits.
pub open spec fn digits_value(d: Seq<u8>, radix: u32) -> Option<int>
    decreases d.len(),
{
    if d.len() == 0 {
        Some(0)
    } else {
        match (digits_value(d.drop_last(), radix), digit_value(d.last(), radix)) {
            (Some(a), Some(b)) => Some(a * radix + b),
            _ => None,
        }
    }
}

/// An unsigned 32-bit number written in base `radix`: an optional "+", then
/// at least one digit, and a value that fits.
pub open spec fn unsigned_value(t: Seq<u8>, radix: u32) -> Option<u32> {
    let d = if t.len() > 0 && t[0] == 0x2B {
        t.drop_first()
    } else {
        t
    };
    if d.len() == 0 {
        None
    } else {
        match digits_value(d, radix) {
            Some(v) => if v <= u32::MAX {
                Some(v as u32)
            } else {
                None
            },
            None => None,
        }
    }
}

/// The text of a colour with its "0x" or else its "#" prefix removed.
pub open spec fn strip_color_prefix(s: Seq<u8>) -> Seq<u8> {
    if s.len() >= 2 && s[0] == 0x30 && s[1] == 0x78 {
        s.subrange(2, s.len() as int)
    } else if s.len() >= 1 && s[0] == 0x23 {
        s.drop_first()
    } else {
        s
    }
}

/// The colour that the UTF-8 text `s` gives: read in hex, or when that fails
/// in decimal.
pub open spec fn color_value(s: Seq<u8>) -> Option<u32> {
    let t = strip_color_prefix(s);
    match unsigned_value(t, 16) {
        Some(v) => Some(v),
        None => unsigned_value(t, 10),
    }
}

/// A prefix of valid digits is worth at most the whole; an invalid prefix
/// makes the whole invalid.
proof fn lemma_digits_prefix(d: Seq<u8>, k: int, radix: u32)
    requires
        0 <= k <= d.len(),
        radix >= 1,
    ensures
        digits_value(d.subrange(0, k), radix) is None ==> digits_value(d, radix) is None,
        digits_value(d, radix) matches Some(w) ==> (digits_value(d.subrange(0, k), radix) matches Some(
            v,
        ) && 0 <= v <= w),
    decreases d.len(),
{
    if k == d.len() {
        assert(d.subrange(0, k) =~= d);
        lemma_digits_nonneg(d, radix);
    } else {
        lemma_digits_prefix(d.drop_last(), k, radix);
        assert(d.drop_last().subrange(0, k) =~= d.subrange(0, k));
        if let Some(a) = digits_value(d.drop_last(), radix) {
            lemma_digits_nonneg(d.drop_last(), radix);
            assert(a * radix >= a) by (nonlinear_arith)
                requires
                    a >= 0,
                    radix >= 1,
            ;
        }
    }
}

proof fn lemma_digits_nonneg(d: Seq<u8>, radix: u32)
    ensures
        digits_value(d, radix) matches Some(v) ==> v >= 0,
    decreases d.len(),
{
    if d.len() > 0 {
        lemma_digits_nonneg(d.drop_last(), radix);
        if let Some(a) = digits_value(d.drop_last(), radix) {
            assert(a * radix >= 0) by (nonlinear_arith)
                requires
                    a >= 0,
            ;
        }
    }
}

fn digit(b: u8, radix: u32) -> (r: Option<u32>)
    ensures
        r == digit_value(b, radix),
{
    if 0x30 <= b && b <= 0x39 {
        Some((b - 0x30) as u32)
    } else if radix == 16 && 0x61 <= b && b <= 0x66 {
        Some((b - 0x61 + 10) as u32)
    } else if radix == 16 && 0x41 <= b && b <= 0x46 {
        Some((b - 0x41 + 10) as u32)
    } else {
        None
    }
}

/// Reads `t[start..]` as an unsigned 32-bit number in base `radix`.
fn parse_unsigned(t: &[u8], start: usize, radix: u32) -> (r: Option<u32>)
    requires
        start <= t@.len(),
        radix == 10 || radix == 16,
    ensures
        r == unsigned_value(t@.subrange(start as int, t@.len() as int), radix),
{
    let ghost whole = t@.subrange(start as int, t@.len() as int);
    let len = t.len();
    let mut k = start;
    if k < len && t[k] == 0x2B {
        k = k + 1;
    }
    let first = k;
    let ghost d = t@.subrange(first as int, len as int);
    assert(d =~= if whole.len() > 0 && whole[0] == 0x2B {
        whole.drop_first()
    } else {
        whole
    });
    if k == len {
        return None;
    }
    let mut acc: u32 = 0;
    assert(t@.subrange(first as int, k as int) =~= Seq::<u8>::empty());
    while k < len
        invariant
            len == t@.len(),
            first <= k <= len,
            first < len,
            radix == 10 || radix == 16,
            d == t@.subrange(first as int, len as int),
            whole == t@.subrange(start as int, len as int),
            d == (if whole.len() > 0 && whole[0] == 0x2B {
                whole.drop_first()
            } else {
                whole
            }),
            digits_value(t@.subrange(first as int, k as int), radix) == Some(acc as int),
        decreases len - k,
    {
        let ghost next = t@.subrange(first as int, k + 1);
        assert(next.drop_last() =~= t@.subrange(first as int, k as int));
        assert(next.last() == t@[k as int]);
        assert(next =~= d.subrange(0, k + 1 - first));
        proof {
            lemma_digits_prefix(d, k + 1 - first, radix);
        }
        match digit(t[k], radix) {
            None => {
                return None;
            },
            Some(dv) => {
                let wide = acc as u64 * radix as u64 + dv as u64;
                if wide > u32::MAX as u64 {
                    return None;
                }
                acc = wide as u32;
            },
        }
        k = k + 1;
    }
    assert(t@.subrange(first as int, k as int) =~= d);
    Some(acc)
}

/// Relies on std's `format!`: the message for a colour that does not parse.
#[verifier::external_body]
fn invalid_color_message(s: &str) -> String {
    format!("{} is not a valid color in RGBA8888 format", s)
}

/// Reads an RGBA8888 colour: hex with an optional "#" or "0x" prefix, or, when
/// that fails, decimal. Fails with a message naming the text otherwise.
pub fn parse_color(s: &str) -> (r: Result<u32, String>)
    ensures
        r is Ok <==> color_value(s.spec_bytes()) is Some,
        r matches Ok(v) ==> color_value(s.spec_bytes()) == Some(v),
{
    let b = s.as_bytes();
    let ghost bytes = b@;
    let start: usize = if b.len() >= 2 && b[0] == 0x30 && b[1] == 0x78 {
        2
    } else if b.len() >= 1 && b[0] == 0x23 {
        1
    } else {
        0
    };
    assert(bytes.subrange(start as int, bytes.len() as int) =~= strip_color_prefix(bytes));
    match parse_unsigned(b, start, 16) {
        Some(v) => Ok(v),
        None => match parse_unsigned(b, start, 10) {
            Some(v) => Ok(v),
            None => Err(invalid_color_message(s)),
        },
    }
}

/// Checks that `parse_color` accepts `s`, handing `s` back when it does.
pub fn verify_color(s: &str) -> (r: Result<String, String>)
    ensures
        r is Ok <==> color_value(s.spec_bytes()) is Some,
        r matches Ok(t) ==> t@ == s@,
{
    parse_color(s)?;
    Ok(s.to_owned())
}

} // verus!
