//! Lower-case hexadecimal text for byte strings.

use vstd::prelude::*;
use crate::text::chars_of;

verus! {

/// The digit that stands for `n`, for `n` below 16.
pub open spec fn hex_digit(n: int) -> char {
    "0123456789abcdef"@[n]
}

/// What a hexadecimal digit stands for; upper and lower case both count.
pub open spec fn digit_value(c: char) -> Option<int> {
    let n = c as u32;
    if 0x30 <= n <= 0x39 {
        Some(n - 0x30)
    } else if 0x61 <= n <= 0x66 {
        Some(n - 0x61 + 10)
    } else if 0x41 <= n <= 0x46 {
        Some(n - 0x41 + 10)
    } else {
        None
    }
}

/// Two digits for each byte, the high half first.
pub open spec fn hex_of(b: Seq<u8>) -> Seq<char> {
    Seq::new(
        2 * b.len(),
        |i: int|
            hex_digit(
                if i % 2 == 0 {
                    b[i / 2] as int / 16
                } else {
                    b[i / 2] as int % 16
                },
            ),
    )
}

/// Whether `s` is an even number of hexadecimal digits.
pub open spec fn is_hex(s: Seq<char>) -> bool {
    s.len() % 2 == 0 && forall|i: int| 0 <= i < s.len() ==> (#[trigger] digit_value(s[i])) is Some
}

/// The bytes that the digits of `s` stand for, two digits to a byte.
pub open spec fn unhex(s: Seq<char>) -> Seq<u8> {
    Seq::new(
        s.len() / 2,
        |i: int| (digit_value(s[2 * i]).unwrap() * 16 + digit_value(s[2 * i + 1]).unwrap()) as u8,
    )
}

/// Each digit stands for the number it was written for.
pub proof fn lemma_digit_roundtrip(n: int)
    requires
        0 <= n < 16,
    ensures
        digit_value(hex_digit(n)) == Some(n),
{
    reveal_strlit("0123456789abcdef");
    let t = "0123456789abcdef"@;
    assert(t[0] == '0' && t[1] == '1' && t[2] == '2' && t[3] == '3');
    assert(t[4] == '4' && t[5] == '5' && t[6] == '6' && t[7] == '7');
    assert(t[8] == '8' && t[9] == '9' && t[10] == 'a' && t[11] == 'b');
    assert(t[12] == 'c' && t[13] == 'd' && t[14] == 'e' && t[15] == 'f');
}

/// Reading back what was written gives the bytes that were written.
pub proof fn lemma_hex_roundtrip(b: Seq<u8>)
    ensures
        is_hex(hex_of(b)),
        unhex(hex_of(b)) == b,
        hex_of(b).len() == 2 * b.len(),
{
    let s = hex_of(b);
    assert forall|i: int| 0 <= i < s.len() implies (#[trigger] digit_value(s[i])) is Some by {
        if i % 2 == 0 {
            lemma_digit_roundtrip(b[i / 2] as int / 16);
        } else {
            lemma_digit_roundtrip(b[i / 2] as int % 16);
        }
    }
    assert forall|i: int| 0 <= i < b.len() implies unhex(s)[i] == b[i] by {
        lemma_digit_roundtrip(b[i] as int / 16);
        lemma_digit_roundtrip(b[i] as int % 16);
        assert(s[2 * i] == hex_digit(b[i] as int / 16));
        assert(s[2 * i + 1] == hex_digit(b[i] as int % 16));
    }
    assert(unhex(s) =~= b);
}

/// Writes `bytes` as lower-case hexadecimal text.
pub fn to_hex(bytes: &Vec<u8>) -> (out: String)
    ensures
        out@ == hex_of(bytes@),
{
    let table = "0123456789abcdef";
    proof {
        reveal_strlit("0123456789abcdef");
    }
    let mut out = String::new();
    let mut i: usize = 0;
    while i < bytes.len()
        invariant
            i <= bytes.len(),
            table@ == "0123456789abcdef"@,
            table@.len() == 16,
            out@ == hex_of(bytes@.take(i as int)),
        decreases bytes.len() - i,
    {
        let hi: usize = (bytes[i] / 16) as usize;
        let lo: usize = (bytes[i] % 16) as usize;
        let ghost prev = out@;
        out.append(table.substring_char(hi, hi + 1));
        out.append(table.substring_char(lo, lo + 1));
        proof {
            let now = bytes@.take(i + 1);
            let before = bytes@.take(i as int);
            assert(out@ == prev + table@.subrange(hi as int, hi + 1) + table@.subrange(
                lo as int,
                lo + 1,
            ));
            assert forall|k: int| 0 <= k < 2 * (i + 1) implies out@[k] == hex_of(now)[k] by {
                if k < 2 * i {
                    assert(before[k / 2] == now[k / 2]);
                    assert(out@[k] == hex_of(before)[k]);
                } else {
                    assert(now[k / 2] == bytes@[i as int]);
                }
            }
            assert(out@ =~= hex_of(now));
        }
        i += 1;
    }
    assert(bytes@.take(i as int) == bytes@);
    out
}

/// What one digit stands for.
pub fn digit_of(c: char) -> (r: Option<u8>)
    ensures
        r is Some == digit_value(c) is Some,
        r matches Some(v) ==> digit_value(c) == Some(v as int) && v < 16,
{
    let n: u32 = c as u32;
    if 0x30 <= n && n <= 0x39 {
        Some((n - 0x30) as u8)
    } else if 0x61 <= n && n <= 0x66 {
        Some((n - 0x61 + 10) as u8)
    } else if 0x41 <= n && n <= 0x46 {
        Some((n - 0x41 + 10) as u8)
    } else {
        None
    }
}

/// Reads hexadecimal text back into bytes; `None` for text that is not an
/// even number of hexadecimal digits.
pub fn from_hex(text: &str) -> (r: Option<Vec<u8>>)
    ensures
        r is Some == is_hex(text@),
        r matches Some(b) ==> b@ == unhex(text@),
{
    let cs = chars_of(text);
    if cs.len() % 2 != 0 {
        return None;
    }
    let mut out: Vec<u8> = Vec::new();
    let mut i: usize = 0;
    while i < cs.len()
        invariant
            i <= cs.len(),
            i % 2 == 0,
            cs.len() % 2 == 0,
            cs@ == text@,
            out@.len() == i / 2,
            forall|k: int| 0 <= k < i ==> (#[trigger] digit_value(cs@[k])) is Some,
            forall|k: int| 0 <= k < out@.len() ==> out@[k] == unhex(cs@)[k],
        decreases cs.len() - i,
    {
        let hi = digit_of(cs[i]);
        let lo = digit_of(cs[i + 1]);
        match (hi, lo) {
            (Some(h), Some(l)) => {
                out.push(h * 16 + l);
            },
            _ => {
                assert(digit_value(cs@[i as int]) is None || digit_value(cs@[i + 1]) is None);
                return None;
            },
        }
        i += 2;
    }
    assert(out@ =~= unhex(cs@));
    Some(out)
}

} // verus!
