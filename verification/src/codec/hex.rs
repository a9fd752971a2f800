//! Binary digests written as lowercase hexadecimal text.

use crate::text::{all_ascii, ascii_chars, ascii_text};
use vstd::prelude::*;
use vstd::string::*;

verus! {

/// The lowercase hexadecimal digit for a value below sixteen.
pub open spec fn hex_digit(n: int) -> u8 {
    if n < 10 {
        (48 + n) as u8
    } else {
        (87 + n) as u8
    }
}

/// Two lowercase hexadecimal digits for each byte, the high half first.
pub open spec fn hex_bytes(bytes: Seq<u8>) -> Seq<u8> {
    Seq::new(
        2 * bytes.len(),
        |i: int|
            hex_digit(
                if i % 2 == 0 {
                    bytes[i / 2] as int / 16
                } else {
                    bytes[i / 2] as int % 16
                },
            ),
    )
}

/// The lowercase hexadecimal text of `bytes`.
pub open spec fn hex_text(bytes: Seq<u8>) -> Seq<char> {
    ascii_chars(hex_bytes(bytes))
}

/// `c` is a digit or one of the letters `a` to `f`.
pub open spec fn is_hex_char(c: char) -> bool {
    48 <= c as int <= 57 || 97 <= c as int <= 102
}

/// `t` is lowercase hexadecimal text for a whole number of bytes.
pub open spec fn is_hex_text(t: Seq<char>) -> bool {
    &&& t.len() % 2 == 0
    &&& forall|i: int| 0 <= i < t.len() ==> is_hex_char(#[trigger] t[i])
}

/// The value of a hexadecimal digit.
pub open spec fn hex_value(c: char) -> int {
    if c as int <= 57 {
        c as int - 48
    } else {
        c as int - 87
    }
}

/// The bytes that hexadecimal text stands for.
pub open spec fn unhex(t: Seq<char>) -> Seq<u8> {
    Seq::new(t.len() / 2, |i: int| (16 * hex_value(t[2 * i]) + hex_value(t[2 * i + 1])) as u8)
}

/// Hexadecimal text is twice as long as its bytes, is lowercase hexadecimal,
/// and stands for the bytes it was written from.
pub proof fn lemma_hex_text(bytes: Seq<u8>)
    ensures
        hex_text(bytes).len() == 2 * bytes.len(),
        all_ascii(hex_bytes(bytes)),
        is_hex_text(hex_text(bytes)),
        unhex(hex_text(bytes)) == bytes,
{
    let t = hex_text(bytes);
    assert(all_ascii(hex_bytes(bytes)));
    assert forall|i: int| 0 <= i < t.len() implies is_hex_char(#[trigger] t[i]) by {
        let b = hex_bytes(bytes)[i];
        assert(t[i] == b as char);
        assert(48 <= b <= 57 || 97 <= b <= 102);
    }
    assert(unhex(t) =~= bytes) by {
        assert forall|i: int| 0 <= i < bytes.len() implies unhex(t)[i] == bytes[i] by {
            let hi = hex_bytes(bytes)[2 * i];
            let lo = hex_bytes(bytes)[2 * i + 1];
            assert(t[2 * i] == hi as char);
            assert(t[2 * i + 1] == lo as char);
            assert(hex_value(t[2 * i]) == bytes[i] as int / 16);
            assert(hex_value(t[2 * i + 1]) == bytes[i] as int % 16);
        }
    }
}

/// Hexadecimal text is written back from the bytes that it stands for.
pub proof fn lemma_unhex(t: Seq<char>)
    requires
        is_hex_text(t),
    ensures
        unhex(t).len() * 2 == t.len(),
        hex_text(unhex(t)) == t,
{
    let b = unhex(t);
    assert(hex_text(b) =~= t) by {
        assert forall|i: int| 0 <= i < t.len() implies hex_text(b)[i] == t[i] by {
            let k = i / 2;
            assert(is_hex_char(t[2 * k]));
            assert(is_hex_char(t[2 * k + 1]));
            let v = 16 * hex_value(t[2 * k]) + hex_value(t[2 * k + 1]);
            assert(0 <= v < 256);
            assert(b[k] == v as u8);
            assert(v / 16 == hex_value(t[2 * k]));
            assert(v % 16 == hex_value(t[2 * k + 1]));
            assert(is_hex_char(t[i]));
            assert(hex_bytes(b)[i] as char == t[i]);
        }
    }
}

/// The lowercase hexadecimal digit for the low half of `n`.
fn digit(n: u8) -> (d: u8)
    requires
        n < 16,
    ensures
        d == hex_digit(n as int),
{
    if n < 10 {
        48 + n
    } else {
        87 + n
    }
}

/// The value of the hexadecimal digit `b`, if it is one.
fn value(b: u8) -> (v: Option<u8>)
    ensures
        match v {
            Some(n) => is_hex_char(b as char) && n == hex_value(b as char),
            None => !is_hex_char(b as char),
        },
{
    if 48 <= b && b <= 57 {
        Some(b - 48)
    } else if 97 <= b && b <= 102 {
        Some(b - 87)
    } else {
        None
    }
}

/// Writes `bytes` as lowercase hexadecimal text.
pub fn encode(bytes: &[u8]) -> (text: String)
    ensures
        text@ == hex_text(bytes@),
{
    let mut out: Vec<u8> = Vec::new();
    let mut i: usize = 0;
    while i < bytes.len()
        invariant
            0 <= i <= bytes@.len(),
            out@ == hex_bytes(bytes@.take(i as int)),
        decreases bytes@.len() - i,
    {
        let b = bytes[i];
        out.push(digit(b / 16));
        out.push(digit(b % 16));
        assert(out@ =~= hex_bytes(bytes@.take(i + 1)));
        i += 1;
    }
    proof {
        assert(bytes@.take(i as int) =~= bytes@);
        lemma_hex_text(bytes@);
    }
    ascii_text(out)
}

/// Reads lowercase hexadecimal text back into the bytes that it stands for.
pub fn decode(text: &str) -> (r: Option<Vec<u8>>)
    ensures
        match r {
            Some(bytes) => is_hex_text(text@) && bytes@ == unhex(text@),
            None => !is_hex_text(text@),
        },
{
    if !text.is_ascii() {
        proof {
            let i = choose|i: int|
                0 <= i < text@.len() && !('\0' <= #[trigger] text@[i] <= '\u{7f}');
            assert(!is_hex_char(text@[i]));
        }
        return None;
    }
    let raw = text.as_bytes();
    proof {
        is_ascii_spec_bytes(text);
        vstd::utf8::is_ascii_chars_nat_bound(text@);
    }
    assert(raw@.len() == text@.len());
    assert forall|j: int| 0 <= j < raw@.len() implies (#[trigger] raw@[j]) as char == text@[j] by {
        assert(raw@[j] == text@[j] as u8);
        assert((text@[j] as nat) < 128);
    }
    if raw.len() % 2 != 0 {
        return None;
    }
    let mut out: Vec<u8> = Vec::new();
    let mut i: usize = 0;
    while i < raw.len()
        invariant
            0 <= i <= raw@.len(),
            i % 2 == 0,
            raw@.len() % 2 == 0,
            raw@.len() == text@.len(),
            forall|j: int| 0 <= j < raw@.len() ==> (#[trigger] raw@[j]) as char == text@[j],
            forall|j: int| 0 <= j < i ==> is_hex_char(#[trigger] text@[j]),
            out@ == unhex(text@.take(i as int)),
        decreases raw@.len() - i,
    {
        let hi = raw[i];
        let lo = raw[i + 1];
        assert(hi as char == text@[i as int]);
        assert(lo as char == text@[i + 1]);
        match (value(hi), value(lo)) {
            (Some(h), Some(l)) => {
                out.push(16 * h + l);
                assert(out@ =~= unhex(text@.take(i + 2)));
                i += 2;
            },
            _ => {
                return None;
            },
        }
    }
    assert(text@.take(i as int) =~= text@);
    Some(out)
}

} // verus!
