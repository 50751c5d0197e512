//! Colors written in hex, such as `#1a1b26` or `#ffffff0a`.
use vstd::prelude::*;
use vstd::utf8::{encode_utf8, is_ascii_chars, is_char_boundary};

use crate::text::{chars_of, string_from_chars};

verus! {

/// The value of a hex digit (either case).
pub open spec fn hex_digit_value(c: char) -> Option<int> {
    if '0' <= c && c <= '9' {
        Some(c as int - '0' as int)
    } else if 'a' <= c && c <= 'f' {
        Some(c as int - 'a' as int + 10)
    } else if 'A' <= c && c <= 'F' {
        Some(c as int - 'A' as int + 10)
    } else {
        None
    }
}

/// What `u8::from_str_radix(s, 16)` gives for a two-character `s`: an
/// optional `+` followed by hex digits, and nothing else.
pub open spec fn hex_pair_value(s: Seq<char>) -> Option<u8> {
    if s.len() != 2 {
        None
    } else if s[0] == '+' {
        match hex_digit_value(s[1]) {
            Some(d) => Some(d as u8),
            None => None,
        }
    } else {
        match (hex_digit_value(s[0]), hex_digit_value(s[1])) {
            (Some(a), Some(b)) => Some((16 * a + b) as u8),
            _ => None,
        }
    }
}

/// The value of a hex digit.
fn hex_digit(c: char) -> (r: Option<u8>)
    ensures
        r == match hex_digit_value(c) {
            Some(v) => Some(v as u8),
            None => None::<u8>,
        },
{
    let v = c as u32;
    if '0' <= c && c <= '9' {
        Some((v - ('0' as u32)) as u8)
    } else if 'a' <= c && c <= 'f' {
        Some((v - ('a' as u32) + 10) as u8)
    } else if 'A' <= c && c <= 'F' {
        Some((v - ('A' as u32) + 10) as u8)
    } else {
        None
    }
}

/// Parses a two-character string as a hex byte, as `u8::from_str_radix(s,
/// 16)` does: an optional `+` followed by hex digits.
fn hex_byte(s: &str) -> (r: Option<u8>)
    requires
        s@.len() == 2,
    ensures
        r == hex_pair_value(s@),
{
    let cs = chars_of(s);
    if cs[0] == '+' {
        hex_digit(cs[1])
    } else {
        match (hex_digit(cs[0]), hex_digit(cs[1])) {
            (Some(a), Some(b)) => {
                assert(a < 16 && b < 16);
                Some(16 * a + b)
            },
            _ => None,
        }
    }
}

/// `s` without its leading run of `#`.
pub open spec fn trim_hashes(s: Seq<char>) -> Seq<char>
    decreases s.len(),
{
    if s.len() > 0 && s[0] == '#' {
        trim_hashes(s.drop_first())
    } else {
        s
    }
}

/// The text after the leading `#`s can be cut into byte pairs without
/// cutting a character, where it is `n` pairs long. (Where it cannot,
/// slicing it panics.)
pub open spec fn pairs_fit(hex: Seq<char>, n: int) -> bool {
    let b = encode_utf8(trim_hashes(hex));
    b.len() == 2 * n ==> forall|k: int| 0 < k < n ==> #[trigger] is_char_boundary(b, 2 * k)
}

/// Byte `k` of a hex color (characters `2k` and `2k + 1`).
pub open spec fn hex_pair_at(t: Seq<char>, k: int) -> Option<u8> {
    hex_pair_value(t.subrange(2 * k, 2 * k + 2))
}

/// The (r, g, b) a six-digit hex color denotes, after any leading `#`s.
pub open spec fn hex_rgb(hex: Seq<char>) -> Option<(u8, u8, u8)> {
    let t = trim_hashes(hex);
    if t.len() == 6 && is_ascii_chars(t) {
        match (hex_pair_at(t, 0), hex_pair_at(t, 1), hex_pair_at(t, 2)) {
            (Some(r), Some(g), Some(b)) => Some((r, g, b)),
            _ => None,
        }
    } else {
        None
    }
}

/// The (r, g, b, a) a six- or eight-digit hex color denotes, after any
/// leading `#`s; six digits are opaque.
pub open spec fn hex_rgba(hex: Seq<char>) -> Option<(u8, u8, u8, u8)> {
    let t = trim_hashes(hex);
    if t.len() == 6 && is_ascii_chars(t) {
        match (hex_pair_at(t, 0), hex_pair_at(t, 1), hex_pair_at(t, 2)) {
            (Some(r), Some(g), Some(b)) => Some((r, g, b, 255u8)),
            _ => None,
        }
    } else if t.len() == 8 && is_ascii_chars(t) {
        match (hex_pair_at(t, 0), hex_pair_at(t, 1), hex_pair_at(t, 2), hex_pair_at(t, 3)) {
            (Some(r), Some(g), Some(b), Some(a)) => Some((r, g, b, a)),
            _ => None,
        }
    } else {
        None
    }
}

proof fn lemma_ascii_push(s: Seq<char>, c: char)
    ensures
        is_ascii_chars(s.push(c)) == (is_ascii_chars(s) && '\0' <= c && c <= '\u{7f}'),
{
    let t = s.push(c);
    assert(t[s.len() as int] == c);
    if is_ascii_chars(t) {
        assert forall|i: int| 0 <= i < s.len() implies '\0' <= #[trigger] s[i] <= '\u{7f}' by {
            assert(t[i] == s[i]);
        }
    }
    if is_ascii_chars(s) && '\0' <= c && c <= '\u{7f}' {
        assert forall|i: int| 0 <= i < t.len() implies '\0' <= #[trigger] t[i] <= '\u{7f}' by {
            if i < s.len() {
                assert(t[i] == s[i]);
            }
        }
    }
}

/// The characters of `hex` after its leading `#`s, and whether they are
/// all ASCII.
fn trimmed_digits(hex: &str) -> (r: (Vec<char>, bool))
    ensures
        r.0@ == trim_hashes(hex@),
        r.1 == is_ascii_chars(r.0@),
{
    let all = chars_of(hex);
    let mut k: usize = 0;
    proof {
        assert(all@.skip(0) == all@);
    }
    while k < all.len() && all[k] == '#'
        invariant
            k <= all@.len(),
            trim_hashes(all@.skip(k as int)) == trim_hashes(hex@),
            all@ == hex@,
        decreases all@.len() - k,
    {
        proof {
            assert(all@.skip(k as int).drop_first() == all@.skip(k + 1));
        }
        k += 1;
    }
    let mut t: Vec<char> = Vec::new();
    let mut ascii = true;
    let mut i = k;
    while i < all.len()
        invariant
            k <= i <= all@.len(),
            t@ == all@.subrange(k as int, i as int),
            ascii == is_ascii_chars(t@),
        decreases all@.len() - i,
    {
        let c = all[i];
        if !('\0' <= c && c <= '\u{7f}') {
            ascii = false;
        }
        proof {
            lemma_ascii_push(t@, c);
            assert(all@.subrange(k as int, i + 1) == all@.subrange(k as int, i as int).push(c));
        }
        t.push(c);
        i += 1;
    }
    proof {
        assert(all@.subrange(k as int, all@.len() as int) == all@.skip(k as int));
    }
    (t, ascii)
}

/// Byte `k` of the digits in `t`.
fn pair_at(t: &Vec<char>, k: usize) -> (r: Option<u8>)
    requires
        2 * k + 2 <= t@.len(),
    ensures
        r == hex_pair_at(t@, k as int),
{
    let n: usize = t.len();
    proof {
        assert(2 * k + 2 <= n);
    }
    let i: usize = 2 * k;
    let mut two: Vec<char> = Vec::new();
    two.push(t[i]);
    two.push(t[i + 1]);
    proof {
        assert(two@ == t@.subrange(2 * k, 2 * k + 2));
    }
    let s = string_from_chars(&two);
    hex_byte(s.as_str())
}

/// Parses a six-digit hex color such as `#1a1b26`.
pub fn parse_hex_rgb(hex: &str) -> (r: Option<(u8, u8, u8)>)
    requires
        pairs_fit(hex@, 3),
    ensures
        r == hex_rgb(hex@),
{
    let (t, ascii) = trimmed_digits(hex);
    if t.len() != 6 || !ascii {
        return None;
    }
    let r = pair_at(&t, 0);
    let g = pair_at(&t, 1);
    let b = pair_at(&t, 2);
    match (r, g, b) {
        (Some(r), Some(g), Some(b)) => Some((r, g, b)),
        _ => None,
    }
}

/// Parses a six- or eight-digit hex color such as `#1a1b26` or
/// `#ffffff0a`; six digits are opaque.
pub fn parse_hex_rgba(hex: &str) -> (r: Option<(u8, u8, u8, u8)>)
    requires
        pairs_fit(hex@, 3),
        pairs_fit(hex@, 4),
    ensures
        r == hex_rgba(hex@),
{
    let (t, ascii) = trimmed_digits(hex);
    if !ascii {
        return None;
    }
    if t.len() == 6 {
        match (pair_at(&t, 0), pair_at(&t, 1), pair_at(&t, 2)) {
            (Some(r), Some(g), Some(b)) => Some((r, g, b, 255u8)),
            _ => None,
        }
    } else if t.len() == 8 {
        match (pair_at(&t, 0), pair_at(&t, 1), pair_at(&t, 2), pair_at(&t, 3)) {
            (Some(r), Some(g), Some(b), Some(a)) => Some((r, g, b, a)),
            _ => None,
        }
    } else {
        None
    }
}

} // verus!
