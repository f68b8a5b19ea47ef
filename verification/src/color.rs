//! Colors of the disk map, read from `#rrggbb` text.

use vstd::prelude::*;
use crate::text::chars_of;

verus! {

/// An opaque RGB color (alpha is always full).
#[derive(Clone, Copy, Debug, PartialEq, Eq, Structural)]
pub struct Rgb {
    pub r: u8,
    pub g: u8,
    pub b: u8,
}

/// `s` without its leading `#` characters (`trim_start_matches('#')`).
pub open spec fn trim_hash(s: Seq<char>) -> Seq<char>
    decreases s.len(),
{
    if s.len() > 0 && s[0] == '#' { trim_hash(s.drop_first()) } else { s }
}

/// A character that UTF-8 encodes in one byte.
pub open spec fn is_ascii_char(c: char) -> bool {
    (c as u32) < 0x80
}

/// A character that UTF-8 encodes in two bytes.
pub open spec fn is_two_byte(c: char) -> bool {
    0x80 <= (c as u32) && (c as u32) < 0x800
}

/// The value of a hexadecimal digit (either case), if `c` is one.
pub open spec fn hex_digit(c: char) -> Option<nat> {
    if '0' <= c && c <= '9' {
        Some((c as int - '0' as int) as nat)
    } else if 'a' <= c && c <= 'f' {
        Some((c as int - 'a' as int + 10) as nat)
    } else if 'A' <= c && c <= 'F' {
        Some((c as int - 'A' as int + 10) as nat)
    } else {
        None
    }
}

/// What `u8::from_str_radix(s, 16)` gives for a two-character string: an
/// optional leading `+` (a lone `+` then a digit), else two hex digits.
pub open spec fn parse_hex_pair(c0: char, c1: char) -> Option<u8> {
    if c0 == '+' {
        match hex_digit(c1) {
            Some(d) => Some(d as u8),
            None => None,
        }
    } else {
        match (hex_digit(c0), hex_digit(c1)) {
            (Some(h), Some(l)) => Some((h * 16 + l) as u8),
            _ => None,
        }
    }
}

/// The text covers `n` two-byte slices from its start that each end on a
/// character boundary: each is two ASCII characters or one character that
/// encodes in two bytes. (Slicing at bytes 2, 4 and 6 panics otherwise.)
pub open spec fn pairs_ok(t: Seq<char>, n: nat) -> bool
    decreases n,
{
    if n == 0 {
        true
    } else if t.len() >= 2 && is_ascii_char(t[0]) && is_ascii_char(t[1]) {
        pairs_ok(t.skip(2), (n - 1) as nat)
    } else if t.len() >= 1 && is_two_byte(t[0]) {
        pairs_ok(t.skip(1), (n - 1) as nat)
    } else {
        false
    }
}

/// The byte values of the first `n` two-byte slices (a slice that is not
/// two hex digits reads as 0).
pub open spec fn pair_values(t: Seq<char>, n: nat) -> Seq<u8>
    decreases n,
{
    if n == 0 {
        seq![]
    } else if t.len() >= 2 && is_ascii_char(t[0]) && is_ascii_char(t[1]) {
        seq![
            match parse_hex_pair(t[0], t[1]) {
                Some(v) => v,
                None => 0u8,
            },
        ] + pair_values(t.skip(2), (n - 1) as nat)
    } else {
        seq![0u8] + pair_values(t.skip(1), (n - 1) as nat)
    }
}

/// The color `#rrggbb` names.
pub open spec fn hex_rgb(s: Seq<char>) -> Rgb {
    let v = pair_values(trim_hash(s), 3);
    Rgb { r: v[0], g: v[1], b: v[2] }
}

/// There are as many byte values as pairs.
proof fn lemma_pair_values_len(t: Seq<char>, n: nat)
    ensures
        pair_values(t, n).len() == n,
    decreases n,
{
    if n > 0 {
        lemma_pair_values_len(t.skip(2), (n - 1) as nat);
        lemma_pair_values_len(t.skip(1), (n - 1) as nat);
    }
}

/// A `#` and six ASCII characters, the first not another `#`, is a text the
/// color reader accepts.
pub proof fn lemma_hex_literal(s: Seq<char>)
    requires
        s.len() == 7,
        s[0] == '#',
        s[1] != '#',
        forall|i: int| 1 <= i < 7 ==> is_ascii_char(#[trigger] s[i]),
    ensures
        pairs_ok(trim_hash(s), 3),
{
    let t = s.drop_first();
    assert(trim_hash(t) == t);
    assert(trim_hash(s) == t);
    assert(t.skip(2).skip(2) =~= t.skip(4));
    assert(t.skip(4).skip(2).len() == 0);
    assert(is_ascii_char(t[0]) && is_ascii_char(t[1]));
    assert(is_ascii_char(t.skip(2)[0]) && is_ascii_char(t.skip(2)[1]));
    assert(is_ascii_char(t.skip(4)[0]) && is_ascii_char(t.skip(4)[1]));
    assert(pairs_ok(t.skip(4).skip(2), 0));
    assert(pairs_ok(t.skip(4), 1));
    assert(t.skip(2).skip(2) =~= t.skip(4));
    assert(pairs_ok(t.skip(2), 2));
    assert(pairs_ok(t, 3));
}

/// The value of a hexadecimal digit, if `c` is one.
fn hex_digit_exec(c: char) -> (r: Option<u8>)
    ensures
        match hex_digit(c) {
            Some(d) => r == Some(d as u8) && d < 16,
            None => r is None,
        },
{
    if '0' <= c && c <= '9' {
        Some((c as u32 - '0' as u32) as u8)
    } else if 'a' <= c && c <= 'f' {
        Some((c as u32 - 'a' as u32 + 10) as u8)
    } else if 'A' <= c && c <= 'F' {
        Some((c as u32 - 'A' as u32 + 10) as u8)
    } else {
        None
    }
}

/// The byte value of a pair of characters, 0 when they do not parse.
fn parse_hex_pair_exec(c0: char, c1: char) -> (r: u8)
    ensures
        r == match parse_hex_pair(c0, c1) {
            Some(v) => v,
            None => 0u8,
        },
{
    if c0 == '+' {
        match hex_digit_exec(c1) {
            Some(d) => d,
            None => 0,
        }
    } else {
        match (hex_digit_exec(c0), hex_digit_exec(c1)) {
            (Some(h), Some(l)) => h * 16 + l,
            _ => 0,
        }
    }
}

/// Reads `#rrggbb` (any number of leading `#`) as `slint::Color::from_rgb_u8`
/// of the three hex byte pairs, a pair that does not parse giving 0.
pub fn hex_color(hex: &str) -> (c: Rgb)
    requires
        pairs_ok(trim_hash(hex@), 3),
    ensures
        c == hex_rgb(hex@),
{
    let cs = chars_of(hex);
    let n = cs.len();
    let mut i: usize = 0;
    assert(cs@.skip(0) =~= cs@);
    while i < n && cs[i] == '#'
        invariant
            n == cs@.len(),
            i <= n,
            trim_hash(cs@) == trim_hash(cs@.skip(i as int)),
        decreases n - i,
    {
        assert(cs@.skip(i as int).drop_first() =~= cs@.skip(i + 1));
        i = i + 1;
    }
    assert(cs@.skip(0) =~= cs@);
    let ghost t = cs@.skip(i as int);
    assert(trim_hash(cs@) == t);
    let mut vals: Vec<u8> = Vec::new();
    let mut k: usize = 0;
    while k < 3
        invariant
            n == cs@.len(),
            i <= n,
            k <= 3,
            pairs_ok(cs@.skip(i as int), (3 - k) as nat),
            pair_values(t, 3) == vals@ + pair_values(cs@.skip(i as int), (3 - k) as nat),
        decreases 3 - k,
    {
        let ghost rest = cs@.skip(i as int);
        if i + 1 < n && (cs[i] as u32) < 0x80 && (cs[i + 1] as u32) < 0x80 {
            assert(rest[0] == cs@[i as int] && rest[1] == cs@[i + 1]);
            let v = parse_hex_pair_exec(cs[i], cs[i + 1]);
            assert(rest.skip(2) =~= cs@.skip(i + 2));
            vals.push(v);
            i = i + 2;
        } else {
            assert(rest[0] == cs@[i as int]);
            assert(rest.skip(1) =~= cs@.skip(i + 1));
            vals.push(0);
            i = i + 1;
        }
        k = k + 1;
        assert(pair_values(t, 3) =~= vals@ + pair_values(cs@.skip(i as int), (3 - k) as nat));
    }
    proof {
        lemma_pair_values_len(t, 3);
        assert(vals@ =~= pair_values(t, 3));
    }
    Rgb { r: vals[0], g: vals[1], b: vals[2] }
}

} // verus!
