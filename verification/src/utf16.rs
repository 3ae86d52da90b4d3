//! The UTF-16 form of text, in which a console hands over what is typed.

use vstd::prelude::*;
use vstd::string::*;
use crate::text;

verus! {

/// `char::from_u32` gives the character of a Unicode scalar value: any number up to 0x10ffff that
/// is no surrogate.
pub assume_specification[ char::from_u32 ](i: u32) -> (r: Option<char>)
    ensures
        r == if 0xd800 <= i <= 0xdfff || i > 0x10ffff {
            None::<char>
        } else {
            Some(i as char)
        },
;

/// The character that stands for what cannot be read.
pub const REPLACEMENT: char = '\u{fffd}';

/// The one or two units of a character.
pub open spec fn units(c: char) -> Seq<u16> {
    let n = c as u32;
    if n < 0x10000 {
        seq![n as u16]
    } else {
        let rest = n - 0x10000;
        seq![(0xd800 + rest / 0x400) as u16, (0xdc00 + rest % 0x400) as u16]
    }
}

/// The units of a text.
pub open spec fn encoded(s: Seq<char>) -> Seq<u16>
    decreases s.len(),
{
    if s.len() == 0 {
        Seq::empty()
    } else {
        units(s[0]) + encoded(s.drop_first())
    }
}

pub open spec fn is_high(unit: u16) -> bool {
    0xd800 <= unit < 0xdc00
}

pub open spec fn is_low(unit: u16) -> bool {
    0xdc00 <= unit < 0xe000
}

/// The character at the beginning of some units, and how many of them it takes. A unit that
/// belongs to no character is read as the replacement character.
pub open spec fn first_char(w: Seq<u16>) -> (char, int) {
    if !is_high(w[0]) && !is_low(w[0]) {
        (w[0] as char, 1)
    } else if is_high(w[0]) && w.len() > 1 && is_low(w[1]) {
        ((0x10000 + (w[0] - 0xd800) * 0x400 + (w[1] - 0xdc00)) as char, 2)
    } else {
        (REPLACEMENT, 1)
    }
}

/// The text of some units.
pub open spec fn decoded(w: Seq<u16>) -> Seq<char>
    decreases w.len(),
{
    if w.len() == 0 {
        Seq::empty()
    } else {
        seq![first_char(w).0] + decoded(w.skip(first_char(w).1))
    }
}

/// The units of a text.
pub fn encode_utf16(s: &str) -> (r: Vec<u16>)
    ensures
        r@ == encoded(s@),
{
    let chars = text::chars_of(s);
    let mut out: Vec<u16> = Vec::new();
    let mut i: usize = 0;
    assert(chars@.skip(0) =~= chars@);
    while i < chars.len()
        invariant
            i <= chars@.len(),
            encoded(chars@) == out@ + encoded(chars@.skip(i as int)),
        decreases chars@.len() - i,
    {
        let ghost before = out@;
        let n: u32 = chars[i] as u32;
        proof {
            assert(chars@.skip(i as int)[0] == chars@[i as int]);
            assert(chars@.skip(i as int).drop_first() =~= chars@.skip(i + 1));
        }
        if n < 0x10000 {
            out.push(n as u16);
        } else {
            let rest: u32 = n - 0x10000;
            out.push((0xd800 + rest / 0x400) as u16);
            out.push((0xdc00 + rest % 0x400) as u16);
        }
        assert(out@ =~= before + units(chars@[i as int]));
        i += 1;
        assert(encoded(chars@) =~= out@ + encoded(chars@.skip(i as int)));
    }
    assert(out@ + Seq::<u16>::empty() =~= out@);
    out
}

fn scalar(n: u32) -> (r: char)
    requires
        n < 0xd800 || 0xe000 <= n <= 0x10ffff,
    ensures
        r == n as char,
{
    match char::from_u32(n) {
        Some(c) => c,
        None => REPLACEMENT,
    }
}

/// The text of some units.
pub fn from_utf16_lossy(w: &[u16]) -> (r: String)
    ensures
        r@ == decoded(w@),
{
    let mut out = String::new();
    let mut i: usize = 0;
    assert(w@.skip(0) =~= w@);
    while i < w.len()
        invariant
            i <= w@.len(),
            decoded(w@) == out@ + decoded(w@.skip(i as int)),
        decreases w@.len() - i,
    {
        let ghost before = out@;
        let ghost rest = w@.skip(i as int);
        let unit: u16 = w[i];
        assert(rest[0] == unit);
        if unit < 0xd800 || unit >= 0xe000 {
            out.push(scalar(unit as u32));
            i += 1;
        } else if unit < 0xdc00 && i + 1 < w.len() && w[i + 1] >= 0xdc00 && w[i + 1] < 0xe000 {
            assert(rest[1] == w@[i + 1]);
            let n: u32 = 0x10000 + (unit as u32 - 0xd800) * 0x400 + (w[i + 1] as u32 - 0xdc00);
            out.push(scalar(n));
            i += 2;
        } else {
            if i + 1 < w.len() {
                assert(rest[1] == w@[i + 1]);
            }
            out.push(REPLACEMENT);
            i += 1;
        }
        proof {
            assert(rest.skip(first_char(rest).1) =~= w@.skip(i as int));
            assert(out@ =~= before + seq![first_char(rest).0]);
            assert(decoded(w@) =~= out@ + decoded(w@.skip(i as int)));
        }
    }
    assert(out@ + Seq::<char>::empty() =~= out@);
    out
}

proof fn lemma_first_char(c: char, rest: Seq<u16>)
    ensures
        first_char(units(c) + rest) == (c, units(c).len() as int),
{
    let w = units(c) + rest;
    let n = c as u32;
    assert(w[0] == units(c)[0]);
    if n >= 0x10000 {
        assert(w[1] == units(c)[1]);
        assert(n <= 0x10ffff);
        let m = n - 0x10000;
        assert(m / 0x400 < 0x400);
        assert(w[0] == 0xd800 + m / 0x400);
        assert(w[1] == 0xdc00 + m % 0x400);
    }
}

/// Text survives its UTF-16 form.
pub proof fn lemma_utf16_round_trip(s: Seq<char>)
    ensures
        decoded(encoded(s)) == s,
    decreases s.len(),
{
    if s.len() > 0 {
        let rest = s.drop_first();
        let w = encoded(s);
        lemma_utf16_round_trip(rest);
        lemma_first_char(s[0], encoded(rest));
        assert(w.skip(units(s[0]).len() as int) =~= encoded(rest));
        assert(seq![s[0]] + rest =~= s);
    } else {
        assert(s =~= Seq::<char>::empty());
    }
}

/// A unit that belongs to no character is shown as one replacement character, and what stands
/// before and behind it is read as it is.
pub proof fn lemma_lone_units_are_replaced(a: Seq<char>, unit: u16, b: Seq<char>)
    requires
        0xd800 <= unit <= 0xdfff,
        b.len() > 0 ==> (b[0] as u32) < 0x10000,
    ensures
        decoded(encoded(a) + seq![unit] + encoded(b)) == a + seq!['\u{fffd}'] + b,
    decreases a.len(),
{
    let w = encoded(a) + seq![unit] + encoded(b);
    if a.len() == 0 {
        assert(w =~= seq![unit] + encoded(b));
        if b.len() > 0 {
            lemma_first_char(b[0], encoded(b.drop_first()));
            assert(w[1] == units(b[0])[0]);
            lemma_unit_is_no_low(b[0]);
        }
        assert(first_char(w) == (REPLACEMENT, 1int));
        assert(w.skip(1) =~= encoded(b));
        lemma_utf16_round_trip(b);
        assert(a + seq![REPLACEMENT] + b =~= seq![REPLACEMENT] + b);
    } else {
        let rest = a.drop_first();
        let tail = encoded(rest) + seq![unit] + encoded(b);
        lemma_lone_units_are_replaced(rest, unit, b);
        assert(w =~= units(a[0]) + tail);
        lemma_first_char(a[0], tail);
        assert(w.skip(units(a[0]).len() as int) =~= tail);
        assert(seq![a[0]] + (rest + seq![REPLACEMENT] + b) =~= a + seq![REPLACEMENT] + b);
    }
}

proof fn lemma_unit_is_no_low(c: char)
    requires
        (c as u32) < 0x10000,
    ensures
        !is_low(units(c)[0]),
{
}

} // verus!
