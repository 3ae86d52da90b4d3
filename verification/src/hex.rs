//! Hexadecimal notation of keys and device identities.

use vstd::prelude::*;
use vstd::string::*;
use crate::text;

verus! {

/// The lower case hexadecimal digit of a value below sixteen.
pub open spec fn hex_digit(d: nat) -> char {
    if d < 10 {
        (48 + d) as char
    } else {
        (87 + d) as char
    }
}

pub open spec fn is_hex_digit(c: char) -> bool {
    '0' <= c <= '9' || 'a' <= c <= 'f' || 'A' <= c <= 'F'
}

/// The value of a hexadecimal digit, of either case.
pub open spec fn hex_value(c: char) -> nat {
    if '0' <= c <= '9' {
        (c as nat - 48) as nat
    } else if 'a' <= c <= 'f' {
        (c as nat - 87) as nat
    } else {
        (c as nat - 55) as nat
    }
}

/// Two lower case digits for each byte.
pub open spec fn hex(bytes: Seq<u8>) -> Seq<char> {
    Seq::new(
        2 * bytes.len(),
        |i: int| hex_digit(if i % 2 == 0 { (bytes[i / 2] / 16) as nat } else { (bytes[i / 2] % 16) as nat }),
    )
}

/// All characters are hexadecimal digits.
pub open spec fn all_hex(s: Seq<char>) -> bool {
    forall|i: int| 0 <= i < s.len() ==> is_hex_digit(#[trigger] s[i])
}

/// The bytes written by pairs of hexadecimal digits.
pub open spec fn hex_bytes(s: Seq<char>) -> Seq<u8> {
    Seq::new(s.len() / 2, |i: int| (hex_value(s[2 * i]) * 16 + hex_value(s[2 * i + 1])) as u8)
}

/// Exactly `n` bytes in hexadecimal notation, white space around it ignored.
pub open spec fn parse_hex(s: Seq<char>, n: nat) -> Option<Seq<u8>> {
    let t = text::trim(s);
    if t.len() == 2 * n && all_hex(t) {
        Some(hex_bytes(t))
    } else {
        None
    }
}

pub(crate) proof fn lemma_hex_digit(d: nat)
    requires
        d < 16,
    ensures
        is_hex_digit(hex_digit(d)),
        hex_value(hex_digit(d)) == d,
        !text::is_space(hex_digit(d)),
{
}

/// Reading the hexadecimal notation of some bytes gives the bytes.
pub proof fn lemma_hex_round_trip(bytes: Seq<u8>)
    ensures
        parse_hex(hex(bytes), bytes.len()) == Some(bytes),
{
    let h = hex(bytes);
    assert forall|i: int| 0 <= i < h.len() implies is_hex_digit(#[trigger] h[i])
        && !text::is_space(h[i]) by {
        lemma_hex_digit(if i % 2 == 0 { (bytes[i / 2] / 16) as nat } else { (bytes[i / 2] % 16) as nat });
    }
    text::lemma_trim_nothing(h);
    assert forall|i: int| 0 <= i < bytes.len() implies #[trigger] hex_bytes(h)[i] == bytes[i] by {
        assert((2 * i) % 2 == 0 && (2 * i) / 2 == i);
        assert((2 * i + 1) % 2 == 1 && (2 * i + 1) / 2 == i);
        lemma_hex_digit((bytes[i] / 16) as nat);
        lemma_hex_digit((bytes[i] % 16) as nat);
        assert(h[2 * i] == hex_digit((bytes[i] / 16) as nat));
        assert(h[2 * i + 1] == hex_digit((bytes[i] % 16) as nat));
    }
    assert(hex_bytes(h) =~= bytes);
}

fn hex_char(d: u8) -> (c: char)
    requires
        d < 16,
    ensures
        c == hex_digit(d as nat),
{
    if d < 10 {
        (48 + d) as char
    } else {
        (87 + d) as char
    }
}

fn is_hex_char(c: char) -> (r: bool)
    ensures
        r == is_hex_digit(c),
{
    ('0' <= c && c <= '9') || ('a' <= c && c <= 'f') || ('A' <= c && c <= 'F')
}

fn hex_char_value(c: char) -> (v: u8)
    requires
        is_hex_digit(c),
    ensures
        v == hex_value(c),
        v < 16,
{
    let n: u32 = c as u32;
    if n <= 57 {
        (n - 48) as u8
    } else if n >= 97 {
        (n - 87) as u8
    } else {
        (n - 55) as u8
    }
}

/// Whether all characters are hexadecimal digits.
pub fn check_hex(s: &[char]) -> (r: bool)
    ensures
        r == all_hex(s@),
{
    let mut i: usize = 0;
    while i < s.len()
        invariant
            i <= s@.len(),
            forall|j: int| 0 <= j < i ==> is_hex_digit(#[trigger] s@[j]),
        decreases s@.len() - i,
    {
        if !is_hex_char(s[i]) {
            assert(!is_hex_digit(s@[i as int]));
            return false;
        }
        i += 1;
    }
    true
}

/// Two lower case digits for each byte.
pub fn hex_string(bytes: &[u8]) -> (r: String)
    ensures
        r@ == hex(bytes@),
{
    let mut out = String::new();
    let mut i: usize = 0;
    while i < bytes.len()
        invariant
            i <= bytes@.len(),
            out@ == hex(bytes@.take(i as int)),
        decreases bytes@.len() - i,
    {
        out.push(hex_char(bytes[i] / 16));
        out.push(hex_char(bytes[i] % 16));
        i += 1;
        assert(out@ =~= hex(bytes@.take(i as int)));
    }
    assert(bytes@.take(i as int) =~= bytes@);
    out
}

/// Reads exactly `n` bytes; `None` when the text is anything but `2 * n` hexadecimal digits.
pub fn hex_parse(value: &str, n: usize) -> (r: Option<Vec<u8>>)
    requires
        n < 0x1000_0000,
    ensures
        match r {
            Some(bytes) => parse_hex(value@, n as nat) == Some(bytes@),
            None => parse_hex(value@, n as nat) is None,
        },
{
    let all = text::chars_of(value);
    let chars = text::trimmed(all.as_slice());
    if chars.len() != 2 * n {
        return None;
    }
    if !check_hex(chars.as_slice()) {
        return None;
    }
    let mut out: Vec<u8> = Vec::with_capacity(n);
    let mut k: usize = 0;
    while k < n
        invariant
            k <= n,
            n < 0x1000_0000,
            chars@.len() == 2 * n,
            all_hex(chars@),
            out@ == hex_bytes(chars@).take(k as int),
        decreases n - k,
    {
        let hi: u8 = hex_char_value(chars[2 * k]);
        let lo: u8 = hex_char_value(chars[2 * k + 1]);
        out.push(hi * 16 + lo);
        k += 1;
        assert(out@ =~= hex_bytes(chars@).take(k as int));
    }
    assert(out@ =~= hex_bytes(chars@));
    Some(out)
}

/// Bytes are written high digit first, in digits and small letters: below sixteen a byte begins
/// with a zero. They are read in either case of the letters.
pub proof fn lemma_either_case_is_read(b: u8, s: Seq<char>, n: nat)
    ensures
        b < 16 ==> hex(seq![b])[0] == '0',
        b < 10 ==> hex(seq![b])[1] == text::digit(b as nat),
        10 <= b < 16 ==> 'a' <= hex(seq![b])[1] <= 'f',
        parse_hex(s, n) is Some ==> parse_hex(text::lowered(text::trim(s)), n) == parse_hex(s, n),
{
    if parse_hex(s, n) is Some {
        let t = text::trim(s);
        let l = text::lowered(t);
        assert forall|i: int| 0 <= i < l.len() implies is_hex_digit(#[trigger] l[i])
            && !text::is_space(l[i]) && hex_value(l[i]) == hex_value(t[i]) by {
            assert(is_hex_digit(t[i]));
            lemma_lower_digit(t[i]);
        }
        if l.len() > 0 {
            assert(!text::is_space(l[0]) && !text::is_space(l[l.len() - 1]));
        }
        text::lemma_trim_nothing(l);
        assert(hex_bytes(l) =~= hex_bytes(t));
    }
}

proof fn lemma_lower_digit(c: char)
    requires
        is_hex_digit(c),
    ensures
        is_hex_digit(text::lower(c)),
        !text::is_space(text::lower(c)),
        hex_value(text::lower(c)) == hex_value(c),
{
}

} // verus!
