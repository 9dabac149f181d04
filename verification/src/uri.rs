//! Percent escapes: `encodeURI`, `decodeURI` and their component forms, `escape` and `unescape`.
use vstd::prelude::*;
use crate::interp::{arg, arg_at, ErrorKind, Interp, Outcome, Value, World};
use crate::string;
use crate::string::Units;
use crate::text::push_units;

verus! {

// Hexadecimal digits

/// The value of a hexadecimal digit.
pub open spec fn hex_value(u: u16) -> Option<int> {
    if 0x30 <= u <= 0x39 {
        Some(u - 0x30)
    } else if 0x61 <= u <= 0x66 {
        Some(u - 0x61 + 10)
    } else if 0x41 <= u <= 0x46 {
        Some(u - 0x41 + 10)
    } else {
        None
    }
}

/// The capital hexadecimal digit of a value.
pub open spec fn hex_digit(n: int) -> u16 {
    if n < 10 {
        (0x30 + n) as u16
    } else {
        (0x41 + n - 10) as u16
    }
}

fn read_hex(u: u16) -> (r: Option<u16>)
    ensures
        match r {
            Some(d) => hex_value(u) == Some(d as int) && d < 16,
            None => hex_value(u) is None,
        },
{
    if 0x30 <= u && u <= 0x39 {
        Some(u - 0x30)
    } else if 0x61 <= u && u <= 0x66 {
        Some(u - 0x61 + 10)
    } else if 0x41 <= u && u <= 0x46 {
        Some(u - 0x41 + 10)
    } else {
        None
    }
}

fn write_hex(n: u32) -> (r: u16)
    requires
        n < 16,
    ensures
        r == hex_digit(n as int),
{
    if n < 10 {
        (0x30 + n) as u16
    } else {
        (0x41 + n - 10) as u16
    }
}

/// The number that a run of hexadecimal digits writes.
pub open spec fn hex_number(s: Units) -> Option<int>
    decreases s.len(),
{
    if s.len() == 0 {
        Some(0)
    } else {
        match (hex_number(s.drop_last()), hex_value(s.last())) {
            (Some(n), Some(d)) => Some(16 * n + d),
            _ => None,
        }
    }
}

/// The number that at most four digits write, from place `a` to place `b`.
fn parse_hex_units(s: &Vec<u16>, a: usize, b: usize) -> (r: Option<u16>)
    requires
        a <= b <= s@.len(),
        b - a <= 4,
    ensures
        match r {
            Some(n) => hex_number(s@.subrange(a as int, b as int)) == Some(n as int),
            None => hex_number(s@.subrange(a as int, b as int)) is None,
        },
{
    let mut value: u32 = 0;
    let mut j: usize = a;
    let mut bound: u32 = 1;
    assert(s@.subrange(a as int, a as int) =~= Seq::<u16>::empty());
    while j < b
        invariant
            a <= j <= b <= s@.len(),
            b - a <= 4,
            hex_number(s@.subrange(a as int, j as int)) == Some(value as int),
            value < bound,
            bound == if j - a == 0 {
                1u32
            } else if j - a == 1 {
                16u32
            } else if j - a == 2 {
                256u32
            } else if j - a == 3 {
                4096u32
            } else {
                65536u32
            },
        decreases b - j,
    {
        assert(s@.subrange(a as int, j + 1).drop_last() =~= s@.subrange(a as int, j as int));
        match read_hex(s[j]) {
            Some(d) => {
                value = value * 16 + d as u32;
                bound = bound * 16;
            },
            None => {
                proof {
                    lemma_bad_digit(s@.subrange(a as int, b as int), j - a);
                }
                return None;
            },
        }
        j += 1;
    }
    Some(value as u16)
}

proof fn lemma_bad_digit(s: Units, k: int)
    requires
        0 <= k < s.len(),
        hex_value(s[k]) is None,
    ensures
        hex_number(s) is None,
    decreases s.len(),
{
    if k < s.len() - 1 {
        lemma_bad_digit(s.drop_last(), k);
    }
}

// UTF-8

/// The octets of a code point.
pub open spec fn octets(cp: int) -> Seq<int> {
    if cp < 0x80 {
        seq![cp]
    } else if cp < 0x800 {
        seq![0xc0 + cp / 0x40, 0x80 + cp % 0x40]
    } else if cp < 0x10000 {
        seq![0xe0 + cp / 0x1000, 0x80 + cp / 0x40 % 0x40, 0x80 + cp % 0x40]
    } else {
        seq![
            0xf0 + cp / 0x40000,
            0x80 + cp / 0x1000 % 0x40,
            0x80 + cp / 0x40 % 0x40,
            0x80 + cp % 0x40,
        ]
    }
}

/// How many continuation octets a lead octet announces.
pub open spec fn continuations(b: int) -> Option<int> {
    if 0xc2 <= b <= 0xdf {
        Some(1)
    } else if 0xe0 <= b <= 0xef {
        Some(2)
    } else if 0xf0 <= b <= 0xf4 {
        Some(3)
    } else {
        None
    }
}

pub open spec fn continuation(b: int) -> bool {
    0x80 <= b < 0xc0
}

/// A code point that a sequence of so many continuation octets may write: neither an overlong
/// form, nor a surrogate, nor past the last code point.
pub open spec fn proper(cp: int, cont: int) -> bool {
    if cont == 1 {
        0x80 <= cp < 0x800
    } else if cont == 2 {
        0x800 <= cp < 0x10000 && !(0xd800 <= cp < 0xe000)
    } else {
        0x10000 <= cp <= 0x10ffff
    }
}

// Encoding

/// An octet as a percent escape.
pub open spec fn percent(b: int) -> Units {
    seq![0x25u16, hex_digit(b / 16), hex_digit(b % 16)]
}

pub open spec fn percents(b: Seq<int>) -> Units
    decreases b.len(),
{
    if b.len() == 0 {
        Seq::empty()
    } else {
        percent(b[0]) + percents(b.drop_first())
    }
}

/// Letters and digits.
pub open spec fn alphanumeric(c: int) -> bool {
    (0x30 <= c <= 0x39) || (0x41 <= c <= 0x5a) || (0x61 <= c <= 0x7a)
}

/// Characters that are never escaped: letters, digits and `-_.!~*'()`.
pub open spec fn unreserved(c: int) -> bool {
    alphanumeric(c) || c == 0x2d || c == 0x5f || c == 0x2e || c == 0x21 || c == 0x7e || c == 0x2a
        || c == 0x27 || c == 0x28 || c == 0x29
}

/// The characters that structure a URI: `;,/?:@&=+$#`.
pub open spec fn reserved(c: int) -> bool {
    c == 0x3b || c == 0x2c || c == 0x2f || c == 0x3f || c == 0x3a || c == 0x40 || c == 0x26 || c
        == 0x3d || c == 0x2b || c == 0x24 || c == 0x23
}

fn is_alphanumeric(c: u32) -> (r: bool)
    ensures
        r == alphanumeric(c as int),
{
    (0x30 <= c && c <= 0x39) || (0x41 <= c && c <= 0x5a) || (0x61 <= c && c <= 0x7a)
}

fn is_unreserved(c: u32) -> (r: bool)
    ensures
        r == unreserved(c as int),
{
    is_alphanumeric(c) || c == 0x2d || c == 0x5f || c == 0x2e || c == 0x21 || c == 0x7e || c
        == 0x2a || c == 0x27 || c == 0x28 || c == 0x29
}

fn is_reserved(c: u32) -> (r: bool)
    ensures
        r == reserved(c as int),
{
    c == 0x3b || c == 0x2c || c == 0x2f || c == 0x3f || c == 0x3a || c == 0x40 || c == 0x26 || c
        == 0x3d || c == 0x2b || c == 0x24 || c == 0x23
}

/// A code point as it stands in a URI; in a whole URI the reserved characters stand for themselves.
pub open spec fn code_point_encoded(cp: int, whole: bool) -> Units {
    if unreserved(cp) || (whole && reserved(cp)) {
        seq![cp as u16]
    } else {
        percents(octets(cp))
    }
}

/// Encode, from `p` on; a lone surrogate is malformed.
pub open spec fn uri_encoded(u: Units, whole: bool, p: int) -> Option<Units>
    decreases u.len() - p,
{
    if p < 0 || p >= u.len() {
        Some(Seq::empty())
    } else if !string::pair_at(u, p) && (string::high(u[p]) || string::low(u[p])) {
        None
    } else {
        match uri_encoded(u, whole, p + string::width_at(u, p)) {
            None => None,
            Some(rest) => Some(code_point_encoded(string::code_point(u, p), whole) + rest),
        }
    }
}

fn push_percent(out: &mut Vec<u16>, b: u32)
    requires
        b < 256,
    ensures
        final(out)@ == old(out)@ + percent(b as int),
{
    let ghost before = out@;
    out.push(0x25);
    out.push(write_hex(b / 16));
    out.push(write_hex(b % 16));
    assert(out@ =~= before + percent(b as int));
}

fn push_code_point(out: &mut Vec<u16>, cp: u32, whole: bool)
    requires
        cp <= 0x10ffff,
    ensures
        final(out)@ == old(out)@ + code_point_encoded(cp as int, whole),
{
    let ghost before = out@;
    proof {
        reveal_with_fuel(percents, 5);
    }
    if is_unreserved(cp) || (whole && is_reserved(cp)) {
        out.push(cp as u16);
        assert(out@ =~= before + code_point_encoded(cp as int, whole));
    } else if cp < 0x80 {
        push_percent(out, cp);
        assert(out@ =~= before + percents(octets(cp as int)));
    } else if cp < 0x800 {
        push_percent(out, 0xc0 + cp / 0x40);
        push_percent(out, 0x80 + cp % 0x40);
        assert(octets(cp as int).drop_first() =~= seq![0x80 + cp as int % 0x40]);
        assert(out@ =~= before + percents(octets(cp as int)));
    } else if cp < 0x10000 {
        push_percent(out, 0xe0 + cp / 0x1000);
        push_percent(out, 0x80 + cp / 0x40 % 0x40);
        push_percent(out, 0x80 + cp % 0x40);
        let ghost o = octets(cp as int);
        assert(o.drop_first() =~= seq![o[1], o[2]]);
        assert(o.drop_first().drop_first() =~= seq![o[2]]);
        assert(out@ =~= before + percents(o));
    } else {
        push_percent(out, 0xf0 + cp / 0x40000);
        push_percent(out, 0x80 + cp / 0x1000 % 0x40);
        push_percent(out, 0x80 + cp / 0x40 % 0x40);
        push_percent(out, 0x80 + cp % 0x40);
        let ghost o = octets(cp as int);
        assert(o.drop_first() =~= seq![o[1], o[2], o[3]]);
        assert(o.drop_first().drop_first() =~= seq![o[2], o[3]]);
        assert(o.drop_first().drop_first().drop_first() =~= seq![o[3]]);
        assert(out@ =~= before + percents(o));
    }
}

/// What is left to encode from `p` on, behind what has been written.
spec fn with_prefix(out: Units, rest: Option<Units>) -> Option<Units> {
    match rest {
        None => None,
        Some(r) => Some(out + r),
    }
}

/// Encode (sec-encodeuri-encode): per code point; a lone surrogate is a URIError (`None`).
pub fn uri_encode(u: &Vec<u16>, whole: bool) -> (r: Option<Vec<u16>>)
    ensures
        match r {
            Some(v) => uri_encoded(u@, whole, 0) == Some(v@),
            None => uri_encoded(u@, whole, 0) is None,
        },
{
    let mut out: Vec<u16> = Vec::new();
    let mut p: usize = 0;
    proof {
        match uri_encoded(u@, whole, 0) {
            Some(r) => {
                assert(out@ + r =~= r);
            },
            None => {},
        }
    }
    while p < u.len()
        invariant
            p <= u@.len(),
            uri_encoded(u@, whole, 0) == with_prefix(out@, uri_encoded(u@, whole, p as int)),
        decreases u@.len() - p,
    {
        let pair = u.len() - p > 1 && string::is_high(u[p]) && string::is_low(u[p + 1]);
        if !pair && (string::is_high(u[p]) || string::is_low(u[p])) {
            return None;
        }
        let cp: u32 = string::code_point_at(u, p);
        let ghost before = out@;
        push_code_point(&mut out, cp, whole);
        let next: usize = if pair {
            p + 2
        } else {
            p + 1
        };
        proof {
            match uri_encoded(u@, whole, next as int) {
                Some(r) => {
                    assert(out@ + r =~= before + (code_point_encoded(cp as int, whole) + r));
                },
                None => {},
            }
        }
        p = next;
    }
    assert(out@ + Seq::<u16>::empty() =~= out@);
    Some(out)
}

// Decoding

/// The octet of the escape at the start.
pub open spec fn octet(s: Units) -> Option<int> {
    if s.len() < 3 || s[0] != 0x25 {
        None
    } else {
        match (hex_value(s[1]), hex_value(s[2])) {
            (Some(h), Some(l)) => Some(16 * h + l),
            _ => None,
        }
    }
}

/// The code point that the escapes at the start write, from a lead octet that announces `cont`
/// continuation octets.
pub open spec fn sequence(s: Units, lead: int, cont: int) -> Option<int> {
    let b1 = octet(s.skip(3));
    let b2 = octet(s.skip(6));
    let b3 = octet(s.skip(9));
    if cont == 1 {
        match b1 {
            Some(b1) => if continuation(b1) {
                Some((lead - 0xc0) * 0x40 + (b1 - 0x80))
            } else {
                None
            },
            None => None,
        }
    } else if cont == 2 {
        match (b1, b2) {
            (Some(b1), Some(b2)) => if continuation(b1) && continuation(b2) {
                Some((lead - 0xe0) * 0x1000 + (b1 - 0x80) * 0x40 + (b2 - 0x80))
            } else {
                None
            },
            _ => None,
        }
    } else {
        match (b1, b2, b3) {
            (Some(b1), Some(b2), Some(b3)) => if continuation(b1) && continuation(b2)
                && continuation(b3) {
                Some(
                    (lead - 0xf0) * 0x40000 + (b1 - 0x80) * 0x1000 + (b2 - 0x80) * 0x40 + (b3
                        - 0x80),
                )
            } else {
                None
            },
            _ => None,
        }
    }
}

/// What the start of a URI stands for, and how many units it takes. In a whole URI an escape of a
/// reserved character keeps its text.
pub open spec fn decode_step(s: Units, whole: bool) -> Option<(Units, int)> {
    if s[0] != 0x25 {
        Some((seq![s[0]], 1))
    } else {
        match octet(s) {
            None => None,
            Some(b) => if b < 0x80 {
                if whole && reserved(b) {
                    Some((s.take(3), 3))
                } else {
                    Some((seq![b as u16], 3))
                }
            } else {
                match continuations(b) {
                    None => None,
                    Some(cont) => match sequence(s, b, cont) {
                        None => None,
                        Some(cp) => if proper(cp, cont) {
                            Some((string::encoded(cp), 3 + 3 * cont))
                        } else {
                            None
                        },
                    },
                }
            },
        }
    }
}

/// Decode.
pub open spec fn uri_decoded(s: Units, whole: bool) -> Option<Units>
    decreases s.len(),
{
    if s.len() == 0 {
        Some(Seq::empty())
    } else {
        match decode_step(s, whole) {
            None => None,
            Some(step) => if step.1 <= 0 || step.1 > s.len() {
                None
            } else {
                match uri_decoded(s.skip(step.1), whole) {
                    None => None,
                    Some(rest) => Some(step.0 + rest),
                }
            },
        }
    }
}

fn read_octet(u: &Vec<u16>, p: usize) -> (r: Option<u32>)
    requires
        p <= u@.len(),
    ensures
        match r {
            Some(b) => octet(u@.skip(p as int)) == Some(b as int) && b < 256 && p + 3 <= u@.len(),
            None => octet(u@.skip(p as int)) is None,
        },
{
    if u.len() - p < 3 || u[p] != 0x25 {
        return None;
    }
    match (read_hex(u[p + 1]), read_hex(u[p + 2])) {
        (Some(h), Some(l)) => Some(16 * h as u32 + l as u32),
        _ => None,
    }
}

/// One continuation octet, without its mark.
fn read_continuation(u: &Vec<u16>, p: usize) -> (r: Option<u32>)
    requires
        p <= u@.len(),
    ensures
        match r {
            Some(b) => octet(u@.skip(p as int)) == Some(b + 0x80) && b < 0x40 && p + 3 <= u@.len(),
            None => match octet(u@.skip(p as int)) {
                Some(b) => !continuation(b),
                None => true,
            },
        },
{
    match read_octet(u, p) {
        Some(b) => if 0x80 <= b && b < 0xc0 {
            Some(b - 0x80)
        } else {
            None
        },
        None => None,
    }
}

fn read_sequence(u: &Vec<u16>, p: usize, lead: u32, cont: u32) -> (r: Option<u32>)
    requires
        p + 3 <= u@.len(),
        continuations(lead as int) == Some(cont as int),
    ensures
        match r {
            Some(cp) => sequence(u@.skip(p as int), lead as int, cont as int) == Some(cp as int)
                && proper(cp as int, cont as int) && p + 3 + 3 * cont <= u@.len(),
            None => match sequence(u@.skip(p as int), lead as int, cont as int) {
                Some(cp) => !proper(cp, cont as int),
                None => true,
            },
        },
{
    let ghost s = u@.skip(p as int);
    let size: usize = u.len();
    assert(size == u@.len());
    assert(s.skip(3) =~= u@.skip(p + 3));
    assert(p + 6 <= u@.len() ==> s.skip(6) =~= u@.skip(p + 6));
    assert(p + 9 <= u@.len() ==> s.skip(9) =~= u@.skip(p + 9));
    let b1: u32 = match read_continuation(u, p + 3) {
        Some(b) => b,
        None => {
            return None;
        },
    };
    if cont == 1 {
        let cp: u32 = (lead - 0xc0) * 0x40 + b1;
        return if 0x80 <= cp && cp < 0x800 {
            Some(cp)
        } else {
            None
        };
    }
    let b2: u32 = match read_continuation(u, p + 6) {
        Some(b) => b,
        None => {
            return None;
        },
    };
    if cont == 2 {
        let cp: u32 = (lead - 0xe0) * 0x1000 + b1 * 0x40 + b2;
        return if 0x800 <= cp && cp < 0x10000 && !(0xd800 <= cp && cp < 0xe000) {
            Some(cp)
        } else {
            None
        };
    }
    let b3: u32 = match read_continuation(u, p + 9) {
        Some(b) => b,
        None => {
            return None;
        },
    };
    let cp: u32 = (lead - 0xf0) * 0x40000 + b1 * 0x1000 + b2 * 0x40 + b3;
    if 0x10000 <= cp && cp <= 0x10ffff {
        Some(cp)
    } else {
        None
    }
}

fn read_continuations(b: u32) -> (r: Option<u32>)
    ensures
        match r {
            Some(c) => continuations(b as int) == Some(c as int),
            None => continuations(b as int) is None,
        },
{
    if 0xc2 <= b && b <= 0xdf {
        Some(1)
    } else if 0xe0 <= b && b <= 0xef {
        Some(2)
    } else if 0xf0 <= b && b <= 0xf4 {
        Some(3)
    } else {
        None
    }
}

/// Writes what the text at `p` stands for, and gives the next place.
fn take_step(u: &Vec<u16>, p: usize, whole: bool, out: &mut Vec<u16>) -> (r: Option<usize>)
    requires
        p < u@.len(),
    ensures
        match r {
            Some(next) => p < next <= u@.len() && (match decode_step(u@.skip(p as int), whole) {
                Some(step) => step.1 == next - p && final(out)@ == old(out)@ + step.0,
                None => false,
            }),
            None => decode_step(u@.skip(p as int), whole) is None,
        },
{
    let ghost s = u@.skip(p as int);
    let ghost before = out@;
    let size: usize = u.len();
    assert(size == u@.len());
    if u[p] != 0x25 {
        out.push(u[p]);
        assert(out@ =~= before + seq![s[0]]);
        return Some(p + 1);
    }
    let b: u32 = match read_octet(u, p) {
        Some(b) => b,
        None => {
            return None;
        },
    };
    if b < 0x80 {
        if whole && is_reserved(b) {
            let text = string::cut(u, p, p + 3);
            push_units(out, &text);
            assert(text@ =~= s.take(3));
        } else {
            out.push(b as u16);
            assert(out@ =~= before + seq![b as u16]);
        }
        return Some(p + 3);
    }
    match read_continuations(b) {
        None => None,
        Some(cont) => match read_sequence(u, p, b, cont) {
            None => None,
            Some(cp) => {
                string::push_code_point(out, cp);
                Some(p + 3 + 3 * cont as usize)
            },
        },
    }
}

/// Decode (sec-decodeuri-decode): percent-escapes become octets, validated as strict UTF-8 per
/// sequence (a bad hex digit, truncated escape, stray continuation octet, overlong form, encoded
/// surrogate, or > U+10FFFF is a URIError -> None). In a whole URI an escape of a reserved
/// character keeps its original `%XX` text instead.
pub fn uri_decode(u: &Vec<u16>, whole: bool) -> (r: Option<Vec<u16>>)
    ensures
        match r {
            Some(v) => uri_decoded(u@, whole) == Some(v@),
            None => uri_decoded(u@, whole) is None,
        },
{
    let mut out: Vec<u16> = Vec::new();
    let mut p: usize = 0;
    assert(u@.skip(0) =~= u@);
    proof {
        match uri_decoded(u@, whole) {
            Some(r) => {
                assert(out@ + r =~= r);
            },
            None => {},
        }
    }
    while p < u.len()
        invariant
            p <= u@.len(),
            uri_decoded(u@, whole) == with_prefix(out@, uri_decoded(u@.skip(p as int), whole)),
        decreases u@.len() - p,
    {
        let ghost before = out@;
        match take_step(u, p, whole, &mut out) {
            None => {
                return None;
            },
            Some(next) => {
                proof {
                    assert(u@.skip(p as int).skip(next - p) =~= u@.skip(next as int));
                    let step = decode_step(u@.skip(p as int), whole).unwrap();
                    match uri_decoded(u@.skip(next as int), whole) {
                        Some(r) => {
                            assert(out@ + r =~= before + (step.0 + r));
                        },
                        None => {},
                    }
                }
                p = next;
            },
        }
    }
    assert(u@.skip(p as int) =~= Seq::<u16>::empty());
    assert(out@ + Seq::<u16>::empty() =~= out@);
    Some(out)
}

// Laws

proof fn lemma_hex_round_trip(n: int)
    requires
        0 <= n < 16,
    ensures
        hex_value(hex_digit(n)) == Some(n),
{
}

proof fn lemma_octet(b: int, rest: Units)
    requires
        0 <= b < 256,
    ensures
        octet(percent(b) + rest) == Some(b),
        (percent(b) + rest).skip(3) == rest,
        percent(b).len() == 3,
{
    let s = percent(b) + rest;
    assert(s[1] == hex_digit(b / 16) && s[2] == hex_digit(b % 16) && s[0] == 0x25);
    lemma_hex_round_trip(b / 16);
    lemma_hex_round_trip(b % 16);
    assert(s.skip(3) =~= rest);
}

/// Three octets and what follows them.
proof fn lemma_three_octets(x: int, y: int, z: int, rest: Units)
    requires
        0 <= x < 256,
        0 <= y < 256,
        0 <= z < 256,
    ensures
        ({
            let s = percent(x) + (percent(y) + (percent(z) + rest));
            &&& octet(s) == Some(x)
            &&& octet(s.skip(3)) == Some(y)
            &&& octet(s.skip(6)) == Some(z)
            &&& s.skip(9) == rest
            &&& s[0] == 0x25
        }),
{
    let r1 = percent(z) + rest;
    let r2 = percent(y) + r1;
    let s = percent(x) + r2;
    lemma_octet(x, r2);
    lemma_octet(y, r1);
    lemma_octet(z, rest);
    assert(s.skip(6) =~= s.skip(3).skip(3));
    assert(s.skip(9) =~= s.skip(6).skip(3));
}

proof fn lemma_step_one(cp: int, whole: bool, rest: Units)
    requires
        0 <= cp < 0x80,
        !unreserved(cp),
        !(whole && reserved(cp)),
    ensures
        percents(octets(cp)).len() == 3,
        decode_step(percents(octets(cp)) + rest, whole) == Some((string::encoded(cp), 3int)),
{
    let o = octets(cp);
    assert(o.drop_first() =~= Seq::<int>::empty());
    assert(percents(o.drop_first()) =~= Seq::<u16>::empty());
    assert(percents(o) =~= percent(cp));
    lemma_octet(cp, rest);
    assert((percent(cp) + rest)[0] == 0x25);
    assert(seq![cp as u16] =~= string::encoded(cp));
}

proof fn lemma_step_two(cp: int, whole: bool, rest: Units)
    requires
        0x80 <= cp < 0x800,
    ensures
        percents(octets(cp)).len() == 6,
        decode_step(percents(octets(cp)) + rest, whole) == Some((string::encoded(cp), 6int)),
{
    let o = octets(cp);
    let o1 = o.drop_first();
    assert(o1 =~= seq![o[1]]);
    assert(o1.drop_first() =~= Seq::<int>::empty());
    assert(percents(o1.drop_first()) =~= Seq::<u16>::empty());
    assert(percents(o1) =~= percent(o[1]));
    assert(percents(o) =~= percent(o[0]) + percent(o[1]));
    let s = percents(o) + rest;
    let r1 = percent(o[1]) + rest;
    assert(s =~= percent(o[0]) + r1);
    lemma_octet(o[0], r1);
    lemma_octet(o[1], rest);
    assert(s[0] == 0x25);
    assert((o[0] - 0xc0) * 0x40 + (o[1] - 0x80) == cp);
}

proof fn lemma_step_three(cp: int, whole: bool, rest: Units)
    requires
        0x800 <= cp < 0x10000,
        !(0xd800 <= cp < 0xe000),
    ensures
        percents(octets(cp)).len() == 9,
        decode_step(percents(octets(cp)) + rest, whole) == Some((string::encoded(cp), 9int)),
{
    let o = octets(cp);
    let o1 = o.drop_first();
    let o2 = o1.drop_first();
    assert(o1 =~= seq![o[1], o[2]]);
    assert(o2 =~= seq![o[2]]);
    assert(o2.drop_first() =~= Seq::<int>::empty());
    assert(percents(o2.drop_first()) =~= Seq::<u16>::empty());
    assert(percents(o2) =~= percent(o[2]));
    assert(percents(o1) =~= percent(o[1]) + percent(o[2]));
    assert(percents(o) =~= percent(o[0]) + (percent(o[1]) + percent(o[2])));
    let s = percents(o) + rest;
    assert(s =~= percent(o[0]) + (percent(o[1]) + (percent(o[2]) + rest)));
    lemma_three_octets(o[0], o[1], o[2], rest);
    assert((o[0] - 0xe0) * 0x1000 + (o[1] - 0x80) * 0x40 + (o[2] - 0x80) == cp);
}

/// The octets of a code point beyond the basic plane hold its bits.
proof fn lemma_four_octets(cp: int)
    requires
        0x10000 <= cp <= 0x10ffff,
    ensures
        ({
            let o = octets(cp);
            &&& o.len() == 4
            &&& 0xf0 <= o[0] <= 0xf4
            &&& continuation(o[1]) && continuation(o[2]) && continuation(o[3])
            &&& (o[0] - 0xf0) * 0x40000 + (o[1] - 0x80) * 0x1000 + (o[2] - 0x80) * 0x40 + (o[3]
                - 0x80) == cp
        }),
{
    assert(cp / 0x1000 == cp / 0x40000 * 0x40 + cp / 0x1000 % 0x40);
    assert(cp / 0x40 == cp / 0x1000 * 0x40 + cp / 0x40 % 0x40);
}

proof fn lemma_four_percents(o: Seq<int>, rest: Units)
    requires
        o.len() == 4,
    ensures
        percents(o).len() == 12,
        percents(o) + rest == percent(o[0]) + (percent(o[1]) + (percent(o[2]) + (percent(o[3])
            + rest))),
{
    let o1 = o.drop_first();
    let o2 = o1.drop_first();
    let o3 = o2.drop_first();
    assert(percents(o3.drop_first()) =~= Seq::<u16>::empty());
    assert(percents(o3) =~= percent(o[3]));
    assert(percents(o2) =~= percent(o[2]) + percent(o[3]));
    assert(percents(o1) =~= percent(o[1]) + (percent(o[2]) + percent(o[3])));
    assert(percents(o) =~= percent(o[0]) + (percent(o[1]) + (percent(o[2]) + percent(o[3]))));
    assert(percents(o) + rest =~= percent(o[0]) + (percent(o[1]) + (percent(o[2]) + (percent(o[3])
        + rest))));
}

proof fn lemma_step_four(cp: int, whole: bool, rest: Units)
    requires
        0x10000 <= cp <= 0x10ffff,
    ensures
        percents(octets(cp)).len() == 12,
        decode_step(percents(octets(cp)) + rest, whole) == Some((string::encoded(cp), 12int)),
{
    let o = octets(cp);
    lemma_four_octets(cp);
    lemma_four_percents(o, rest);
    lemma_three_octets(o[0], o[1], o[2], percent(o[3]) + rest);
    lemma_octet(o[3], rest);
}

/// An encoded code point decodes to its units, whatever follows it.
proof fn lemma_step_undoes(cp: int, whole: bool, rest: Units)
    requires
        0 <= cp <= 0x10ffff,
        !(0xd800 <= cp < 0xe000),
    ensures
        code_point_encoded(cp, whole).len() > 0,
        decode_step(code_point_encoded(cp, whole) + rest, whole) == Some(
            (string::encoded(cp), code_point_encoded(cp, whole).len() as int),
        ),
{
    if unreserved(cp) || (whole && reserved(cp)) {
        let s = code_point_encoded(cp, whole) + rest;
        assert(s[0] == cp as u16);
        assert(seq![s[0]] =~= string::encoded(cp));
    } else if cp < 0x80 {
        lemma_step_one(cp, whole, rest);
    } else if cp < 0x800 {
        lemma_step_two(cp, whole, rest);
    } else if cp < 0x10000 {
        lemma_step_three(cp, whole, rest);
    } else {
        lemma_step_four(cp, whole, rest);
    }
}

/// The units of the code point at `p`, which is no lone surrogate.
proof fn lemma_units_of_code_point(u: Units, p: int)
    requires
        0 <= p < u.len(),
        string::pair_at(u, p) || !(string::high(u[p]) || string::low(u[p])),
    ensures
        string::encoded(string::code_point(u, p)) == u.subrange(p, p + string::width_at(u, p)),
        0 <= string::code_point(u, p) <= 0x10ffff,
        !(0xd800 <= string::code_point(u, p) < 0xe000),
        p + string::width_at(u, p) <= u.len(),
{
    let cp = string::code_point(u, p);
    if string::pair_at(u, p) {
        assert((cp - 0x10000) / 0x400 == u[p] - 0xd800);
        assert((cp - 0x10000) % 0x400 == u[p + 1] - 0xdc00);
    }
    assert(string::encoded(cp) =~= u.subrange(p, p + string::width_at(u, p)));
}

/// What follows the first step is decoded on its own.
proof fn lemma_decoded_step(e: Units, rest: Units, whole: bool, units: Units)
    requires
        e.len() > 0,
        decode_step(e + rest, whole) == Some((units, e.len() as int)),
        uri_decoded(rest, whole) is Some,
    ensures
        uri_decoded(e + rest, whole) == Some(units + uri_decoded(rest, whole).unwrap()),
{
    assert((e + rest).skip(e.len() as int) =~= rest);
}

/// Decoding what encoding wrote gives the string back, for whole URIs and for components.
pub proof fn law_decoding_undoes_encoding(u: Units, whole: bool, p: int)
    requires
        0 <= p <= u.len(),
        uri_encoded(u, whole, p) is Some,
    ensures
        uri_decoded(uri_encoded(u, whole, p).unwrap(), whole) == Some(
            u.subrange(p, u.len() as int),
        ),
    decreases u.len() - p,
{
    if p < u.len() {
        let next = p + string::width_at(u, p);
        let cp = string::code_point(u, p);
        lemma_units_of_code_point(u, p);
        law_decoding_undoes_encoding(u, whole, next);
        let rest = uri_encoded(u, whole, next).unwrap();
        lemma_step_undoes(cp, whole, rest);
        lemma_decoded_step(
            code_point_encoded(cp, whole),
            rest,
            whole,
            string::encoded(cp),
        );
        assert(u.subrange(p, next) + u.subrange(next, u.len() as int) =~= u.subrange(
            p,
            u.len() as int,
        ));
    } else {
        assert(u.subrange(p, u.len() as int) =~= Seq::<u16>::empty());
    }
}

/// Exactly the well-formed strings can be encoded.
pub proof fn law_encodable_is_well_formed(u: Units, whole: bool)
    ensures
        uri_encoded(u, whole, 0) is Some <==> string::well_formed(u),
{
    lemma_encodable_from(u, whole, 0);
}

proof fn lemma_encodable_from(u: Units, whole: bool, p: int)
    requires
        0 <= p <= u.len(),
        0 < p < u.len() && string::low(u[p]) ==> !string::high(u[p - 1]),
    ensures
        uri_encoded(u, whole, p) is Some <==> forall|q: int|
            p <= q < u.len() ==> !#[trigger] string::lone_at(u, q),
    decreases u.len() - p,
{
    if p < u.len() {
        let next = p + string::width_at(u, p);
        if !string::pair_at(u, p) && (string::high(u[p]) || string::low(u[p])) {
            assert(string::lone_at(u, p));
        } else {
            lemma_encodable_from(u, whole, next);
            assert(!string::lone_at(u, p));
            if string::pair_at(u, p) {
                assert(!string::lone_at(u, p + 1));
            }
            if uri_encoded(u, whole, next) is Some {
                assert forall|q: int| p <= q < u.len() implies !#[trigger] string::lone_at(
                    u,
                    q,
                ) by {}
            }
        }
    }
}

// Global functions

/// The four URI functions: a malformed text is a URIError.
pub open spec fn uri_result(w: World, t: Option<Units>) -> Outcome<Value> {
    match t {
        None => w.throw(ErrorKind::Uri, "URI malformed"),
        Some(t) => w.text_value(t),
    }
}

fn finish(i: &mut Interp, t: Option<Vec<u16>>) -> (r: Result<Value, Value>)
    ensures
        (final(i)@, r) == uri_result(
            old(i)@,
            match t {
                Some(v) => Some(v@),
                None => None,
            },
        ),
{
    match t {
        None => i.fail(ErrorKind::Uri, "URI malformed"),
        Some(v) => i.text_value(v),
    }
}

/// `encodeURI` and `encodeURIComponent`.
pub open spec fn encode_called(w: World, args: Seq<Value>, whole: bool) -> Outcome<Value> {
    let (w, s) = w.text(arg_at(args, 0));
    match s {
        Err(e) => (w, Err(e)),
        Ok(s) => uri_result(w, uri_encoded(w.units(s), whole, 0)),
    }
}

pub fn global_encode_uri(i: &mut Interp, args: &[Value], whole: bool) -> (r: Result<Value, Value>)
    ensures
        (final(i)@, r) == encode_called(old(i)@, args@, whole),
{
    let s: u64 = i.to_text(arg(args, 0))?;
    let u = i.units(s);
    let t = uri_encode(&u, whole);
    finish(i, t)
}

/// `decodeURI` and `decodeURIComponent`.
pub open spec fn decode_called(w: World, args: Seq<Value>, whole: bool) -> Outcome<Value> {
    let (w, s) = w.text(arg_at(args, 0));
    match s {
        Err(e) => (w, Err(e)),
        Ok(s) => uri_result(w, uri_decoded(w.units(s), whole)),
    }
}

pub fn global_decode_uri(i: &mut Interp, args: &[Value], whole: bool) -> (r: Result<Value, Value>)
    ensures
        (final(i)@, r) == decode_called(old(i)@, args@, whole),
{
    let s: u64 = i.to_text(arg(args, 0))?;
    let u = i.units(s);
    let t = uri_decode(&u, whole);
    finish(i, t)
}

// escape and unescape

/// The units that `escape` leaves alone: letters, digits and `@*_+-./`.
pub open spec fn plain_unit(c: int) -> bool {
    alphanumeric(c) || c == 0x40 || c == 0x2a || c == 0x5f || c == 0x2b || c == 0x2d || c == 0x2e
        || c == 0x2f
}

/// A unit as `escape` writes it.
pub open spec fn unit_escaped(c: u16) -> Units {
    if plain_unit(c as int) {
        seq![c]
    } else if c < 256 {
        percent(c as int)
    } else {
        seq![
            0x25u16,
            0x75,
            hex_digit(c as int / 0x1000),
            hex_digit(c as int / 0x100 % 16),
            hex_digit(c as int / 0x10 % 16),
            hex_digit(c as int % 16),
        ]
    }
}

pub open spec fn escaped(u: Units) -> Units
    decreases u.len(),
{
    if u.len() == 0 {
        Seq::empty()
    } else {
        unit_escaped(u[0]) + escaped(u.drop_first())
    }
}

fn push_escaped(out: &mut Vec<u16>, c: u16)
    ensures
        final(out)@ == old(out)@ + unit_escaped(c),
{
    let ghost before = out@;
    let n: u32 = c as u32;
    if is_alphanumeric(n) || n == 0x40 || n == 0x2a || n == 0x5f || n == 0x2b || n == 0x2d || n
        == 0x2e || n == 0x2f {
        out.push(c);
        assert(out@ =~= before + seq![c]);
    } else if n < 256 {
        push_percent(out, n);
    } else {
        out.push(0x25);
        out.push(0x75);
        out.push(write_hex(n / 0x1000));
        out.push(write_hex(n / 0x100 % 16));
        out.push(write_hex(n / 0x10 % 16));
        out.push(write_hex(n % 16));
        assert(out@ =~= before + unit_escaped(c));
    }
}

/// `escape` of a string's units.
pub fn escape(u: &Vec<u16>) -> (r: Vec<u16>)
    ensures
        r@ == escaped(u@),
{
    let mut out: Vec<u16> = Vec::new();
    let mut k: usize = 0;
    assert(u@.skip(0) =~= u@);
    assert(out@ + escaped(u@) =~= escaped(u@));
    while k < u.len()
        invariant
            k <= u@.len(),
            out@ + escaped(u@.skip(k as int)) == escaped(u@),
        decreases u@.len() - k,
    {
        let ghost before = out@;
        push_escaped(&mut out, u[k]);
        assert(u@.skip(k as int).drop_first() =~= u@.skip(k + 1));
        assert(out@ + escaped(u@.skip(k + 1)) =~= before + escaped(u@.skip(k as int)));
        k += 1;
    }
    assert(out@ =~= escaped(u@));
    out
}

/// The unit that the start of an escaped text stands for, and how many units it takes. Only `%XX`
/// and `%uXXXX` are recognized; all other units pass through unchanged.
pub open spec fn unescape_step(s: Units) -> (u16, int) {
    if s[0] == 0x25 && s.len() >= 6 && s[1] == 0x75 && hex_number(s.subrange(2, 6)) is Some {
        (hex_number(s.subrange(2, 6)).unwrap() as u16, 6)
    } else if s[0] == 0x25 && s.len() >= 3 && hex_number(s.subrange(1, 3)) is Some {
        (hex_number(s.subrange(1, 3)).unwrap() as u16, 3)
    } else {
        (s[0], 1)
    }
}

pub open spec fn unescaped(s: Units) -> Units
    decreases s.len(),
{
    if s.len() == 0 {
        Seq::empty()
    } else {
        let step = unescape_step(s);
        seq![step.0] + unescaped(s.skip(step.1))
    }
}

fn read_unescape(u: &Vec<u16>, p: usize) -> (r: (u16, usize))
    requires
        p < u@.len(),
    ensures
        (r.0, r.1 as int) == unescape_step(u@.skip(p as int)),
        0 < r.1 <= u@.len() - p,
{
    let ghost s = u@.skip(p as int);
    if u[p] == 0x25 {
        if u.len() - p >= 6 && u[p + 1] == 0x75 {
            assert(s.subrange(2, 6) =~= u@.subrange(p + 2, p + 6));
            match parse_hex_units(u, p + 2, p + 6) {
                Some(h) => {
                    return (h, 6);
                },
                None => {},
            }
        }
        if u.len() - p >= 3 {
            assert(s.subrange(1, 3) =~= u@.subrange(p + 1, p + 3));
            match parse_hex_units(u, p + 1, p + 3) {
                Some(h) => {
                    return (h, 3);
                },
                None => {},
            }
        }
    }
    (u[p], 1)
}

/// Annex B.2.1.2 Unescape over UTF-16 code units, which preserves astral pairs and lone surrogates
/// exactly.
pub fn unescape(u: &Vec<u16>) -> (r: Vec<u16>)
    ensures
        r@ == unescaped(u@),
{
    let mut out: Vec<u16> = Vec::new();
    let mut p: usize = 0;
    assert(u@.skip(0) =~= u@);
    assert(out@ + unescaped(u@) =~= unescaped(u@));
    while p < u.len()
        invariant
            p <= u@.len(),
            out@ + unescaped(u@.skip(p as int)) == unescaped(u@),
        decreases u@.len() - p,
    {
        let ghost before = out@;
        let step = read_unescape(u, p);
        out.push(step.0);
        assert(u@.skip(p as int).skip(step.1 as int) =~= u@.skip(p + step.1));
        assert(out@ + unescaped(u@.skip(p + step.1)) =~= before + unescaped(u@.skip(p as int)));
        p += step.1;
    }
    assert(out@ =~= unescaped(u@));
    out
}

/// A hex number with one more digit.
proof fn lemma_hex_push(d: Units, n: int, x: int)
    requires
        hex_number(d) == Some(n),
        0 <= x < 16,
    ensures
        hex_number(d.push(hex_digit(x))) == Some(16 * n + x),
{
    lemma_hex_round_trip(x);
    assert(d.push(hex_digit(x)).drop_last() =~= d);
}

proof fn lemma_hex_pair(a: int, b: int)
    requires
        0 <= a < 16,
        0 <= b < 16,
    ensures
        hex_number(seq![hex_digit(a), hex_digit(b)]) == Some(16 * a + b),
{
    let none = Seq::<u16>::empty();
    assert(hex_number(none) == Some(0int));
    lemma_hex_push(none, 0, a);
    lemma_hex_push(none.push(hex_digit(a)), a, b);
    assert(none.push(hex_digit(a)).push(hex_digit(b)) =~= seq![hex_digit(a), hex_digit(b)]);
}

proof fn lemma_unescape_one(c: u16, rest: Units)
    ensures
        unit_escaped(c).len() > 0,
        unescape_step(unit_escaped(c) + rest) == (c, unit_escaped(c).len() as int),
{
    let e = unit_escaped(c);
    let s = e + rest;
    if plain_unit(c as int) {
        assert(s[0] == c);
    } else if c < 256 {
        let a = c as int / 16;
        let b = c as int % 16;
        assert(s[1] == hex_digit(a));
        assert(s[1] != 0x75);
        assert(s.subrange(1, 3) =~= seq![hex_digit(a), hex_digit(b)]);
        lemma_hex_pair(a, b);
    } else {
        let a = c as int / 0x1000;
        let b = c as int / 0x100 % 16;
        let x = c as int / 0x10 % 16;
        let y = c as int % 16;
        let front = seq![hex_digit(a), hex_digit(b)];
        lemma_hex_pair(a, b);
        lemma_hex_push(front, 16 * a + b, x);
        lemma_hex_push(front.push(hex_digit(x)), 16 * (16 * a + b) + x, y);
        assert(s.subrange(2, 6) =~= front.push(hex_digit(x)).push(hex_digit(y)));
        assert(16 * (16 * (16 * a + b) + x) + y == c as int);
    }
}

/// `unescape` undoes `escape` on every string, lone surrogates included.
pub proof fn law_unescape_undoes_escape(u: Units)
    ensures
        unescaped(escaped(u)) == u,
    decreases u.len(),
{
    if u.len() > 0 {
        let rest = escaped(u.drop_first());
        let e = unit_escaped(u[0]);
        law_unescape_undoes_escape(u.drop_first());
        lemma_unescape_one(u[0], rest);
        assert((e + rest).skip(e.len() as int) =~= rest);
        assert(seq![u[0]] + u.drop_first() =~= u);
    }
}

/// `escape`.
pub open spec fn escape_called(w: World, args: Seq<Value>) -> Outcome<Value> {
    let (w, s) = w.text(arg_at(args, 0));
    match s {
        Err(e) => (w, Err(e)),
        Ok(s) => w.text_value(escaped(w.units(s))),
    }
}

pub fn global_escape(i: &mut Interp, args: &[Value]) -> (r: Result<Value, Value>)
    ensures
        (final(i)@, r) == escape_called(old(i)@, args@),
{
    let s: u64 = i.to_text(arg(args, 0))?;
    let u = i.units(s);
    let t = escape(&u);
    i.text_value(t)
}

/// `unescape`.
pub open spec fn unescape_called(w: World, args: Seq<Value>) -> Outcome<Value> {
    let (w, s) = w.text(arg_at(args, 0));
    match s {
        Err(e) => (w, Err(e)),
        Ok(s) => w.text_value(unescaped(w.units(s))),
    }
}

pub fn global_unescape(i: &mut Interp, args: &[Value]) -> (r: Result<Value, Value>)
    ensures
        (final(i)@, r) == unescape_called(old(i)@, args@),
{
    let s: u64 = i.to_text(arg(args, 0))?;
    let u = i.units(s);
    let t = unescape(&u);
    i.text_value(t)
}

} // verus!
