//! Case mapping: `toUpperCase`, `toLowerCase` and their language-sensitive forms.
use vstd::prelude::*;
use crate::interp::{arg, arg_at, Interp, Op, Outcome, Value, World};
use crate::num;
use crate::string;
use crate::string::Units;
use crate::string_methods::{this_string, this_text};
use vstd::utf8::char_u32_cast;

verus! {

/// The character that a number is, if it is a Unicode scalar value.
pub open spec fn scalar_value(n: u32) -> Option<char> {
    if n <= 0x10ffff && !(0xd800 <= n <= 0xdfff) {
        Some(n as char)
    } else {
        None
    }
}

/// `char::from_u32`: every number that is a Unicode scalar value is a `char`, no other is.
pub assume_specification[ char::from_u32 ](i: u32) -> (r: Option<char>)
    ensures
        r == scalar_value(i),
;

/// What `str::to_lowercase` gives for a text.
pub uninterp spec fn lowered(s: Seq<char>) -> Seq<char>;

/// What `str::to_uppercase` gives for a text.
pub uninterp spec fn uppered(s: Seq<char>) -> Seq<char>;

/// What `char::to_lowercase` gives for a character.
pub uninterp spec fn char_lowered(c: char) -> Seq<char>;

/// What `char::to_uppercase` gives for a character.
pub uninterp spec fn char_uppered(c: char) -> Seq<char>;

/// `str::to_lowercase`, the Unicode default mapping of a whole text with its final-sigma rule:
/// the result depends on the text alone.
#[verifier::external_body]
fn str_lower(s: &Vec<char>) -> (r: Vec<char>)
    ensures
        r@ == lowered(s@),
{
    s.iter().collect::<String>().to_lowercase().chars().collect()
}

/// `str::to_uppercase`, the Unicode default mapping of a whole text: the result depends on the
/// text alone.
#[verifier::external_body]
fn str_upper(s: &Vec<char>) -> (r: Vec<char>)
    ensures
        r@ == uppered(s@),
{
    s.iter().collect::<String>().to_uppercase().chars().collect()
}

/// `char::to_lowercase`, the mapping of one character without its context: the result depends on
/// the character alone.
#[verifier::external_body]
fn char_lower(c: char) -> (r: Vec<char>)
    ensures
        r@ == char_lowered(c),
{
    c.to_lowercase().collect()
}

/// `char::to_uppercase`, the mapping of one character without its context: the result depends on
/// the character alone.
#[verifier::external_body]
fn char_upper(c: char) -> (r: Vec<char>)
    ensures
        r@ == char_uppered(c),
{
    c.to_uppercase().collect()
}

// Texts of characters

/// The first of the private characters that stand for surrogates in a text of characters.
pub const SMUGGLE_BASE: u32 = 0x10f800;

/// The private character that stands for a surrogate.
pub open spec fn smuggled(u: u16) -> char {
    (0x10f800 + (u - 0xd800)) as char
}

pub open spec fn surrogate(u: u16) -> bool {
    0xd800 <= u < 0xe000
}

/// The characters of the code point that starts at `p`. A lone surrogate has its private
/// character; a code point from the private range is written as its two surrogates.
pub open spec fn chars_at(u: Units, p: int) -> Seq<char> {
    if string::pair_at(u, p) {
        if string::code_point(u, p) < SMUGGLE_BASE {
            seq![string::code_point(u, p) as char]
        } else {
            seq![smuggled(u[p]), smuggled(u[p + 1])]
        }
    } else if surrogate(u[p]) {
        seq![smuggled(u[p])]
    } else {
        seq![u[p] as char]
    }
}

/// A string as a text of characters, from `p` on.
pub open spec fn char_form(u: Units, p: int) -> Seq<char>
    decreases u.len() - p,
{
    if p < 0 || p >= u.len() {
        Seq::empty()
    } else {
        chars_at(u, p) + char_form(u, p + string::width_at(u, p))
    }
}

/// The units of a character.
pub open spec fn units_of_char(c: char) -> Units {
    if c as int >= SMUGGLE_BASE {
        seq![(0xd800 + (c as int - SMUGGLE_BASE)) as u16]
    } else {
        string::encoded(c as int)
    }
}

/// A text of characters as a string.
pub open spec fn unit_form(s: Seq<char>) -> Units
    decreases s.len(),
{
    if s.len() == 0 {
        Seq::empty()
    } else {
        unit_form(s.drop_last()) + units_of_char(s.last())
    }
}

fn smuggle(u: u16) -> (r: char)
    requires
        surrogate(u),
    ensures
        r == smuggled(u),
{
    match char::from_u32(SMUGGLE_BASE + (u as u32 - 0xd800)) {
        Some(c) => c,
        None => ' ',
    }
}

fn scalar(cp: u32) -> (r: char)
    requires
        cp <= 0x10ffff,
        !(0xd800 <= cp <= 0xdfff),
    ensures
        r == cp as char,
{
    match char::from_u32(cp) {
        Some(c) => c,
        None => ' ',
    }
}

/// A string as a text of characters.
pub fn to_chars(u: &Vec<u16>) -> (r: Vec<char>)
    ensures
        r@ == char_form(u@, 0),
{
    let mut out: Vec<char> = Vec::new();
    let mut p: usize = 0;
    assert(out@ + char_form(u@, 0) =~= char_form(u@, 0));
    while p < u.len()
        invariant
            p <= u@.len(),
            out@ + char_form(u@, p as int) == char_form(u@, 0),
        decreases u@.len() - p,
    {
        let ghost before = out@;
        let c: u16 = u[p];
        if string::is_high(c) && u.len() - p > 1 && string::is_low(u[p + 1]) {
            let cp: u32 = string::code_point_at(u, p);
            if cp < SMUGGLE_BASE {
                out.push(scalar(cp));
            } else {
                out.push(smuggle(c));
                out.push(smuggle(u[p + 1]));
            }
            assert(out@ =~= before + chars_at(u@, p as int));
            assert(out@ + char_form(u@, p + 2) =~= before + char_form(u@, p as int));
            p += 2;
        } else {
            if string::is_high(c) || string::is_low(c) {
                out.push(smuggle(c));
            } else {
                out.push(scalar(c as u32));
            }
            assert(out@ =~= before + chars_at(u@, p as int));
            assert(out@ + char_form(u@, p + 1) =~= before + char_form(u@, p as int));
            p += 1;
        }
    }
    assert(out@ =~= char_form(u@, 0));
    out
}

/// A text of characters as a string.
pub fn from_chars(s: &Vec<char>) -> (r: Vec<u16>)
    ensures
        r@ == unit_form(s@),
{
    let mut out: Vec<u16> = Vec::new();
    let mut k: usize = 0;
    assert(out@ =~= unit_form(s@.take(0)));
    while k < s.len()
        invariant
            k <= s@.len(),
            out@ == unit_form(s@.take(k as int)),
        decreases s@.len() - k,
    {
        assert(s@.take(k + 1).drop_last() =~= s@.take(k as int));
        let ghost before = out@;
        let c: u32 = s[k] as u32;
        proof {
            char_u32_cast(s@[k as int], c);
        }
        if c >= SMUGGLE_BASE {
            out.push((0xd800 + (c - SMUGGLE_BASE)) as u16);
            assert(out@ =~= before + units_of_char(s@[k as int]));
        } else {
            string::push_code_point(&mut out, c);
        }
        k += 1;
    }
    assert(s@.take(k as int) =~= s@);
    out
}

proof fn lemma_unit_form_concat(a: Seq<char>, b: Seq<char>)
    ensures
        unit_form(a + b) == unit_form(a) + unit_form(b),
    decreases b.len(),
{
    if b.len() == 0 {
        assert(a + b =~= a);
        assert(unit_form(a) + unit_form(b) =~= unit_form(a));
    } else {
        lemma_unit_form_concat(a, b.drop_last());
        assert((a + b).drop_last() =~= a + b.drop_last());
        assert(unit_form(a + b) =~= unit_form(a) + unit_form(b));
    }
}

proof fn lemma_chars_at(u: Units, p: int)
    requires
        0 <= p < u.len(),
    ensures
        unit_form(chars_at(u, p)) == u.subrange(p, p + string::width_at(u, p)),
{
    let s = chars_at(u, p);
    let piece = u.subrange(p, p + string::width_at(u, p));
    reveal_with_fuel(unit_form, 3);
    if string::pair_at(u, p) {
        if string::code_point(u, p) < SMUGGLE_BASE {
            let cp = string::code_point(u, p);
            assert(s.drop_last() =~= Seq::<char>::empty());
            assert(cp - 0x10000 == (u[p] - 0xd800) * 0x400 + (u[p + 1] - 0xdc00));
            assert((cp - 0x10000) / 0x400 == u[p] - 0xd800);
            assert((cp - 0x10000) % 0x400 == u[p + 1] - 0xdc00);
            assert(unit_form(s) =~= piece);
        } else {
            assert(s.drop_last() =~= seq![smuggled(u[p])]);
            assert(s.drop_last().drop_last() =~= Seq::<char>::empty());
            assert(unit_form(s) =~= piece);
        }
    } else {
        assert(s.drop_last() =~= Seq::<char>::empty());
        assert(unit_form(s) =~= piece);
    }
}

/// A string survives the way to a text of characters and back, lone surrogates and all.
pub proof fn law_texts_round_trip(u: Units, p: int)
    requires
        0 <= p <= u.len(),
    ensures
        unit_form(char_form(u, p)) == u.subrange(p, u.len() as int),
    decreases u.len() - p,
{
    if p < u.len() {
        let next = p + string::width_at(u, p);
        law_texts_round_trip(u, next);
        lemma_chars_at(u, p);
        lemma_unit_form_concat(chars_at(u, p), char_form(u, next));
        assert(u.subrange(p, next) + u.subrange(next, u.len() as int) =~= u.subrange(
            p,
            u.len() as int,
        ));
    } else {
        assert(u.subrange(p, u.len() as int) =~= Seq::<u16>::empty());
    }
}

// Conditions

/// The canonical combining class used by the SpecialCasing conditions (0 = base).
pub open spec fn class_of(w: World, c: char) -> (World, int) {
    let (w, v) = w.plain(Op::CombiningClass(c as u32), Seq::empty());
    match v {
        Value::Num(n) => (w, num::cast_u64(n)),
        _ => (w, 0),
    }
}

pub fn ccc(i: &mut Interp, c: char) -> (r: u64)
    ensures
        (final(i)@, r as int) == class_of(old(i)@, c),
{
    match i.perform(Op::CombiningClass(c as u32)) {
        Value::Num(n) => num::as_u64(n),
        _ => 0,
    }
}

/// The place of a combining dot above, from `j` on, across marks of combining class other than
/// 0 and 230.
pub open spec fn dot_from(w: World, s: Seq<char>, j: int) -> (World, Option<int>)
    decreases s.len() - j,
{
    if j < 0 || j >= s.len() {
        (w, None)
    } else if s[j] == '\u{0307}' {
        (w, Some(j))
    } else {
        let (w, c) = class_of(w, s[j]);
        if c == 0 || c == 230 {
            (w, None)
        } else {
            dot_from(w, s, j + 1)
        }
    }
}

/// From `chars[k+1..]`, the index of a COMBINING DOT ABOVE reachable across marks of combining
/// class other than 0/230 (the SpecialCasing After_I / After_Soft_Dotted scan), if any.
pub fn absorbable_dot_above(i: &mut Interp, s: &Vec<char>, k: usize) -> (r: Option<usize>)
    requires
        k < s@.len(),
    ensures
        final(i)@ == dot_from(old(i)@, s@, k + 1).0,
        match r {
            Some(j) => dot_from(old(i)@, s@, k + 1).1 == Some(j as int) && k < j < s@.len(),
            None => dot_from(old(i)@, s@, k + 1).1 is None,
        },
{
    let size: usize = s.len();
    let mut j: usize = k + 1;
    while j < size
        invariant
            k < j <= size == s@.len(),
            dot_from(old(i)@, s@, k + 1) == dot_from(i@, s@, j as int),
        decreases s@.len() - j,
    {
        if s[j] == '\u{0307}' {
            return Some(j);
        }
        let c: u64 = ccc(i, s[j]);
        if c == 0 || c == 230 {
            return None;
        }
        j += 1;
    }
    None
}

/// A class-230 mark follows from `j` on with no class 0 character before it.
pub open spec fn above_from(w: World, s: Seq<char>, j: int) -> (World, bool)
    decreases s.len() - j,
{
    if j < 0 || j >= s.len() {
        (w, false)
    } else {
        let (w, c) = class_of(w, s[j]);
        if c == 230 {
            (w, true)
        } else if c == 0 {
            (w, false)
        } else {
            above_from(w, s, j + 1)
        }
    }
}

/// SpecialCasing More_Above: `chars[k]` is followed by a class-230 mark with no intervening
/// class 0/230 character.
pub fn more_above(i: &mut Interp, s: &Vec<char>, k: usize) -> (r: bool)
    requires
        k < s@.len(),
    ensures
        (final(i)@, r) == above_from(old(i)@, s@, k + 1),
{
    let size: usize = s.len();
    let mut j: usize = k + 1;
    while j < size
        invariant
            k < j <= size == s@.len(),
            above_from(old(i)@, s@, k + 1) == above_from(i@, s@, j as int),
        decreases s@.len() - j,
    {
        let c: u64 = ccc(i, s[j]);
        if c == 230 {
            return true;
        }
        if c == 0 {
            return false;
        }
        j += 1;
    }
    false
}

/// Unicode Soft_Dotted (the subset with lowercase dots that interact with case mapping).
pub open spec fn soft_dotted(cp: int) -> bool {
    ||| cp == 0x69 || cp == 0x6a || cp == 0x12f || cp == 0x249 || cp == 0x268 || cp == 0x29d
    ||| cp == 0x2b2 || cp == 0x3f3 || cp == 0x456 || cp == 0x458 || cp == 0x1d62 || cp == 0x1d96
    ||| cp == 0x1da4 || cp == 0x1da8 || cp == 0x1e2d || cp == 0x1ecb || cp == 0x2071
    ||| 0x2148 <= cp <= 0x2149 || cp == 0x2c7c
    ||| 0x1d422 <= cp <= 0x1d423 || 0x1d456 <= cp <= 0x1d457 || 0x1d48a <= cp <= 0x1d48b
    ||| 0x1d4be <= cp <= 0x1d4bf || 0x1d4f2 <= cp <= 0x1d4f3 || 0x1d526 <= cp <= 0x1d527
    ||| 0x1d55a <= cp <= 0x1d55b || 0x1d58e <= cp <= 0x1d58f || 0x1d5c2 <= cp <= 0x1d5c3
    ||| 0x1d5f6 <= cp <= 0x1d5f7 || 0x1d62a <= cp <= 0x1d62b || 0x1d65e <= cp <= 0x1d65f
    ||| 0x1d692 <= cp <= 0x1d693 || cp == 0x1df1a || 0x1e04c <= cp <= 0x1e04d || cp == 0x1e068
}

pub fn is_soft_dotted(cp: u32) -> (r: bool)
    ensures
        r == soft_dotted(cp as int),
{
    match cp {
        0x69 | 0x6a | 0x12f | 0x249 | 0x268 | 0x29d | 0x2b2 | 0x3f3 | 0x456 | 0x458 => true,
        0x1d62 | 0x1d96 | 0x1da4 | 0x1da8 | 0x1e2d | 0x1ecb | 0x2071 | 0x2c7c => true,
        0x2148..=0x2149 => true,
        0x1d422..=0x1d423 | 0x1d456..=0x1d457 | 0x1d48a..=0x1d48b => true,
        0x1d4be..=0x1d4bf | 0x1d4f2..=0x1d4f3 | 0x1d526..=0x1d527 => true,
        0x1d55a..=0x1d55b | 0x1d58e..=0x1d58f | 0x1d5c2..=0x1d5c3 => true,
        0x1d5f6..=0x1d5f7 | 0x1d62a..=0x1d62b | 0x1d65e..=0x1d65f => true,
        0x1d692..=0x1d693 | 0x1df1a | 0x1e04c..=0x1e04d | 0x1e068 => true,
        _ => false,
    }
}

// Languages

/// The languages whose case mapping differs from the default one.
#[derive(Clone, Copy, PartialEq, Eq, Structural, Debug)]
pub enum CaseLanguage {
    Root,
    /// Turkish and Azeri.
    Turkic,
    Lithuanian,
}

fn push_chars(out: &mut Vec<char>, more: &Vec<char>, a: usize, b: usize)
    requires
        a <= b <= more@.len(),
    ensures
        final(out)@ == old(out)@ + more@.subrange(a as int, b as int),
{
    let ghost before = out@;
    let mut j: usize = a;
    assert(out@ =~= before + more@.subrange(a as int, a as int));
    while j < b
        invariant
            a <= j <= b <= more@.len(),
            out@ == before + more@.subrange(a as int, j as int),
        decreases b - j,
    {
        out.push(more[j]);
        assert(out@ =~= before + more@.subrange(a as int, j + 1));
        j += 1;
    }
}

fn push_all_chars(out: &mut Vec<char>, more: &Vec<char>)
    ensures
        final(out)@ == old(out)@ + more@,
{
    push_chars(out, more, 0, more.len());
    assert(more@.subrange(0, more@.len() as int) =~= more@);
}

/// Turkish and Azeri lowercasing from `k` on: `İ` loses its dot, and `I` is dotless unless a
/// following combining dot above is absorbed.
pub open spec fn turkic_lower(w: World, s: Seq<char>, k: int, out: Seq<char>) -> (World, Seq<char>)
    decreases s.len() - k,
{
    if k < 0 || k >= s.len() {
        (w, out)
    } else if s[k] == '\u{0130}' {
        turkic_lower(w, s, k + 1, out.push('i'))
    } else if s[k] == 'I' {
        let (w, dot) = dot_from(w, s, k + 1);
        match dot {
            Some(j) => if k < j < s.len() {
                turkic_lower(w, s, j + 1, out.push('i') + s.subrange(k + 1, j))
            } else {
                (w, out)
            },
            None => turkic_lower(w, s, k + 1, out.push('\u{0131}')),
        }
    } else {
        turkic_lower(w, s, k + 1, out + char_lowered(s[k]))
    }
}

fn lower_turkic(i: &mut Interp, s: &Vec<char>) -> (r: Vec<char>)
    ensures
        (final(i)@, r@) == turkic_lower(old(i)@, s@, 0, Seq::empty()),
{
    let mut out: Vec<char> = Vec::new();
    let mut k: usize = 0;
    assert(out@ =~= Seq::<char>::empty());
    while k < s.len()
        invariant
            k <= s@.len(),
            turkic_lower(old(i)@, s@, 0, Seq::empty()) == turkic_lower(i@, s@, k as int, out@),
        decreases s@.len() - k,
    {
        let c: char = s[k];
        if c == '\u{0130}' {
            out.push('i');
        } else if c == 'I' {
            match absorbable_dot_above(i, s, k) {
                Some(j) => {
                    out.push('i');
                    push_chars(&mut out, s, k + 1, j);
                    k = j;
                },
                None => {
                    out.push('\u{0131}');
                },
            }
        } else {
            let m = char_lower(c);
            push_all_chars(&mut out, &m);
        }
        k += 1;
    }
    out
}

/// What Lithuanian lowercasing writes for a character before marks above, where that differs.
pub open spec fn dotted_pair(c: char) -> Option<Seq<char>> {
    if c == 'I' {
        Some(seq!['i', '\u{0307}'])
    } else if c == 'J' {
        Some(seq!['j', '\u{0307}'])
    } else if c == '\u{012e}' {
        Some(seq!['\u{012f}', '\u{0307}'])
    } else {
        None
    }
}

/// The accented capitals into which Lithuanian bakes the dot.
pub open spec fn dotted_accent(c: char) -> Option<Seq<char>> {
    if c == '\u{00cc}' {
        Some(seq!['i', '\u{0307}', '\u{0300}'])
    } else if c == '\u{00cd}' {
        Some(seq!['i', '\u{0307}', '\u{0301}'])
    } else if c == '\u{0128}' {
        Some(seq!['i', '\u{0307}', '\u{0303}'])
    } else {
        None
    }
}

fn dotted_pair_of(c: char) -> (r: Option<Vec<char>>)
    ensures
        match r {
            Some(v) => dotted_pair(c) == Some(v@),
            None => dotted_pair(c) is None,
        },
{
    let base: char = if c == 'I' {
        'i'
    } else if c == 'J' {
        'j'
    } else if c == '\u{012e}' {
        '\u{012f}'
    } else {
        return None;
    };
    let v: Vec<char> = vec![base, '\u{0307}'];
    assert(v@ =~= seq![base, '\u{0307}']);
    Some(v)
}

fn dotted_accent_of(c: char) -> (r: Option<Vec<char>>)
    ensures
        match r {
            Some(v) => dotted_accent(c) == Some(v@),
            None => dotted_accent(c) is None,
        },
{
    let accent: char = if c == '\u{00cc}' {
        '\u{0300}'
    } else if c == '\u{00cd}' {
        '\u{0301}'
    } else if c == '\u{0128}' {
        '\u{0303}'
    } else {
        return None;
    };
    let v: Vec<char> = vec!['i', '\u{0307}', accent];
    assert(v@ =~= seq!['i', '\u{0307}', accent]);
    Some(v)
}

/// Lithuanian lowercasing from `k` on: the dot above a lowercased I/J/Į is retained when further
/// above-marks follow.
pub open spec fn lithuanian_lower(w: World, s: Seq<char>, k: int, out: Seq<char>) -> (
    World,
    Seq<char>,
)
    decreases s.len() - k,
{
    if k < 0 || k >= s.len() {
        (w, out)
    } else {
        match dotted_pair(s[k]) {
            Some(pair) => {
                let (w, above) = above_from(w, s, k + 1);
                lithuanian_lower(
                    w,
                    s,
                    k + 1,
                    if above {
                        out + pair
                    } else {
                        out + char_lowered(s[k])
                    },
                )
            },
            None => match dotted_accent(s[k]) {
                Some(t) => lithuanian_lower(w, s, k + 1, out + t),
                None => lithuanian_lower(w, s, k + 1, out + char_lowered(s[k])),
            },
        }
    }
}

fn lower_lithuanian(i: &mut Interp, s: &Vec<char>) -> (r: Vec<char>)
    ensures
        (final(i)@, r@) == lithuanian_lower(old(i)@, s@, 0, Seq::empty()),
{
    let mut out: Vec<char> = Vec::new();
    let mut k: usize = 0;
    assert(out@ =~= Seq::<char>::empty());
    while k < s.len()
        invariant
            k <= s@.len(),
            lithuanian_lower(old(i)@, s@, 0, Seq::empty()) == lithuanian_lower(
                i@,
                s@,
                k as int,
                out@,
            ),
        decreases s@.len() - k,
    {
        let c: char = s[k];
        match dotted_pair_of(c) {
            Some(pair) => {
                if more_above(i, s, k) {
                    push_all_chars(&mut out, &pair);
                } else {
                    let m = char_lower(c);
                    push_all_chars(&mut out, &m);
                }
            },
            None => match dotted_accent_of(c) {
                Some(t) => {
                    push_all_chars(&mut out, &t);
                },
                None => {
                    let m = char_lower(c);
                    push_all_chars(&mut out, &m);
                },
            },
        }
        k += 1;
    }
    out
}

/// Language-sensitive lowercasing of a text.
pub open spec fn lower_in(w: World, s: Seq<char>, lang: CaseLanguage) -> (World, Seq<char>) {
    match lang {
        CaseLanguage::Root => (w, lowered(s)),
        CaseLanguage::Turkic => turkic_lower(w, s, 0, Seq::empty()),
        CaseLanguage::Lithuanian => lithuanian_lower(w, s, 0, Seq::empty()),
    }
}

/// Language-sensitive lowercasing. Turkish/Azeri map the dotted/dotless I pair specially;
/// Lithuanian retains dots; all other languages use the default Unicode mapping.
pub fn locale_lower(i: &mut Interp, s: &Vec<char>, lang: CaseLanguage) -> (r: Vec<char>)
    ensures
        (final(i)@, r@) == lower_in(old(i)@, s@, lang),
{
    match lang {
        CaseLanguage::Root => str_lower(s),
        CaseLanguage::Turkic => lower_turkic(i, s),
        CaseLanguage::Lithuanian => lower_lithuanian(i, s),
    }
}

/// Turkish and Azeri uppercasing of one character.
pub open spec fn turkic_upper_char(c: char) -> Seq<char> {
    if c == 'i' {
        seq!['\u{0130}']
    } else if c == '\u{0131}' {
        seq!['I']
    } else {
        char_uppered(c)
    }
}

pub open spec fn turkic_upper(s: Seq<char>) -> Seq<char>
    decreases s.len(),
{
    if s.len() == 0 {
        Seq::empty()
    } else {
        turkic_upper(s.drop_last()) + turkic_upper_char(s.last())
    }
}

fn upper_turkic(s: &Vec<char>) -> (r: Vec<char>)
    ensures
        r@ == turkic_upper(s@),
{
    let mut out: Vec<char> = Vec::new();
    let mut k: usize = 0;
    assert(out@ =~= turkic_upper(s@.take(0)));
    while k < s.len()
        invariant
            k <= s@.len(),
            out@ == turkic_upper(s@.take(k as int)),
        decreases s@.len() - k,
    {
        assert(s@.take(k + 1).drop_last() =~= s@.take(k as int));
        let ghost before = out@;
        let c: char = s[k];
        if c == 'i' {
            out.push('\u{0130}');
            assert(out@ =~= before + seq!['\u{0130}']);
        } else if c == '\u{0131}' {
            out.push('I');
            assert(out@ =~= before + seq!['I']);
        } else {
            let m = char_upper(c);
            push_all_chars(&mut out, &m);
        }
        k += 1;
    }
    assert(s@.take(k as int) =~= s@);
    out
}

/// Lithuanian uppercasing from `k` on: a combining dot above after a soft-dotted base disappears.
pub open spec fn lithuanian_upper(w: World, s: Seq<char>, k: int, out: Seq<char>) -> (
    World,
    Seq<char>,
)
    decreases s.len() - k,
{
    if k < 0 || k >= s.len() {
        (w, out)
    } else {
        let out = out + char_uppered(s[k]);
        if soft_dotted(s[k] as int) {
            let (w, dot) = dot_from(w, s, k + 1);
            match dot {
                Some(j) => if k < j < s.len() {
                    lithuanian_upper(w, s, j + 1, out + s.subrange(k + 1, j))
                } else {
                    (w, out)
                },
                None => lithuanian_upper(w, s, k + 1, out),
            }
        } else {
            lithuanian_upper(w, s, k + 1, out)
        }
    }
}

fn upper_lithuanian(i: &mut Interp, s: &Vec<char>) -> (r: Vec<char>)
    ensures
        (final(i)@, r@) == lithuanian_upper(old(i)@, s@, 0, Seq::empty()),
{
    let mut out: Vec<char> = Vec::new();
    let mut k: usize = 0;
    assert(out@ =~= Seq::<char>::empty());
    while k < s.len()
        invariant
            k <= s@.len(),
            lithuanian_upper(old(i)@, s@, 0, Seq::empty()) == lithuanian_upper(
                i@,
                s@,
                k as int,
                out@,
            ),
        decreases s@.len() - k,
    {
        let c: char = s[k];
        proof {
            char_u32_cast(c, c as u32);
        }
        let m = char_upper(c);
        push_all_chars(&mut out, &m);
        if is_soft_dotted(c as u32) {
            match absorbable_dot_above(i, s, k) {
                Some(j) => {
                    push_chars(&mut out, s, k + 1, j);
                    k = j;
                },
                None => {},
            }
        }
        k += 1;
    }
    out
}

/// Language-sensitive uppercasing of a text.
pub open spec fn upper_in(w: World, s: Seq<char>, lang: CaseLanguage) -> (World, Seq<char>) {
    match lang {
        CaseLanguage::Root => (w, uppered(s)),
        CaseLanguage::Turkic => (w, turkic_upper(s)),
        CaseLanguage::Lithuanian => lithuanian_upper(w, s, 0, Seq::empty()),
    }
}

/// Language-sensitive uppercasing (Turkish/Azeri dotted-I, Lithuanian dot-above removal).
pub fn locale_upper(i: &mut Interp, s: &Vec<char>, lang: CaseLanguage) -> (r: Vec<char>)
    ensures
        (final(i)@, r@) == upper_in(old(i)@, s@, lang),
{
    match lang {
        CaseLanguage::Root => str_upper(s),
        CaseLanguage::Turkic => upper_turkic(s),
        CaseLanguage::Lithuanian => upper_lithuanian(i, s),
    }
}

/// The language subtag of a locale: what stands before the first hyphen.
pub open spec fn subtag(u: Units) -> Units {
    match string::first_from(u, seq![0x2du16], 0) {
        Some(p) => string::between(u, 0, p),
        None => u,
    }
}

/// An ASCII capital as its small letter.
pub open spec fn small(u: u16) -> u16 {
    if 0x41 <= u <= 0x5a {
        (u + 0x20) as u16
    } else {
        u
    }
}

/// The language of a locale, as far as case mapping goes.
pub open spec fn language_of(u: Units) -> CaseLanguage {
    let t = subtag(u);
    if t.len() != 2 {
        CaseLanguage::Root
    } else if (small(t[0]) == 0x74 && small(t[1]) == 0x72) || (small(t[0]) == 0x61 && small(t[1])
        == 0x7a) {
        CaseLanguage::Turkic
    } else if small(t[0]) == 0x6c && small(t[1]) == 0x74 {
        CaseLanguage::Lithuanian
    } else {
        CaseLanguage::Root
    }
}

fn small_of(u: u16) -> (r: u16)
    ensures
        r == small(u),
{
    if 0x41 <= u && u <= 0x5a {
        u + 0x20
    } else {
        u
    }
}

/// The language of a locale.
pub fn read_language(u: &Vec<u16>) -> (r: CaseLanguage)
    ensures
        r == language_of(u@),
{
    let hyphen: Vec<u16> = vec![0x2du16];
    assert(hyphen@ =~= seq![0x2du16]);
    let len: usize = match string::find_from(u, &hyphen, 0) {
        Some(p) => p,
        None => u.len(),
    };
    let t = string::cut_between(u, 0, len);
    assert(string::first_from(u@, hyphen@, 0) is None ==> t@ =~= u@);
    if t.len() != 2 {
        return CaseLanguage::Root;
    }
    let a: u16 = small_of(t[0]);
    let b: u16 = small_of(t[1]);
    if (a == 0x74 && b == 0x72) || (a == 0x61 && b == 0x7a) {
        CaseLanguage::Turkic
    } else if a == 0x6c && b == 0x74 {
        CaseLanguage::Lithuanian
    } else {
        CaseLanguage::Root
    }
}

/// The language of the first canonical locale, where one is given.
pub open spec fn case_language(w: World, locales: Value) -> Outcome<CaseLanguage> {
    let (w, l) = w.list(Op::LocaleList(locales));
    match l {
        Err(e) => (w, Err(e)),
        Ok(l) => if l.len() == 0 {
            (w, Ok(CaseLanguage::Root))
        } else {
            match l[0] {
                Value::Str(s) => (w, Ok(language_of(w.units(s)))),
                _ => (w, Ok(CaseLanguage::Root)),
            }
        },
    }
}

/// Canonicalize the locale argument to toLocale{Lower,Upper}Case and return its language. Invalid
/// locales throw RangeError.
pub fn locale_case_lang(i: &mut Interp, locales: Value) -> (r: Result<CaseLanguage, Value>)
    ensures
        (final(i)@, r) == case_language(old(i)@, locales),
{
    let l: Vec<Value> = i.ask_list(Op::LocaleList(locales))?;
    if l.len() == 0 {
        return Ok(CaseLanguage::Root);
    }
    match l[0] {
        Value::Str(s) => {
            let u = i.units(s);
            Ok(read_language(&u))
        },
        _ => Ok(CaseLanguage::Root),
    }
}

// Methods

/// A string in another case.
pub open spec fn cased(w: World, s: u64, lang: CaseLanguage, upper: bool) -> Outcome<Value> {
    let t = char_form(w.units(s), 0);
    let (w, t) = if upper {
        upper_in(w, t, lang)
    } else {
        lower_in(w, t, lang)
    };
    w.text_value(unit_form(t))
}

fn change_case(i: &mut Interp, s: u64, lang: CaseLanguage, upper: bool) -> (r: Result<Value, Value>)
    ensures
        (final(i)@, r) == cased(old(i)@, s, lang, upper),
{
    let u = i.units(s);
    let t = to_chars(&u);
    let m = if upper {
        locale_upper(i, &t, lang)
    } else {
        locale_lower(i, &t, lang)
    };
    let out = from_chars(&m);
    i.text_value(out)
}

/// `toUpperCase` and `toLowerCase`.
pub open spec fn case_changed(w: World, this: Value, upper: bool) -> Outcome<Value> {
    let (w, s) = this_text(w, this);
    match s {
        Err(e) => (w, Err(e)),
        Ok(s) => cased(w, s, CaseLanguage::Root, upper),
    }
}

/// `String.prototype.toUpperCase` and `toLowerCase`: Unicode Default Case Conversion.
pub fn string_change_case(i: &mut Interp, this: Value, upper: bool) -> (r: Result<Value, Value>)
    ensures
        (final(i)@, r) == case_changed(old(i)@, this, upper),
{
    let s: u64 = this_string(i, this)?;
    change_case(i, s, CaseLanguage::Root, upper)
}

/// `toLocaleUpperCase` and `toLocaleLowerCase`.
pub open spec fn locale_case_changed(w: World, this: Value, args: Seq<Value>, upper: bool) -> Outcome<
    Value,
> {
    let (w, s) = this_text(w, this);
    match s {
        Err(e) => (w, Err(e)),
        Ok(s) => {
            let (w, lang) = case_language(w, arg_at(args, 0));
            match lang {
                Err(e) => (w, Err(e)),
                Ok(lang) => cased(w, s, lang, upper),
            }
        },
    }
}

/// `String.prototype.toLocaleUpperCase` and `toLocaleLowerCase`.
pub fn string_change_locale_case(i: &mut Interp, this: Value, args: &[Value], upper: bool) -> (r:
    Result<Value, Value>)
    ensures
        (final(i)@, r) == locale_case_changed(old(i)@, this, args@, upper),
{
    let s: u64 = this_string(i, this)?;
    let lang = locale_case_lang(i, arg(args, 0))?;
    change_case(i, s, lang, upper)
}

/// Turkish uppercasing keeps the dotted and the dotless `i` apart.
pub proof fn law_turkic_pairs_stay_apart()
    ensures
        turkic_upper_char('i') == seq!['\u{0130}'],
        turkic_upper_char('\u{0131}') == seq!['I'],
        turkic_upper_char('i') != turkic_upper_char('\u{0131}'),
{
    assert(turkic_upper_char('i')[0] != turkic_upper_char('\u{0131}')[0]);
}

} // verus!
