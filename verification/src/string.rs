//! Strings as sequences of UTF-16 code units: searching, cutting, padding, splitting, replacing.
use vstd::prelude::*;
use crate::text::push_units;

verus! {

/// A string of code units.
pub type Units = Seq<u16>;

// Searching

/// The needle stands at position `p`.
pub open spec fn occurs_at(s: Units, needle: Units, p: int) -> bool {
    0 <= p && p + needle.len() <= s.len() && s.subrange(p, p + needle.len()) == needle
}

/// The first position from `p` on at which the needle stands.
pub open spec fn first_from(s: Units, needle: Units, p: int) -> Option<int>
    decreases s.len() + 1 - p,
{
    if p < 0 || p + needle.len() > s.len() {
        None
    } else if occurs_at(s, needle, p) {
        Some(p)
    } else {
        first_from(s, needle, p + 1)
    }
}

/// The last position up to `p` at which the needle stands.
pub open spec fn last_upto(s: Units, needle: Units, p: int) -> Option<int>
    decreases p + 1,
{
    if p < 0 {
        None
    } else if occurs_at(s, needle, p) {
        Some(p)
    } else {
        last_upto(s, needle, p - 1)
    }
}

/// Whether the needle stands at position `p`.
pub fn is_at(s: &Vec<u16>, needle: &Vec<u16>, p: usize) -> (r: bool)
    ensures
        r == occurs_at(s@, needle@, p as int),
{
    if p > s.len() || needle.len() > s.len() - p {
        return false;
    }
    let size: usize = s.len();
    let mut j: usize = 0;
    while j < needle.len()
        invariant
            j <= needle@.len(),
            size == s@.len(),
            p + needle@.len() <= s@.len(),
            forall|k: int| 0 <= k < j ==> s@[p + k] == needle@[k],
        decreases needle@.len() - j,
    {
        if s[p + j] != needle[j] {
            assert(s@.subrange(p as int, p + needle@.len())[j as int] == s@[p + j]);
            return false;
        }
        j += 1;
    }
    assert(s@.subrange(p as int, p + needle@.len()) =~= needle@);
    true
}

/// StringIndexOf.
pub fn find_from(s: &Vec<u16>, needle: &Vec<u16>, start: usize) -> (r: Option<usize>)
    ensures
        match r {
            Some(p) => first_from(s@, needle@, start as int) == Some(p as int) && p + needle@.len()
                <= s@.len() <= usize::MAX && start <= p,
            None => first_from(s@, needle@, start as int) is None,
        },
{
    let mut p: usize = start;
    while p <= s.len() && needle.len() <= s.len() - p
        invariant
            start <= p,
            first_from(s@, needle@, start as int) == first_from(s@, needle@, p as int),
        decreases s@.len() + 1 - p,
    {
        if is_at(s, needle, p) {
            return Some(p);
        }
        proof {
            if needle@.len() == 0 {
                assert(s@.subrange(p as int, p as int) =~= needle@);
            }
        }
        p += 1;
    }
    None
}

/// StringLastIndexOf.
pub fn find_last(s: &Vec<u16>, needle: &Vec<u16>, limit: usize) -> (r: Option<usize>)
    ensures
        match r {
            Some(p) => last_upto(s@, needle@, limit as int) == Some(p as int) && p <= limit,
            None => last_upto(s@, needle@, limit as int) is None,
        },
{
    let mut p: usize = limit;
    loop
        invariant
            p <= limit,
            last_upto(s@, needle@, limit as int) == last_upto(s@, needle@, p as int),
        decreases p,
    {
        if is_at(s, needle, p) {
            return Some(p);
        }
        if p == 0 {
            assert(last_upto(s@, needle@, -1) is None);
            return None;
        }
        p -= 1;
    }
}

/// What a search finds is an occurrence, and there is none before it.
pub proof fn law_first_is_first(s: Units, needle: Units, start: int)
    requires
        start >= 0,
    ensures
        match first_from(s, needle, start) {
            Some(p) => start <= p && occurs_at(s, needle, p) && forall|q: int|
                start <= q < p ==> !occurs_at(s, needle, q),
            None => forall|q: int| start <= q ==> !occurs_at(s, needle, q),
        },
    decreases s.len() + 1 - start,
{
    if start + needle.len() <= s.len() && !occurs_at(s, needle, start) {
        law_first_is_first(s, needle, start + 1);
    }
}

/// What a backward search finds is an occurrence, and there is none behind it.
pub proof fn law_last_is_last(s: Units, needle: Units, limit: int)
    ensures
        match last_upto(s, needle, limit) {
            Some(p) => p <= limit && occurs_at(s, needle, p) && forall|q: int|
                p < q <= limit ==> !occurs_at(s, needle, q),
            None => forall|q: int| q <= limit ==> !occurs_at(s, needle, q),
        },
    decreases limit + 1,
{
    if limit >= 0 && !occurs_at(s, needle, limit) {
        law_last_is_last(s, needle, limit - 1);
    }
}

// Cutting

/// The units from `a` to `b`.
pub fn cut(s: &Vec<u16>, a: usize, b: usize) -> (r: Vec<u16>)
    requires
        a <= b <= s@.len(),
    ensures
        r@ == s@.subrange(a as int, b as int),
{
    let mut out: Vec<u16> = Vec::new();
    let mut j: usize = a;
    assert(out@ =~= s@.subrange(a as int, a as int));
    while j < b
        invariant
            a <= j <= b <= s@.len(),
            out@ == s@.subrange(a as int, j as int),
        decreases b - j,
    {
        out.push(s[j]);
        assert(s@.subrange(a as int, j + 1) =~= s@.subrange(a as int, j as int).push(s@[j as int]));
        j += 1;
    }
    out
}

/// The units between two positions, none where they are the wrong way round.
pub open spec fn between(s: Units, a: int, b: int) -> Units {
    if 0 <= a < b <= s.len() {
        s.subrange(a, b)
    } else {
        Seq::empty()
    }
}

pub fn cut_between(s: &Vec<u16>, a: usize, b: usize) -> (r: Vec<u16>)
    requires
        a <= s@.len(),
        b <= s@.len(),
    ensures
        r@ == between(s@, a as int, b as int),
{
    if a < b {
        cut(s, a, b)
    } else {
        let r: Vec<u16> = Vec::new();
        assert(r@ =~= Seq::<u16>::empty());
        r
    }
}

// Padding and repeating

/// The first `n` units of the filler repeated without end.
pub open spec fn cycled(fill: Units, n: int) -> Units {
    Seq::new(n as nat, |i: int| fill[i % (fill.len() as int)])
}

fn cycle(fill: &Vec<u16>, n: usize) -> (r: Vec<u16>)
    requires
        fill@.len() > 0,
    ensures
        r@ == cycled(fill@, n as int),
{
    let mut out: Vec<u16> = Vec::new();
    let mut j: usize = 0;
    while j < n
        invariant
            j <= n,
            fill@.len() > 0,
            out@.len() == j,
            forall|i: int| 0 <= i < j ==> #[trigger] out@[i] == fill@[i % (fill@.len() as int)],
        decreases n - j,
    {
        out.push(fill[j % fill.len()]);
        j += 1;
    }
    assert(out@ =~= cycled(fill@, n as int));
    out
}

/// The string brought to a length by a filler before or behind it.
pub open spec fn padded(s: Units, target: int, fill: Units, at_start: bool) -> Units {
    if s.len() >= target || fill.len() == 0 {
        s
    } else if at_start {
        cycled(fill, target - s.len()) + s
    } else {
        s + cycled(fill, target - s.len())
    }
}

pub fn pad(s: &Vec<u16>, target: usize, fill: &Vec<u16>, at_start: bool) -> (r: Vec<u16>)
    ensures
        r@ == padded(s@, target as int, fill@, at_start),
{
    if s.len() >= target || fill.len() == 0 {
        let r = cut(s, 0, s.len());
        assert(r@ =~= s@);
        return r;
    }
    let mut f = cycle(fill, target - s.len());
    if at_start {
        push_units(&mut f, s);
        f
    } else {
        let mut r = cut(s, 0, s.len());
        assert(r@ =~= s@);
        push_units(&mut r, &f);
        r
    }
}

/// A padded string has the target length, unless it was longer or there is nothing to pad with,
/// and keeps the string at its end or start.
pub proof fn law_padding(s: Units, target: int, fill: Units, at_start: bool)
    requires
        fill.len() > 0,
    ensures
        padded(s, target, fill, at_start).len() == if s.len() >= target {
            s.len() as int
        } else {
            target
        },
        at_start ==> padded(s, target, fill, at_start).subrange(
            padded(s, target, fill, at_start).len() - s.len(),
            padded(s, target, fill, at_start).len() as int,
        ) == s,
        !at_start ==> padded(s, target, fill, at_start).take(s.len() as int) == s,
{
    let p = padded(s, target, fill, at_start);
    if at_start {
        assert(p.subrange(p.len() - s.len(), p.len() as int) =~= s);
    } else {
        assert(p.take(s.len() as int) =~= s);
    }
}

/// The string `n` times over.
pub open spec fn repeated(s: Units, n: int) -> Units
    decreases n,
{
    if n <= 0 {
        Seq::empty()
    } else {
        repeated(s, n - 1) + s
    }
}

pub fn repeat(s: &Vec<u16>, n: usize) -> (r: Vec<u16>)
    ensures
        r@ == repeated(s@, n as int),
{
    let mut out: Vec<u16> = Vec::new();
    let mut j: usize = 0;
    assert(out@ =~= repeated(s@, 0));
    while j < n
        invariant
            j <= n,
            out@ == repeated(s@, j as int),
        decreases n - j,
    {
        push_units(&mut out, s);
        j += 1;
    }
    out
}

/// Repeating multiplies the length.
pub proof fn law_repeat_length(s: Units, n: int)
    requires
        n >= 0,
    ensures
        repeated(s, n).len() == s.len() * n,
    decreases n,
{
    if n > 0 {
        law_repeat_length(s, n - 1);
        assert(s.len() * n == s.len() * (n - 1) + s.len()) by (nonlinear_arith);
    } else {
        assert(s.len() * 0 == 0) by (nonlinear_arith);
    }
}

// White space

/// WhiteSpace and LineTerminator.
pub open spec fn white(u: u16) -> bool {
    u == 0x20 || (0x09 <= u <= 0x0d) || u == 0xa0 || u == 0x1680 || (0x2000 <= u <= 0x200a) || u
        == 0x2028 || u == 0x2029 || u == 0x202f || u == 0x205f || u == 0x3000 || u == 0xfeff
}

/// JS WhiteSpace + LineTerminator.
pub fn is_js_ws(u: u16) -> (r: bool)
    ensures
        r == white(u),
{
    u == 0x20 || (0x09 <= u && u <= 0x0d) || u == 0xa0 || u == 0x1680 || (0x2000 <= u && u
        <= 0x200a) || u == 0x2028 || u == 0x2029 || u == 0x202f || u == 0x205f || u == 0x3000 || u
        == 0xfeff
}

/// The string without the white space at its start.
pub open spec fn trimmed_start(s: Units) -> Units
    decreases s.len(),
{
    if s.len() > 0 && white(s[0]) {
        trimmed_start(s.drop_first())
    } else {
        s
    }
}

/// The string without the white space at its end.
pub open spec fn trimmed_end(s: Units) -> Units
    decreases s.len(),
{
    if s.len() > 0 && white(s.last()) {
        trimmed_end(s.drop_last())
    } else {
        s
    }
}

pub fn trim(s: &Vec<u16>, start: bool, end: bool) -> (r: Vec<u16>)
    ensures
        r@ == {
            let t = if start {
                trimmed_start(s@)
            } else {
                s@
            };
            if end {
                trimmed_end(t)
            } else {
                t
            }
        },
{
    let mut a: usize = 0;
    assert(s@.skip(0) =~= s@);
    if start {
        while a < s.len() && is_js_ws(s[a])
            invariant
                a <= s@.len(),
                trimmed_start(s@) == trimmed_start(s@.skip(a as int)),
            decreases s@.len() - a,
        {
            assert(s@.skip(a as int).drop_first() =~= s@.skip(a + 1));
            a += 1;
        }
    }
    let ghost t = s@.skip(a as int);
    let mut b: usize = s.len();
    assert(s@.subrange(a as int, b as int) =~= t);
    if end {
        while b > a && is_js_ws(s[b - 1])
            invariant
                a <= b <= s@.len(),
                trimmed_end(t) == trimmed_end(s@.subrange(a as int, b as int)),
            decreases b,
        {
            assert(s@.subrange(a as int, b as int).drop_last() =~= s@.subrange(a as int, b - 1));
            b -= 1;
        }
    }
    cut(s, a, b)
}

/// A trimmed string neither starts nor ends with white space, and trimming it again changes
/// nothing.
pub proof fn law_trim(s: Units)
    ensures
        trimmed_start(s).len() > 0 ==> !white(trimmed_start(s)[0]),
        trimmed_end(s).len() > 0 ==> !white(trimmed_end(s).last()),
        trimmed_start(trimmed_start(s)) == trimmed_start(s),
        trimmed_end(trimmed_end(s)) == trimmed_end(s),
    decreases s.len(),
{
    if s.len() > 0 {
        if white(s[0]) {
            law_trim(s.drop_first());
        }
        if white(s.last()) {
            law_trim(s.drop_last());
        }
    }
}

// Surrogates and code points

pub open spec fn high(u: u16) -> bool {
    0xd800 <= u < 0xdc00
}

pub open spec fn low(u: u16) -> bool {
    0xdc00 <= u < 0xe000
}

/// The code point of a surrogate pair.
pub open spec fn paired(h: u16, l: u16) -> int {
    0x10000 + (h - 0xd800) * 0x400 + (l - 0xdc00)
}

/// A pair of surrogates stands at `p`.
pub open spec fn pair_at(s: Units, p: int) -> bool {
    0 <= p && p + 1 < s.len() && high(s[p]) && low(s[p + 1])
}

/// The code point that starts at `p`: a surrogate that has no partner stands for itself.
pub open spec fn code_point(s: Units, p: int) -> int {
    if pair_at(s, p) {
        paired(s[p], s[p + 1])
    } else {
        s[p] as int
    }
}

pub fn is_high(u: u16) -> (r: bool)
    ensures
        r == high(u),
{
    0xd800 <= u && u < 0xdc00
}

pub fn is_low(u: u16) -> (r: bool)
    ensures
        r == low(u),
{
    0xdc00 <= u && u < 0xe000
}

/// CodePointAt.
pub fn code_point_at(s: &Vec<u16>, p: usize) -> (r: u32)
    requires
        p < s@.len(),
    ensures
        r == code_point(s@, p as int),
        r <= 0x10ffff,
{
    if is_high(s[p]) && s.len() - p > 1 && is_low(s[p + 1]) {
        0x10000 + (s[p] as u32 - 0xd800) * 0x400 + (s[p + 1] as u32 - 0xdc00)
    } else {
        s[p] as u32
    }
}

/// How many units the code point at `p` takes.
pub open spec fn width_at(s: Units, p: int) -> int {
    if pair_at(s, p) {
        2
    } else {
        1
    }
}

/// The bytes that the character at a position takes in UTF-8; half a pair that stands alone takes
/// as many as a pair.
pub open spec fn bytes_at(s: Units, p: int) -> int {
    if s[p] < 0x80 {
        1
    } else if s[p] < 0x800 {
        2
    } else if high(s[p]) || low(s[p]) {
        4
    } else {
        3
    }
}

/// The bytes that the characters from a position on take in UTF-8.
pub open spec fn bytes_from(s: Units, p: int) -> int
    decreases s.len() - p,
{
    if p < 0 || p >= s.len() {
        0
    } else {
        bytes_at(s, p) + bytes_from(s, p + width_at(s, p))
    }
}

/// The bytes that a string takes in UTF-8.
pub fn byte_len(s: &Vec<u16>) -> (r: u128)
    ensures
        r == bytes_from(s@, 0),
        s@.len() > 0 ==> r >= 1,
        r <= 4 * s@.len(),
{
    let mut total: u128 = 0;
    let mut p: usize = 0;
    while p < s.len()
        invariant
            p <= s@.len(),
            total <= 4 * p,
            p > 0 ==> total >= 1,
            total + bytes_from(s@, p as int) == bytes_from(s@, 0),
        decreases s@.len() - p,
    {
        let u: u16 = s[p];
        let n: u128 = if u < 0x80 {
            1
        } else if u < 0x800 {
            2
        } else if is_high(u) || is_low(u) {
            4
        } else {
            3
        };
        total = total + n;
        if s.len() - p > 1 && is_high(u) && is_low(s[p + 1]) {
            p += 2;
        } else {
            p += 1;
        }
    }
    total
}

/// AdvanceStringIndex over UNIT offsets: one code unit, or a whole surrogate pair in unicode mode.
pub open spec fn advanced(s: Units, p: int, unicode: bool) -> int {
    if unicode {
        p + width_at(s, p)
    } else {
        p + 1
    }
}

pub fn advance_string_index(s: &Vec<u16>, p: u64, unicode: bool) -> (r: u64)
    requires
        p < u64::MAX - 1,
    ensures
        r == advanced(s@, p as int, unicode),
{
    if unicode && p < s.len() as u64 {
        let k: usize = p as usize;
        if is_high(s[k]) && s.len() - k > 1 && is_low(s[k + 1]) {
            return p + 2;
        }
    }
    p + 1
}

/// The units of a code point.
pub open spec fn encoded(cp: int) -> Units {
    if cp < 0x10000 {
        seq![cp as u16]
    } else {
        seq![
            (0xd800 + (cp - 0x10000) / 0x400) as u16,
            (0xdc00 + (cp - 0x10000) % 0x400) as u16,
        ]
    }
}

/// Appends the units of a code point.
pub fn push_code_point(out: &mut Vec<u16>, cp: u32)
    requires
        cp <= 0x10ffff,
    ensures
        final(out)@ == old(out)@ + encoded(cp as int),
{
    let ghost before = out@;
    if cp < 0x10000 {
        out.push(cp as u16);
        assert(out@ =~= before + encoded(cp as int));
    } else {
        out.push((0xd800 + (cp - 0x10000) / 0x400) as u16);
        out.push((0xdc00 + (cp - 0x10000) % 0x400) as u16);
        assert(out@ =~= before + encoded(cp as int));
    }
}

/// Encoding a code point and reading it back gives it back.
pub proof fn law_code_point_round_trip(cp: int, rest: Units)
    requires
        0 <= cp <= 0x10ffff,
        cp < 0x10000 ==> !(high(cp as u16) && rest.len() > 0 && low(rest[0])),
    ensures
        code_point(encoded(cp) + rest, 0) == cp,
        width_at(encoded(cp) + rest, 0) == encoded(cp).len(),
{
    let s = encoded(cp) + rest;
    if cp >= 0x10000 {
        let h = (0xd800 + (cp - 0x10000) / 0x400) as u16;
        let l = (0xdc00 + (cp - 0x10000) % 0x400) as u16;
        assert(s[0] == h && s[1] == l);
        assert((cp - 0x10000) / 0x400 * 0x400 + (cp - 0x10000) % 0x400 == cp - 0x10000);
    } else {
        assert(s[0] == cp as u16);
        if rest.len() > 0 {
            assert(s[1] == rest[0]);
        }
    }
}

/// A surrogate without a partner stands at `p`.
pub open spec fn lone_at(s: Units, p: int) -> bool {
    &&& 0 <= p < s.len()
    &&& (high(s[p]) && !(p + 1 < s.len() && low(s[p + 1]))) || (low(s[p]) && !(p > 0 && high(
        s[p - 1],
    )))
}

pub open spec fn well_formed(s: Units) -> bool {
    forall|p: int| 0 <= p < s.len() ==> !#[trigger] lone_at(s, p)
}

/// The string with every lone surrogate replaced.
pub open spec fn made_well_formed(s: Units) -> Units {
    Seq::new(
        s.len(),
        |p: int|
            if lone_at(s, p) {
                0xfffdu16
            } else {
                s[p]
            },
    )
}

fn is_lone(s: &Vec<u16>, p: usize) -> (r: bool)
    requires
        p < s@.len(),
    ensures
        r == lone_at(s@, p as int),
{
    if is_high(s[p]) {
        !(s.len() - p > 1 && is_low(s[p + 1]))
    } else if is_low(s[p]) {
        !(p > 0 && is_high(s[p - 1]))
    } else {
        false
    }
}

/// IsStringWellFormedUnicode.
pub fn is_well_formed(s: &Vec<u16>) -> (r: bool)
    ensures
        r == well_formed(s@),
{
    let mut p: usize = 0;
    while p < s.len()
        invariant
            p <= s@.len(),
            forall|q: int| 0 <= q < p ==> !#[trigger] lone_at(s@, q),
        decreases s@.len() - p,
    {
        if is_lone(s, p) {
            return false;
        }
        p += 1;
    }
    true
}

pub fn to_well_formed(s: &Vec<u16>) -> (r: Vec<u16>)
    ensures
        r@ == made_well_formed(s@),
{
    let mut out: Vec<u16> = Vec::new();
    let mut p: usize = 0;
    while p < s.len()
        invariant
            p <= s@.len(),
            out@.len() == p,
            forall|q: int| 0 <= q < p ==> #[trigger] out@[q] == made_well_formed(s@)[q],
        decreases s@.len() - p,
    {
        if is_lone(s, p) {
            out.push(0xfffd);
        } else {
            out.push(s[p]);
        }
        p += 1;
    }
    assert(out@ =~= made_well_formed(s@));
    out
}

/// A well-formed string stays as it is, and the replacement is well-formed.
pub proof fn law_well_formed(s: Units)
    ensures
        well_formed(s) ==> made_well_formed(s) == s,
        well_formed(made_well_formed(s)),
{
    let t = made_well_formed(s);
    if well_formed(s) {
        assert forall|p: int| 0 <= p < s.len() implies t[p] == s[p] by {
            assert(!lone_at(s, p));
        }
        assert(t =~= s);
    }
    assert forall|p: int| 0 <= p < t.len() implies !#[trigger] lone_at(t, p) by {
        if high(t[p]) {
            assert(!lone_at(s, p));
            assert(!lone_at(s, p + 1));
        } else if low(t[p]) {
            assert(!lone_at(s, p));
            assert(!lone_at(s, p - 1));
        }
    }
}

// Splitting

/// The pieces between separators from `start` on, at most `limit` of them.
pub open spec fn pieces(s: Units, sep: Units, start: int, limit: int) -> Seq<Units>
    decreases limit,
{
    if limit <= 0 || start < 0 || start > s.len() {
        Seq::empty()
    } else {
        match first_from(s, sep, start) {
            None => seq![s.subrange(start, s.len() as int)],
            Some(p) => seq![between(s, start, p)] + pieces(s, sep, p + sep.len(), limit - 1),
        }
    }
}

/// A string split by a separator: an empty one separates the units.
pub open spec fn split_up(s: Units, sep: Units, limit: int) -> Seq<Units> {
    if sep.len() == 0 {
        Seq::new(
            if limit < s.len() {
                if limit < 0 {
                    0
                } else {
                    limit as nat
                }
            } else {
                s.len()
            },
            |i: int| seq![s[i]],
        )
    } else {
        pieces(s, sep, 0, limit)
    }
}

pub open spec fn unit_views(v: Seq<Vec<u16>>) -> Seq<Units> {
    v.map_values(|u: Vec<u16>| u@)
}

pub fn split(s: &Vec<u16>, sep: &Vec<u16>, limit: u32) -> (r: Vec<Vec<u16>>)
    ensures
        unit_views(r@) == split_up(s@, sep@, limit as int),
{
    let mut out: Vec<Vec<u16>> = Vec::new();
    if sep.len() == 0 {
        let mut j: usize = 0;
        while j < s.len() && (j as u64) < limit as u64
            invariant
                j <= s@.len(),
                j <= limit,
                out@.len() == j,
                forall|k: int| 0 <= k < j ==> (#[trigger] out@[k])@ == seq![s@[k]],
            decreases s@.len() - j,
        {
            let piece = cut(s, j, j + 1);
            assert(piece@ =~= seq![s@[j as int]]);
            out.push(piece);
            j += 1;
        }
        assert(unit_views(out@) =~= split_up(s@, sep@, limit as int));
        return out;
    }
    let mut start: usize = 0;
    let mut left: u32 = limit;
    assert(unit_views(out@) + pieces(s@, sep@, 0, limit as int) =~= pieces(
        s@,
        sep@,
        0,
        limit as int,
    ));
    while left > 0
        invariant
            start <= s@.len(),
            sep@.len() > 0,
            unit_views(out@) + pieces(s@, sep@, start as int, left as int) == pieces(
                s@,
                sep@,
                0,
                limit as int,
            ),
        decreases left,
    {
        let ghost before = out@;
        match find_from(s, sep, start) {
            None => {
                let piece = cut(s, start, s.len());
                let ghost pv = piece@;
                out.push(piece);
                assert(unit_views(out@) =~= unit_views(before).push(pv));
                assert(unit_views(out@) =~= unit_views(before) + pieces(
                    s@,
                    sep@,
                    start as int,
                    left as int,
                ));
                return out;
            },
            Some(p) => {
                let piece = cut_between(s, start, p);
                let ghost pv = piece@;
                out.push(piece);
                assert(unit_views(out@) =~= unit_views(before).push(pv));
                assert(unit_views(out@) + pieces(s@, sep@, p + sep@.len(), left - 1)
                    =~= unit_views(before) + pieces(s@, sep@, start as int, left as int));
                start = p + sep.len();
                left -= 1;
            },
        }
    }
    assert(unit_views(out@) =~= pieces(s@, sep@, 0, limit as int));
    out
}

/// The pieces joined by the separator.
pub open spec fn glued(p: Seq<Units>, sep: Units) -> Units
    decreases p.len(),
{
    if p.len() == 0 {
        Seq::empty()
    } else if p.len() == 1 {
        p[0]
    } else {
        p[0] + sep + glued(p.drop_first(), sep)
    }
}

/// Joining all the pieces of a string by the separator gives the string back.
pub proof fn law_split_then_join(s: Units, sep: Units, start: int, limit: int)
    requires
        sep.len() > 0,
        0 <= start <= s.len(),
        limit > s.len() - start,
    ensures
        glued(pieces(s, sep, start, limit), sep) == s.subrange(start, s.len() as int),
        pieces(s, sep, start, limit).len() > 0,
    decreases limit,
{
    law_first_is_first(s, sep, start);
    match first_from(s, sep, start) {
        None => {},
        Some(p) => {
            law_split_then_join(s, sep, p + sep.len(), limit - 1);
            let rest = pieces(s, sep, p + sep.len(), limit - 1);
            let all = pieces(s, sep, start, limit);
            assert(all.drop_first() =~= rest);
            assert(all[0] == between(s, start, p));
            assert(between(s, start, p) + sep + s.subrange(p + sep.len(), s.len() as int)
                =~= s.subrange(start, s.len() as int));
        },
    }
}

// Replacing

/// GetSubstitution for a string match: `$$`, `$&`, `` $` `` and `$'`; there are no captures, so
/// every other `$` is literal.
pub open spec fn substituted(t: Units, matched: Units, ahead: Units, behind: Units) -> Units
    decreases t.len(),
{
    if t.len() == 0 {
        Seq::empty()
    } else if t[0] == 0x24 && t.len() > 1 && t[1] == 0x24 {
        seq![0x24u16] + substituted(t.skip(2), matched, ahead, behind)
    } else if t[0] == 0x24 && t.len() > 1 && t[1] == 0x26 {
        matched + substituted(t.skip(2), matched, ahead, behind)
    } else if t[0] == 0x24 && t.len() > 1 && t[1] == 0x60 {
        ahead + substituted(t.skip(2), matched, ahead, behind)
    } else if t[0] == 0x24 && t.len() > 1 && t[1] == 0x27 {
        behind + substituted(t.skip(2), matched, ahead, behind)
    } else {
        seq![t[0]] + substituted(t.skip(1), matched, ahead, behind)
    }
}

/// The replacement text for a match.
pub fn string_replacement_parts(
    t: &Vec<u16>,
    matched: &Vec<u16>,
    ahead: &Vec<u16>,
    behind: &Vec<u16>,
) -> (r: Vec<u16>)
    ensures
        r@ == substituted(t@, matched@, ahead@, behind@),
{
    let mut out: Vec<u16> = Vec::new();
    let mut j: usize = 0;
    assert(t@.skip(0) =~= t@);
    assert(out@ + substituted(t@, matched@, ahead@, behind@) =~= substituted(
        t@,
        matched@,
        ahead@,
        behind@,
    ));
    while j < t.len()
        invariant
            j <= t@.len(),
            out@ + substituted(t@.skip(j as int), matched@, ahead@, behind@) == substituted(
                t@,
                matched@,
                ahead@,
                behind@,
            ),
        decreases t@.len() - j,
    {
        let ghost rest = t@.skip(j as int);
        let ghost before = out@;
        let c: u16 = t[j];
        let marked = c == 0x24 && j + 1 < t.len();
        let next: u16 = if marked {
            t[j + 1]
        } else {
            0
        };
        assert(rest.skip(1) =~= t@.skip(j + 1));
        if marked && next == 0x24 {
            assert(rest.skip(2) =~= t@.skip(j + 2));
            out.push(0x24);
            assert(out@ + substituted(t@.skip(j + 2), matched@, ahead@, behind@) =~= before
                + substituted(rest, matched@, ahead@, behind@));
            j += 2;
        } else if marked && next == 0x26 {
            assert(rest.skip(2) =~= t@.skip(j + 2));
            push_units(&mut out, matched);
            assert(out@ + substituted(t@.skip(j + 2), matched@, ahead@, behind@) =~= before
                + substituted(rest, matched@, ahead@, behind@));
            j += 2;
        } else if marked && next == 0x60 {
            assert(rest.skip(2) =~= t@.skip(j + 2));
            push_units(&mut out, ahead);
            assert(out@ + substituted(t@.skip(j + 2), matched@, ahead@, behind@) =~= before
                + substituted(rest, matched@, ahead@, behind@));
            j += 2;
        } else if marked && next == 0x27 {
            assert(rest.skip(2) =~= t@.skip(j + 2));
            push_units(&mut out, behind);
            assert(out@ + substituted(t@.skip(j + 2), matched@, ahead@, behind@) =~= before
                + substituted(rest, matched@, ahead@, behind@));
            j += 2;
        } else {
            out.push(c);
            assert(out@ + substituted(t@.skip(j + 1), matched@, ahead@, behind@) =~= before
                + substituted(rest, matched@, ahead@, behind@));
            j += 1;
        }
    }
    assert(out@ =~= substituted(t@, matched@, ahead@, behind@));
    out
}

/// A template names the text ahead of or behind a match.
pub open spec fn names_context(t: Units) -> bool {
    exists|j: int|
        0 <= j && j + 1 < t.len() && #[trigger] t[j] == 0x24 && (t[j + 1] == 0x60 || t[j + 1]
            == 0x27)
}

/// Whether a string replacement needs the potentially expensive preceding/following context.
pub fn replacement_needs_context(t: &Vec<u16>) -> (r: bool)
    ensures
        r == names_context(t@),
{
    let mut j: usize = 0;
    while j < t.len() && t.len() - j > 1
        invariant
            j <= t@.len(),
            forall|k: int|
                0 <= k < j && k + 1 < t@.len() && #[trigger] t@[k] == 0x24 ==> t@[k + 1] != 0x60
                    && t@[k + 1] != 0x27,
        decreases t@.len() - j,
    {
        if t[j] == 0x24 && (t[j + 1] == 0x60 || t[j + 1] == 0x27) {
            assert(t@[j as int] == 0x24);
            return true;
        }
        j += 1;
    }
    false
}

/// Where no context is named, none matters.
pub proof fn law_context_free_templates(
    t: Units,
    matched: Units,
    ahead: Units,
    behind: Units,
    ahead2: Units,
    behind2: Units,
)
    requires
        !names_context(t),
    ensures
        substituted(t, matched, ahead, behind) == substituted(t, matched, ahead2, behind2),
    decreases t.len(),
{
    if t.len() > 0 {
        if t.len() > 1 && t[0] == 0x24 {
            assert(t[1] != 0x60 && t[1] != 0x27);
        }
        lemma_context_tail(t, 1);
        law_context_free_templates(t.skip(1), matched, ahead, behind, ahead2, behind2);
        if t.len() > 1 {
            lemma_context_tail(t, 2);
            law_context_free_templates(t.skip(2), matched, ahead, behind, ahead2, behind2);
        }
    }
}

proof fn lemma_context_tail(t: Units, n: int)
    requires
        !names_context(t),
        0 <= n <= t.len(),
    ensures
        !names_context(t.skip(n)),
{
    let u = t.skip(n);
    assert forall|j: int|
        0 <= j && j + 1 < u.len() && #[trigger] u[j] == 0x24 implies u[j + 1] != 0x60 && u[j + 1]
        != 0x27 by {
        assert(t[n + j] == 0x24);
        assert(t[n + j + 1] == u[j + 1]);
    }
}

/// A template without a `$` stands for itself.
pub proof fn law_plain_templates(t: Units, matched: Units, ahead: Units, behind: Units)
    requires
        !t.contains(0x24),
    ensures
        substituted(t, matched, ahead, behind) == t,
    decreases t.len(),
{
    if t.len() > 0 {
        assert(t.contains(t[0]));
        assert(!t.skip(1).contains(0x24)) by {
            if t.skip(1).contains(0x24) {
                let j = choose|j: int| 0 <= j < t.skip(1).len() && t.skip(1)[j] == 0x24;
                assert(t[j + 1] == 0x24);
            }
        }
        law_plain_templates(t.skip(1), matched, ahead, behind);
        assert(seq![t[0]] + t.skip(1) =~= t);
    }
}

/// The string with its first occurrence of the pattern replaced by what the template gives.
pub open spec fn replaced_first(s: Units, pat: Units, t: Units) -> Units {
    match first_from(s, pat, 0) {
        None => s,
        Some(p) => {
            let ahead = s.subrange(0, p);
            let behind = s.subrange(p + pat.len(), s.len() as int);
            ahead + substituted(t, pat, ahead, behind) + behind
        },
    }
}

pub fn replace_first(s: &Vec<u16>, pat: &Vec<u16>, t: &Vec<u16>) -> (r: Vec<u16>)
    ensures
        r@ == replaced_first(s@, pat@, t@),
{
    match find_from(s, pat, 0) {
        None => {
            let r = cut(s, 0, s.len());
            assert(r@ =~= s@);
            r
        },
        Some(p) => {
            let ahead = cut(s, 0, p);
            let behind = cut(s, p + pat.len(), s.len());
            let rep = string_replacement_parts(t, pat, &ahead, &behind);
            let mut out = cut(s, 0, p);
            push_units(&mut out, &rep);
            push_units(&mut out, &behind);
            out
        },
    }
}

/// The text from `cursor` on with every occurrence replaced; an empty pattern matches before every
/// unit and at the end.
pub open spec fn replaced_all_from(s: Units, pat: Units, t: Units, cursor: int, pos: int) -> Units
    decreases s.len() + 1 - pos,
{
    if cursor < 0 || cursor > s.len() || pos < cursor {
        Seq::empty()
    } else {
        match first_from(s, pat, pos) {
            None => s.subrange(cursor, s.len() as int),
            Some(p) => if p < pos || p + pat.len() > s.len() {
                Seq::empty()
            } else {
                let ahead = s.subrange(0, p);
                let behind = s.subrange(p + pat.len(), s.len() as int);
                let next = if pat.len() == 0 {
                    p + 1
                } else {
                    p + pat.len()
                };
                s.subrange(cursor, p) + substituted(t, pat, ahead, behind) + replaced_all_from(
                    s,
                    pat,
                    t,
                    p + pat.len(),
                    next,
                )
            },
        }
    }
}

pub fn replace_all(s: &Vec<u16>, pat: &Vec<u16>, t: &Vec<u16>) -> (r: Vec<u16>)
    ensures
        r@ == replaced_all_from(s@, pat@, t@, 0, 0),
{
    let mut out: Vec<u16> = Vec::new();
    let mut cursor: usize = 0;
    let mut pos: usize = 0;
    let needs_context = replacement_needs_context(t);
    let ghost whole = replaced_all_from(s@, pat@, t@, 0, 0);
    assert(out@ + whole =~= whole);
    loop
        invariant
            cursor <= s@.len(),
            cursor <= pos <= s@.len() + 1,
            needs_context == names_context(t@),
            whole == replaced_all_from(s@, pat@, t@, 0, 0),
            out@ + replaced_all_from(s@, pat@, t@, cursor as int, pos as int) == whole,
        decreases s@.len() + 1 - pos,
    {
        let ghost before = out@;
        match find_from(s, pat, pos) {
            None => {
                let tail = cut(s, cursor, s.len());
                push_units(&mut out, &tail);
                assert(out@ =~= whole);
                return out;
            },
            Some(p) => {
                let ahead: Vec<u16> = if needs_context {
                    cut(s, 0, p)
                } else {
                    Vec::new()
                };
                let behind: Vec<u16> = if needs_context {
                    cut(s, p + pat.len(), s.len())
                } else {
                    Vec::new()
                };
                proof {
                    if !needs_context {
                        law_context_free_templates(
                            t@,
                            pat@,
                            ahead@,
                            behind@,
                            s@.subrange(0, p as int),
                            s@.subrange(p + pat@.len(), s@.len() as int),
                        );
                    }
                }
                let gap = cut(s, cursor, p);
                push_units(&mut out, &gap);
                let rep = string_replacement_parts(t, pat, &ahead, &behind);
                push_units(&mut out, &rep);
                if pat.len() == 0 && p == s.len() {
                    assert(replaced_all_from(s@, pat@, t@, p as int, p + 1) =~= Seq::empty());
                    assert(out@ =~= whole);
                    return out;
                }
                let next: usize = if pat.len() == 0 {
                    p + 1
                } else {
                    p + pat.len()
                };
                assert(out@ + replaced_all_from(s@, pat@, t@, p + pat@.len(), next as int)
                    =~= before + replaced_all_from(s@, pat@, t@, cursor as int, pos as int));
                cursor = p + pat.len();
                pos = next;
            },
        }
    }
}

/// A string that does not hold the pattern stays as it is.
pub proof fn law_replace_without_match(s: Units, pat: Units, t: Units)
    requires
        first_from(s, pat, 0) is None,
    ensures
        replaced_first(s, pat, t) == s,
        replaced_all_from(s, pat, t, 0, 0) == s,
{
    assert(s.subrange(0, s.len() as int) =~= s);
}

/// Replacing a non-empty pattern by itself changes nothing.
pub proof fn law_replace_by_itself(s: Units, pat: Units, cursor: int)
    requires
        pat.len() > 0,
        0 <= cursor <= s.len(),
        !pat.contains(0x24),
    ensures
        replaced_all_from(s, pat, pat, cursor, cursor) == s.subrange(cursor, s.len() as int),
    decreases s.len() - cursor,
{
    law_first_is_first(s, pat, cursor);
    match first_from(s, pat, cursor) {
        None => {},
        Some(p) => {
            let ahead = s.subrange(0, p);
            let behind = s.subrange(p + pat.len(), s.len() as int);
            law_plain_templates(pat, pat, ahead, behind);
            law_replace_by_itself(s, pat, p + pat.len());
            assert(s.subrange(cursor, p) + pat + s.subrange(p + pat.len(), s.len() as int)
                =~= s.subrange(cursor, s.len() as int));
        },
    }
}

// HTML wrappers

/// The string with each quotation mark written as an entity.
pub open spec fn quoted(s: Units) -> Units
    decreases s.len(),
{
    if s.len() == 0 {
        s
    } else {
        quoted(s.drop_last()) + if s.last() == 0x22 {
            seq![0x26u16, 0x71, 0x75, 0x6f, 0x74, 0x3b]
        } else {
            seq![s.last()]
        }
    }
}

fn quote(s: &Vec<u16>) -> (r: Vec<u16>)
    ensures
        r@ == quoted(s@),
{
    let mut out: Vec<u16> = Vec::new();
    let mut j: usize = 0;
    assert(out@ =~= quoted(s@.take(0)));
    while j < s.len()
        invariant
            j <= s@.len(),
            out@ == quoted(s@.take(j as int)),
        decreases s@.len() - j,
    {
        assert(s@.take(j + 1).drop_last() =~= s@.take(j as int));
        if s[j] == 0x22 {
            let e: Vec<u16> = vec![0x26u16, 0x71, 0x75, 0x6f, 0x74, 0x3b];
            assert(e@ =~= seq![0x26u16, 0x71, 0x75, 0x6f, 0x74, 0x3b]);
            push_units(&mut out, &e);
        } else {
            let ghost before = out@;
            out.push(s[j]);
            assert(out@ =~= before + seq![s@[j as int]]);
        }
        j += 1;
    }
    assert(s@.take(j as int) =~= s@);
    out
}

/// `<tag attr="value">s</tag>`, without the attribute where it has no name.
pub open spec fn html(s: Units, tag: Units, attr: Units, value: Units) -> Units {
    let open = seq![0x3cu16] + tag + if attr.len() == 0 {
        Seq::empty()
    } else {
        seq![0x20u16] + attr + seq![0x3du16, 0x22] + quoted(value) + seq![0x22u16]
    };
    open + seq![0x3eu16] + s + seq![0x3cu16, 0x2f] + tag + seq![0x3eu16]
}

/// CreateHTML (Annex B): wrap the string in `<tag attr="value">…</tag>`.
pub fn create_html(s: &Vec<u16>, tag: &Vec<u16>, attr: &Vec<u16>, value: &Vec<u16>) -> (r: Vec<u16>)
    ensures
        r@ == html(s@, tag@, attr@, value@),
{
    let mut out: Vec<u16> = vec![0x3cu16];
    assert(out@ =~= seq![0x3cu16]);
    push_units(&mut out, tag);
    if attr.len() > 0 {
        let q = quote(value);
        out.push(0x20);
        push_units(&mut out, attr);
        out.push(0x3d);
        out.push(0x22);
        push_units(&mut out, &q);
        out.push(0x22);
    }
    assert(out@ =~= seq![0x3cu16] + tag@ + if attr@.len() == 0 {
        Seq::empty()
    } else {
        seq![0x20u16] + attr@ + seq![0x3du16, 0x22] + quoted(value@) + seq![0x22u16]
    });
    out.push(0x3e);
    push_units(&mut out, s);
    out.push(0x3c);
    out.push(0x2f);
    push_units(&mut out, tag);
    out.push(0x3e);
    assert(out@ =~= html(s@, tag@, attr@, value@));
    out
}

} // verus!
