//! What the `String` methods give for a string.
use vstd::prelude::*;
use crate::array_laws::{names_count, names_index};
use crate::interp::{Answer, Key, Op, Value, WellKnown, World};
use crate::num;
use crate::regexp_laws::{lemma_intern, says};
use crate::string::{
    between, cycled, first_from, glued, last_upto, law_first_is_first, law_last_is_last,
    law_plain_templates, occurs_at, pieces, replaced_all_from, substituted, trimmed_end,
    trimmed_start, white, Units,
};
use crate::string_methods::{
    char_code, char_codes_from, char_text, code_point_read, code_points_from, pad_result,
    repeat_result, searched, searched_back, sliced, substr, substring, substring_tested,
    trim_result, unit_text_at, SubstringTest,
};
use crate::string_patterns::{matched, replaced, replaced_everywhere, sought, split_string};
use crate::trace::{extends, question, told};

verus! {

/// The needle stands in the text at a position, unit by unit.
pub open spec fn stands_at(u: Units, needle: Units, p: int) -> bool {
    &&& 0 <= p
    &&& p + needle.len() <= u.len()
    &&& forall|j: int| 0 <= j < needle.len() ==> u[p + j] == #[trigger] needle[j]
}

#[verifier::spinoff_prover]
#[verifier::rlimit(60)]
proof fn lemma_stands(u: Units, needle: Units, p: int)
    ensures
        occurs_at(u, needle, p) == stands_at(u, needle, p),
{
    if 0 <= p && p + needle.len() <= u.len() {
        let s = u.subrange(p, p + needle.len());
        if stands_at(u, needle, p) {
            assert(s =~= needle);
        }
        if s == needle {
            assert forall|j: int| 0 <= j < needle.len() implies u[p + j] == #[trigger] needle[j] by {
                assert(s[j] == u[p + j]);
            }
        }
    }
}

/// The Number of a text position.
pub open spec fn place(p: int) -> Value {
    Value::Num(num::number(p))
}

// Single units

/// `charCodeAt`, `charAt`, `at` and `codePointAt` read the unit at the position; outside the text
/// there is NaN, the empty text, or undefined.
pub proof fn law_units_are_read_at_their_position(w: World, t: u64, n: u64)
    requires
        num::finite(n),
        w.strings.len() < u64::MAX,
    ensures
        ({
            let u = w.units(t);
            let k = num::integer_part(n);
            let args = seq![Value::Num(n)];
            let code = char_code(w, Value::Str(t), args);
            let text = char_text(w, Value::Str(t), args);
            let point = code_point_read(w, Value::Str(t), args);
            let inside = 0 <= k < u.len();
            &&& code.1 == Ok::<Value, Value>(
                if inside {
                    place(u[k] as int)
                } else {
                    Value::Num(num::NAN)
                },
            )
            &&& text.1 is Ok && says(
                text.0,
                text.1->Ok_0,
                if inside {
                    seq![u[k]]
                } else {
                    Seq::empty()
                },
            )
            &&& !inside ==> point.1 == Ok::<Value, Value>(Value::Undefined)
            &&& inside && k + 1 < u.len() && 0xd800 <= u[k] <= 0xdbff && 0xdc00 <= u[k + 1] <= 0xdfff
                ==> point.1 == Ok::<Value, Value>(
                place((u[k] - 0xd800) * 0x400 + (u[k + 1] - 0xdc00) + 0x10000),
            )
            &&& inside && !(k + 1 < u.len() && 0xd800 <= u[k] <= 0xdbff && 0xdc00 <= u[k + 1]
                <= 0xdfff) ==> point.1 == Ok::<Value, Value>(place(u[k] as int))
        }),
{
    let u = w.units(t);
    let k = num::integer_part(n);
    assert(seq![Value::Num(n)][0] == Value::Num(n));
    if 0 <= k < u.len() {
        lemma_intern(w, seq![u[k]]);
    }
    lemma_intern(w, Seq::empty());
}

/// `at` counts a negative position from the end.
#[verifier::spinoff_prover]
#[verifier::rlimit(60)]
pub proof fn law_at_counts_from_the_end(w: World, t: u64, n: u64)
    requires
        num::finite(n),
        w.strings.len() < u64::MAX,
    ensures
        ({
            let u = w.units(t);
            let k = if num::integer_part(n) < 0 {
                u.len() + num::integer_part(n)
            } else {
                num::integer_part(n)
            };
            let (w1, r) = unit_text_at(w, Value::Str(t), seq![Value::Num(n)]);
            &&& r is Ok
            &&& 0 <= k < u.len() ==> says(w1, r->Ok_0, seq![u[k]])
            &&& !(0 <= k < u.len()) ==> r->Ok_0 == Value::Undefined
        }),
{
    let u = w.units(t);
    assert(seq![Value::Num(n)][0] == Value::Num(n));
    let k = if num::integer_part(n) < 0 {
        u.len() + num::integer_part(n)
    } else {
        num::integer_part(n)
    };
    if 0 <= k < u.len() {
        lemma_intern(w, seq![u[k]]);
    }
}

// Searching

/// `indexOf` gives the first position from the start on at which the needle stands, or minus one.
#[verifier::spinoff_prover]
#[verifier::rlimit(60)]
pub proof fn law_index_of_a_text(w: World, t: u64, needle: u64, n: u64, start: int)
    requires
        w.units(t).len() <= num::COUNT_LIMIT,
        names_count(n, w.units(t).len() as int, start),
    ensures
        ({
            let (u, x) = (w.units(t), w.units(needle));
            let r = searched(w, Value::Str(t), seq![Value::Str(needle), Value::Num(n)]).1;
            &&& r is Ok
            &&& {
                ||| r->Ok_0 == Value::Num(num::MINUS_ONE) && forall|q: int|
                    start <= q ==> !#[trigger] stands_at(u, x, q)
                ||| exists|p: int|
                    start <= p && r->Ok_0 == place(p) && #[trigger] stands_at(u, x, p) && forall|q:
                        int| start <= q < p ==> !#[trigger] stands_at(u, x, q)
            }
        }),
{
    let (u, x) = (w.units(t), w.units(needle));
    let args = seq![Value::Str(needle), Value::Num(n)];
    assert(args[0] == Value::Str(needle) && args[1] == Value::Num(n));
    num::lemma_magnitude_nonneg(n);
    assert(num::clamped_position(n, u.len() as int) == start);
    law_first_is_first(u, x, start);
    assert forall|q: int| #[trigger] stands_at(u, x, q) == occurs_at(u, x, q) by {
        lemma_stands(u, x, q);
    }
    if let Some(p) = first_from(u, x, start) {
        assert(stands_at(u, x, p));
        assert(num::position(p) == num::number(p));
    }
}

/// `lastIndexOf` gives the last position up to the given one at which the needle stands, or minus
/// one.
#[verifier::spinoff_prover]
#[verifier::rlimit(60)]
pub proof fn law_last_index_of_a_text(w: World, t: u64, needle: u64, n: u64, limit: int)
    requires
        w.units(t).len() <= num::COUNT_LIMIT,
        if num::nan(n) {
            limit == w.units(t).len()
        } else {
            names_count(n, w.units(t).len() as int, limit)
        },
    ensures
        ({
            let (u, x) = (w.units(t), w.units(needle));
            let r = searched_back(w, Value::Str(t), seq![Value::Str(needle), Value::Num(n)]).1;
            &&& r is Ok
            &&& {
                ||| r->Ok_0 == Value::Num(num::MINUS_ONE) && forall|q: int|
                    q <= limit ==> !#[trigger] stands_at(u, x, q)
                ||| exists|p: int|
                    p <= limit && r->Ok_0 == place(p) && #[trigger] stands_at(u, x, p) && forall|q:
                        int| p < q <= limit ==> !#[trigger] stands_at(u, x, q)
            }
        }),
{
    let (u, x) = (w.units(t), w.units(needle));
    let args = seq![Value::Str(needle), Value::Num(n)];
    assert(args[0] == Value::Str(needle) && args[1] == Value::Num(n));
    num::lemma_magnitude_nonneg(n);
    law_last_is_last(u, x, limit);
    assert forall|q: int| #[trigger] stands_at(u, x, q) == occurs_at(u, x, q) by {
        lemma_stands(u, x, q);
    }
    if let Some(p) = last_upto(u, x, limit) {
        assert(stands_at(u, x, p));
        assert(num::position(p) == num::number(p));
    }
}

/// `includes`, `startsWith` and `endsWith` say whether the needle stands somewhere from the position
/// on, at it, or right before it.
#[verifier::spinoff_prover]
#[verifier::rlimit(60)]
pub proof fn law_substring_tests(
    w: World,
    t: u64,
    needle: u64,
    n: u64,
    pos: int,
    test: SubstringTest,
)
    requires
        names_count(n, w.units(t).len() as int, pos),
    ensures
        ({
            let (u, x) = (w.units(t), w.units(needle));
            let r = substring_tested(
                w,
                Value::Str(t),
                seq![Value::Str(needle), Value::Num(n)],
                test,
            ).1;
            r == Ok::<Value, Value>(
                Value::Bool(
                    match test {
                        SubstringTest::Includes => exists|q: int|
                            pos <= q && #[trigger] stands_at(u, x, q),
                        SubstringTest::StartsWith => stands_at(u, x, pos),
                        SubstringTest::EndsWith => stands_at(u, x, pos - x.len()),
                    },
                ),
            )
        }),
{
    let (u, x) = (w.units(t), w.units(needle));
    let args = seq![Value::Str(needle), Value::Num(n)];
    assert(args[0] == Value::Str(needle) && args[1] == Value::Num(n));
    num::lemma_magnitude_nonneg(n);
    law_first_is_first(u, x, pos);
    assert forall|q: int| #[trigger] stands_at(u, x, q) == occurs_at(u, x, q) by {
        lemma_stands(u, x, q);
    }
    lemma_stands(u, x, pos);
    lemma_stands(u, x, pos - x.len());
    if let Some(p) = first_from(u, x, pos) {
        assert(stands_at(u, x, p));
    }
}

// Cutting

/// `slice` gives the text between two positions that count from the end where they are negative;
/// `substring` between two positions held in the text, whichever comes first; `substr` so many units
/// from a position on.
#[verifier::spinoff_prover]
#[verifier::rlimit(60)]
pub proof fn law_texts_are_cut(
    w: World,
    t: u64,
    a: u64,
    b: u64,
    start: int,
    end: int,
    low: int,
    high: int,
)
    requires
        w.strings.len() < u64::MAX,
        names_index(a, w.units(t).len() as int, start),
        names_index(b, w.units(t).len() as int, end),
        names_count(a, w.units(t).len() as int, low),
        names_count(b, w.units(t).len() as int, high),
    ensures
        ({
            let u = w.units(t);
            let args = seq![Value::Num(a), Value::Num(b)];
            let slice = sliced(w, Value::Str(t), args);
            let sub = substring(w, Value::Str(t), args);
            let run = substr(w, Value::Str(t), args);
            &&& slice.1 is Ok && says(
                slice.0,
                slice.1->Ok_0,
                if start < end {
                    u.subrange(start, end)
                } else {
                    Seq::empty()
                },
            )
            &&& sub.1 is Ok && says(
                sub.0,
                sub.1->Ok_0,
                if low < high {
                    u.subrange(low, high)
                } else {
                    u.subrange(high, low)
                },
            )
            &&& run.1 is Ok && says(
                run.0,
                run.1->Ok_0,
                u.subrange(
                    start,
                    if start + high < u.len() {
                        start + high
                    } else {
                        u.len() as int
                    },
                ),
            )
        }),
{
    let u = w.units(t);
    let args = seq![Value::Num(a), Value::Num(b)];
    assert(args[0] == Value::Num(a) && args[1] == Value::Num(b));
    num::lemma_magnitude_nonneg(a);
    num::lemma_magnitude_nonneg(b);
    lemma_between(u, start, end);
    lemma_between(u, low, high);
    lemma_between(u, high, low);
    let stop = if start + high < u.len() {
        start + high
    } else {
        u.len() as int
    };
    lemma_between(u, start, stop);
    lemma_intern(w, between(u, start, end));
    lemma_intern(w, between(u, low, high));
    lemma_intern(w, between(u, high, low));
    lemma_intern(w, between(u, start, stop));
}

proof fn lemma_between(u: Units, a: int, b: int)
    requires
        0 <= a <= u.len(),
        0 <= b <= u.len(),
    ensures
        a <= b ==> between(u, a, b) == u.subrange(a, b),
        a >= b ==> between(u, a, b) == Seq::<u16>::empty(),
{
    if a == b {
        assert(u.subrange(a, b) =~= Seq::empty());
    }
}

/// Every unit of a text is white space.
pub open spec fn all_white(u: Units) -> bool {
    forall|j: int| 0 <= j < u.len() ==> white(#[trigger] u[j])
}

#[verifier::spinoff_prover]
#[verifier::rlimit(60)]
proof fn lemma_trimmed_start(u: Units) -> (k: int)
    ensures
        0 <= k <= u.len(),
        trimmed_start(u) == u.skip(k),
        all_white(u.take(k)),
        k < u.len() ==> !white(u[k]),
    decreases u.len(),
{
    if u.len() > 0 && white(u[0]) {
        let k = lemma_trimmed_start(u.drop_first());
        assert(u.drop_first().skip(k) =~= u.skip(k + 1));
        assert forall|j: int| 0 <= j < k + 1 implies white(#[trigger] u.take(k + 1)[j]) by {
            if j > 0 {
                assert(u.drop_first().take(k)[j - 1] == u[j]);
            }
        }
        k + 1
    } else {
        assert(u.skip(0) =~= u);
        0
    }
}

#[verifier::spinoff_prover]
#[verifier::rlimit(60)]
proof fn lemma_trimmed_end(u: Units) -> (k: int)
    ensures
        0 <= k <= u.len(),
        trimmed_end(u) == u.take(k),
        all_white(u.skip(k)),
        k > 0 ==> !white(u[k - 1]),
    decreases u.len(),
{
    if u.len() > 0 && white(u.last()) {
        let k = lemma_trimmed_end(u.drop_last());
        assert(u.drop_last().take(k) =~= u.take(k));
        assert forall|j: int| 0 <= j < u.len() - k implies white(#[trigger] u.skip(k)[j]) by {
            if j < u.len() - k - 1 {
                assert(u.drop_last().skip(k)[j] == u[k + j]);
            }
        }
        k
    } else {
        assert(u.take(u.len() as int) =~= u);
        u.len() as int
    }
}

/// Trimming takes off the white space at the sides it is asked for, all of it and nothing else.
#[verifier::spinoff_prover]
#[verifier::rlimit(60)]
pub proof fn law_trim_takes_off_white_space(w: World, t: u64, start: bool, end: bool) -> (r: (
    int,
    int,
))
    requires
        w.strings.len() < u64::MAX,
    ensures
        ({
            let u = w.units(t);
            let out = trim_result(w, Value::Str(t), start, end);
            &&& 0 <= r.0 <= r.1 <= u.len()
            &&& out.1 is Ok && says(out.0, out.1->Ok_0, u.subrange(r.0, r.1))
            &&& all_white(u.take(r.0)) && all_white(u.skip(r.1))
            &&& start && r.0 < r.1 ==> !white(u[r.0])
            &&& end && r.0 < r.1 ==> !white(u[r.1 - 1])
            &&& !start ==> r.0 == 0
            &&& !end ==> r.1 == u.len()
        }),
{
    let u = w.units(t);
    let k = if start {
        lemma_trimmed_start(u)
    } else {
        0
    };
    let v = u.skip(k);
    assert(!start ==> v =~= u);
    let m = if end {
        lemma_trimmed_end(v)
    } else {
        v.len() as int
    };
    assert(v.take(m) =~= u.subrange(k, k + m));
    assert(!end ==> v.take(m) =~= v);
    assert forall|j: int| 0 <= j < u.len() - (k + m) implies white(#[trigger] u.skip(k + m)[j]) by {
        assert(v.skip(m)[j] == u[k + m + j]);
    }
    lemma_intern(w, u.subrange(k, k + m));
    (k, k + m)
}

// Building

/// `padStart` and `padEnd` bring a text to the length with the filler, over and over, at one side;
/// the text itself stays at the other.
#[verifier::spinoff_prover]
#[verifier::rlimit(60)]
pub proof fn law_padding_fills_up(
    w: World,
    t: u64,
    n: u64,
    f: u64,
    at_start: bool,
    target: int,
)
    requires
        w.strings.len() < u64::MAX,
        names_count(n, usize::MAX as int, target),
        w.units(f).len() > 0,
        t < w.strings.len(),
        w.units(t).len() < target,
    ensures
        ({
            let (u, x) = (w.units(t), w.units(f));
            let (w1, r) = pad_result(
                w,
                Value::Str(t),
                seq![Value::Num(n), Value::Str(f)],
                at_start,
            );
            let gap = target - u.len();
            &&& r is Ok && r->Ok_0 is Str && r->Ok_0->Str_0 < w1.strings.len()
            &&& ({
                let v = w1.strings[r->Ok_0->Str_0 as int];
                &&& v.len() == target
                &&& v.subrange(
                    if at_start {
                        gap
                    } else {
                        0
                    },
                    if at_start {
                        target
                    } else {
                        u.len() as int
                    },
                ) == u
                &&& at_start ==> forall|j: int|
                    0 <= j < gap ==> #[trigger] v[j] == x[j % (x.len() as int)]
                &&& !at_start ==> forall|j: int|
                    u.len() <= j < target ==> #[trigger] v[j] == x[(j - u.len()) % (x.len() as int)]
            })
        }),
{
    let (u, x) = (w.units(t), w.units(f));
    let args = seq![Value::Num(n), Value::Str(f)];
    assert(args[0] == Value::Num(n) && args[1] == Value::Str(f));
    num::lemma_magnitude_nonneg(n);
    let gap = target - u.len();
    let v = if at_start {
        cycled(x, gap) + u
    } else {
        u + cycled(x, gap)
    };
    lemma_intern(w, v);
    assert(v.subrange(
        if at_start {
            gap
        } else {
            0
        },
        if at_start {
            target
        } else {
            u.len() as int
        },
    ) =~= u);
}

/// `repeat` gives the text so many times over.
#[verifier::spinoff_prover]
#[verifier::rlimit(60)]
pub proof fn law_repeat_goes_over_and_over(w: World, t: u64, n: u64, limit: usize, j: int)
    requires
        w.strings.len() < u64::MAX,
        num::finite(n),
        0 <= num::integer_part(n) <= u64::MAX,
        repeat_result(w, Value::Str(t), seq![Value::Num(n)], limit).1 is Ok,
    ensures
        ({
            let u = w.units(t);
            let (w1, r) = repeat_result(w, Value::Str(t), seq![Value::Num(n)], limit);
            &&& r->Ok_0 is Str && r->Ok_0->Str_0 < w1.strings.len()
            &&& ({
                let v = w1.strings[r->Ok_0->Str_0 as int];
                &&& v.len() == u.len() * num::integer_part(n)
                &&& 0 <= j < v.len() ==> v[j] == u[j % (u.len() as int)]
            })
        }),
{
    let u = w.units(t);
    assert(seq![Value::Num(n)][0] == Value::Num(n));
    let k = num::integer_part(n);
    crate::string::law_repeat_length(u, k);
    lemma_intern(w, crate::string::repeated(u, k));
    lemma_intern(w, Seq::empty());
    if u.len() == 0 {
        assert(0 * k == 0) by (nonlinear_arith);
    } else {
        lemma_repeated(u, k, j);
    }
}

#[verifier::spinoff_prover]
#[verifier::rlimit(60)]
proof fn lemma_repeated(u: Units, n: int, j: int)
    requires
        n >= 0,
        u.len() > 0,
    ensures
        0 <= j < crate::string::repeated(u, n).len() ==> crate::string::repeated(u, n)[j] == u[j % (
        u.len() as int)],
    decreases n,
{
    if n > 0 {
        lemma_repeated(u, n - 1, j);
        crate::string::law_repeat_length(u, n - 1);
        let front = crate::string::repeated(u, n - 1);
        let l = u.len() as int;
        if front.len() <= j < front.len() + l {
            vstd::arithmetic::div_mod::lemma_fundamental_div_mod_converse(
                j,
                l,
                n - 1,
                j - front.len(),
            );
        }
    }
}

// Replacing and splitting

/// A replacement text is taken as it is but for four escapes: two dollar signs are one, a dollar
/// sign and an ampersand are the match, one and a grave accent what lies before it, and one and an
/// apostrophe what lies behind it.
pub proof fn law_template_escapes(rest: Units, m: Units, ahead: Units, behind: Units, c: u16)
    ensures
        substituted(seq!['$' as u16, '$' as u16] + rest, m, ahead, behind) == seq!['$' as u16]
            + substituted(rest, m, ahead, behind),
        substituted(seq!['$' as u16, '&' as u16] + rest, m, ahead, behind) == m + substituted(
            rest,
            m,
            ahead,
            behind,
        ),
        substituted(seq!['$' as u16, '`' as u16] + rest, m, ahead, behind) == ahead + substituted(
            rest,
            m,
            ahead,
            behind,
        ),
        substituted(seq!['$' as u16, 39u16] + rest, m, ahead, behind) == behind + substituted(
            rest,
            m,
            ahead,
            behind,
        ),
        c != '$' as u16 ==> substituted(seq![c] + rest, m, ahead, behind) == seq![c] + substituted(
            rest,
            m,
            ahead,
            behind,
        ),
        substituted(Seq::empty(), m, ahead, behind) == Seq::<u16>::empty(),
{
    assert((seq!['$' as u16, '$' as u16] + rest).skip(2) =~= rest);
    assert((seq!['$' as u16, '&' as u16] + rest).skip(2) =~= rest);
    assert((seq!['$' as u16, '`' as u16] + rest).skip(2) =~= rest);
    assert((seq!['$' as u16, 39u16] + rest).skip(2) =~= rest);
    assert((seq![c] + rest).skip(1) =~= rest);
}

/// `replace` of a text by a text replaces the first place where the pattern stands, and nothing
/// else; without one the text stays.
#[verifier::spinoff_prover]
#[verifier::rlimit(60)]
pub proof fn law_replace_replaces_the_first(w: World, t: u64, p: u64, r: u64)
    requires
        w.strings.len() < u64::MAX,
        t < w.strings.len(),
    ensures
        ({
            let (u, x, y) = (w.units(t), w.units(p), w.units(r));
            let out = replaced(w, Value::Str(t), seq![Value::Str(p), Value::Str(r)]);
            &&& out.1 is Ok
            &&& {
                ||| (forall|q: int| !#[trigger] stands_at(u, x, q)) && out.1->Ok_0 == Value::Str(t)
                ||| exists|k: int|
                    {
                        &&& #[trigger] stands_at(u, x, k)
                        &&& forall|q: int| q < k ==> !#[trigger] stands_at(u, x, q)
                        &&& says(
                            out.0,
                            out.1->Ok_0,
                            u.take(k) + substituted(y, x, u.take(k), u.skip(k + x.len())) + u.skip(
                                k + x.len(),
                            ),
                        )
                    }
            }
        }),
{
    let (u, x, y) = (w.units(t), w.units(p), w.units(r));
    let args = seq![Value::Str(p), Value::Str(r)];
    assert(args[0] == Value::Str(p) && args[1] == Value::Str(r));
    law_first_is_first(u, x, 0);
    assert forall|q: int| #[trigger] stands_at(u, x, q) == occurs_at(u, x, q) by {
        lemma_stands(u, x, q);
    }
    if let Some(k) = first_from(u, x, 0) {
        assert(stands_at(u, x, k));
        assert(u.subrange(0, k) =~= u.take(k));
        assert(u.subrange(k + x.len(), u.len() as int) =~= u.skip(k + x.len()));
        let whole = u.take(k) + substituted(y, x, u.take(k), u.skip(k + x.len())) + u.skip(
            k + x.len(),
        );
        lemma_intern(w, whole);
    }
}

/// Replacing every occurrence of a pattern by a plain text is splitting at the pattern and joining
/// with the text.
#[verifier::spinoff_prover]
#[verifier::rlimit(60)]
proof fn lemma_replaced_all(s: Units, pat: Units, t: Units, at: int, limit: int)
    requires
        pat.len() > 0,
        !t.contains(0x24),
        0 <= at <= s.len(),
        limit > s.len() - at,
    ensures
        replaced_all_from(s, pat, t, at, at) == glued(pieces(s, pat, at, limit), t),
        pieces(s, pat, at, limit).len() > 0,
    decreases s.len() - at,
{
    law_first_is_first(s, pat, at);
    match first_from(s, pat, at) {
        None => {
            let one = seq![s.subrange(at, s.len() as int)];
            assert(pieces(s, pat, at, limit) == one);
        },
        Some(p) => {
            let ahead = s.subrange(0, p);
            let behind = s.subrange(p + pat.len(), s.len() as int);
            law_plain_templates(t, pat, ahead, behind);
            lemma_replaced_all(s, pat, t, p + pat.len(), limit - 1);
            let rest = pieces(s, pat, p + pat.len(), limit - 1);
            let all = pieces(s, pat, at, limit);
            assert(all.drop_first() =~= rest);
            assert(all[0] == between(s, at, p));
            lemma_between(s, at, p);
            assert(s.subrange(at, p) + t + glued(rest, t) =~= (s.subrange(at, p) + t) + glued(
                rest,
                t,
            ));
        },
    }
}

/// `replaceAll` of a text that is not empty by a plain text gives the pieces between the occurrences
/// of the pattern with that text in between.
#[verifier::spinoff_prover]
#[verifier::rlimit(60)]
pub proof fn law_replace_all_joins_the_pieces(w: World, t: u64, p: u64, r: u64)
    requires
        w.strings.len() < u64::MAX,
        t < w.strings.len(),
        w.units(p).len() > 0,
        !w.units(r).contains('$' as u16),
    ensures
        ({
            let (u, x, y) = (w.units(t), w.units(p), w.units(r));
            let out = replaced_everywhere(w, Value::Str(t), seq![Value::Str(p), Value::Str(r)]);
            &&& out.1 is Ok
            &&& says(out.0, out.1->Ok_0, glued(pieces(u, x, 0, u.len() + 1int), y))
        }),
{
    let (u, x, y) = (w.units(t), w.units(p), w.units(r));
    let args = seq![Value::Str(p), Value::Str(r)];
    assert(args[0] == Value::Str(p) && args[1] == Value::Str(r));
    lemma_replaced_all(u, x, y, 0, u.len() + 1int);
    lemma_intern(w, replaced_all_from(u, x, y, 0, 0));
    if first_from(u, x, 0) is None {
        assert(u.subrange(0, u.len() as int) =~= u);
    }
}

/// The pieces of a split are the parts between the places where the separator stands: put together
/// with the separator they are the text again, and none of them holds the separator.
#[verifier::spinoff_prover]
#[verifier::rlimit(60)]
pub proof fn law_pieces_hold_no_separator(s: Units, sep: Units, start: int, limit: int, k: int)
    requires
        sep.len() > 0,
        0 <= start <= s.len(),
        limit > s.len() - start,
        0 <= k < pieces(s, sep, start, limit).len(),
    ensures
        forall|q: int| !#[trigger] stands_at(pieces(s, sep, start, limit)[k], sep, q),
    decreases limit,
{
    law_first_is_first(s, sep, start);
    let all = pieces(s, sep, start, limit);
    match first_from(s, sep, start) {
        None => {
            assert forall|q: int| !#[trigger] stands_at(all[k], sep, q) by {
                if stands_at(all[k], sep, q) {
                    lemma_inside(s, sep, start, s.len() as int, q);
                }
            }
        },
        Some(p) => {
            lemma_between(s, start, p);
            if k == 0 {
                assert(all[0] == s.subrange(start, p));
                assert forall|q: int| !#[trigger] stands_at(all[k], sep, q) by {
                    if stands_at(all[k], sep, q) {
                        lemma_inside(s, sep, start, p, q);
                    }
                }
            } else {
                let rest = pieces(s, sep, p + sep.len(), limit - 1);
                assert(all[k] == rest[k - 1]);
                law_pieces_hold_no_separator(s, sep, p + sep.len(), limit - 1, k - 1);
            }
        },
    }
}

proof fn lemma_inside(s: Units, sep: Units, a: int, b: int, q: int)
    requires
        0 <= a <= b <= s.len(),
        stands_at(s.subrange(a, b), sep, q),
    ensures
        occurs_at(s, sep, a + q),
        a + q + sep.len() <= b,
{
    let part = s.subrange(a, b);
    assert forall|j: int| 0 <= j < sep.len() implies s[a + q + j] == #[trigger] sep[j] by {
        assert(part[q + j] == sep[j]);
    }
    assert(stands_at(s, sep, a + q));
    lemma_stands(s, sep, a + q);
}

/// The listed strings say these texts.
pub open spec fn all_say(w: World, l: Seq<Value>, p: Seq<Units>) -> bool {
    l.len() == p.len() && forall|k: int| 0 <= k < l.len() ==> says(w, #[trigger] l[k], p[k])
}

#[verifier::spinoff_prover]
#[verifier::rlimit(60)]
proof fn lemma_pieces_interned(w: World, p: Seq<Units>, k: int, out: Seq<Value>)
    requires
        0 <= k <= p.len(),
        w.strings.len() + (p.len() - k) < u64::MAX,
        all_say(w, out, p.take(k)),
    ensures
        ({
            let (w1, l) = crate::string_patterns::pieces_interned(w, p, k, out);
            &&& extends(w, w1)
            &&& w1.asked == w.asked
            &&& all_say(w1, l, p)
        }),
    decreases p.len() - k,
{
    if k < p.len() {
        let (w1, s) = w.intern(p[k]);
        lemma_intern(w, p[k]);
        let more = out.push(Value::Str(s));
        assert forall|j: int| 0 <= j < more.len() implies says(
            w1,
            #[trigger] more[j],
            p.take(k + 1)[j],
        ) by {
            if j < k {
                assert(more[j] == out[j]);
                assert(says(w, out[j], p.take(k)[j]));
            }
        }
        lemma_pieces_interned(w1, p, k + 1, more);
    } else {
        assert(p.take(k) =~= p);
    }
}

/// `split` by a text gives an array of the pieces of the text, in order.
#[verifier::spinoff_prover]
#[verifier::rlimit(60)]
pub proof fn law_split_gives_the_pieces(w: World, t: u64, p: u64, max: u64) -> (l: Seq<Value>)
    requires
        w.strings.len() + w.units(t).len() + 1 < u64::MAX,
        w.units(p).len() > 0,
        w.units(t).len() < u32::MAX,
        w.asked.len() < w.answers.len(),
        split_string(w, Value::Str(t), seq![Value::Str(p)], max).1 is Ok,
    ensures
        ({
            let (u, x) = (w.units(t), w.units(p));
            let w1 = split_string(w, Value::Str(t), seq![Value::Str(p)], max).0;
            &&& told(w, w1, Op::NewArray, l)
            &&& all_say(w1, l, pieces(u, x, 0, u.len() + 1int))
        }),
{
    let (u, x) = (w.units(t), w.units(p));
    let args = seq![Value::Str(p)];
    assert(args[0] == Value::Str(p));
    let all = pieces(u, x, 0, u32::MAX as int);
    lemma_limits_agree(u, x, 0, u32::MAX as int, u.len() + 1int);
    lemma_pieces_count(u, x, 0, u.len() + 1int);
    assert(all.take(0) =~= Seq::<Units>::empty());
    lemma_pieces_interned(w, all, 0, Seq::empty());
    let (w1, l) = crate::string_patterns::pieces_interned(w, all, 0, Seq::empty());
    let wf = split_string(w, Value::Str(t), args, max).0;
    assert(wf == w1.plain(Op::NewArray, l).0);
    assert(wf.asked[w1.asked.len() as int] == question(Op::NewArray, l));
    l
}

proof fn lemma_limits_agree(s: Units, sep: Units, start: int, a: int, b: int)
    requires
        sep.len() > 0,
        0 <= start <= s.len(),
        a > s.len() - start,
        b > s.len() - start,
    ensures
        pieces(s, sep, start, a) == pieces(s, sep, start, b),
    decreases s.len() - start,
{
    law_first_is_first(s, sep, start);
    if let Some(p) = first_from(s, sep, start) {
        lemma_limits_agree(s, sep, p + sep.len(), a - 1, b - 1);
    }
}

proof fn lemma_pieces_count(s: Units, sep: Units, start: int, limit: int)
    requires
        sep.len() > 0,
        0 <= start <= s.len(),
        limit > s.len() - start,
    ensures
        pieces(s, sep, start, limit).len() <= s.len() - start + 1,
    decreases s.len() - start,
{
    law_first_is_first(s, sep, start);
    if let Some(p) = first_from(s, sep, start) {
        lemma_pieces_count(s, sep, p + sep.len(), limit - 1);
    }
}

/// `match`, `search`, `replace` and `split` leave the work to the pattern where it has a method for
/// it: that is called on the pattern, with the text and what else there is, and its result is theirs.
pub proof fn law_patterns_do_the_work(
    w: World,
    this: Value,
    pattern: Value,
    other: Value,
    m: Value,
    r: Value,
    max: u64,
)
    requires
        !this.nullish(),
        pattern.object(),
        m.callable(),
        w.asked.len() + 1 < w.answers.len(),
        w.answers[w.asked.len() as int] == Answer::Value(m),
        w.answers[w.asked.len() + 1int] == Answer::Value(r),
    ensures
        ({
            let asks = |sym: WellKnown, list: Seq<Value>|
                w.asked.push(question(Op::Get(pattern, Key::Symbol(sym)), Seq::empty())).push(
                    question(Op::Call(m, pattern), list),
                );
            let found = matched(w, this, seq![pattern]);
            let at = sought(w, this, seq![pattern]);
            let new = replaced(w, this, seq![pattern, other]);
            let parts = split_string(w, this, seq![pattern, other], max);
            &&& found.1 == Ok::<Value, Value>(r)
            &&& found.0.asked == asks(WellKnown::Match, seq![this])
            &&& at.1 == Ok::<Value, Value>(r)
            &&& at.0.asked == asks(WellKnown::Search, seq![this])
            &&& new.1 == Ok::<Value, Value>(r)
            &&& new.0.asked == asks(WellKnown::Replace, seq![this, other])
            &&& parts.1 == Ok::<Value, Value>(r)
            &&& parts.0.asked == asks(WellKnown::Split, seq![this, other])
        }),
{
    assert(seq![pattern][0] == pattern);
    assert(seq![pattern, other][0] == pattern && seq![pattern, other][1] == other);
}

// Making texts

/// `String.fromCharCode` makes a text of the codes, each taken modulo two to the sixteenth.
pub proof fn law_char_codes_make_a_text(w: World, codes: Seq<u64>, k: int, out: Units)
    requires
        w.strings.len() < u64::MAX,
        0 <= k <= codes.len(),
        forall|j: int| 0 <= j < codes.len() ==> #[trigger] codes[j] <= 0xffff,
    ensures
        ({
            let args = Seq::new(codes.len(), |j: int| place(codes[j] as int));
            let (w1, r) = char_codes_from(w, args, k, out);
            &&& r is Ok
            &&& says(
                w1,
                r->Ok_0,
                out + Seq::new((codes.len() - k) as nat, |j: int| codes[k + j] as u16),
            )
        }),
    decreases codes.len() - k,
{
    let args = Seq::new(codes.len(), |j: int| place(codes[j] as int));
    let rest = Seq::new((codes.len() - k) as nat, |j: int| codes[k + j] as u16);
    if k < codes.len() {
        let c = codes[k] as int;
        num::law_numbers_hold_their_integer(c);
        let u = crate::string_methods::modulo_u16(num::number(c));
        assert(u == c) by {
            assert(num::modulo_u32(num::number(c)) == c) by {
                vstd::arithmetic::div_mod::lemma_small_mod(c as nat, 0x1_0000_0000);
            }
        }
        law_char_codes_make_a_text(w, codes, k + 1, out.push(u));
        let tail = Seq::new((codes.len() - k - 1) as nat, |j: int| codes[k + 1 + j] as u16);
        assert(out.push(u) + tail =~= out + rest);
    } else {
        lemma_intern(w, out);
        assert(out + rest =~= out);
    }
}

/// `String.fromCodePoint` writes a code point below 0x10000 as one unit and any other as a pair of
/// surrogates; a number that is no code point is refused.
pub proof fn law_code_points_make_a_text(w: World, cp: int)
    requires
        w.strings.len() < u64::MAX,
        0 <= cp <= num::MAX_SAFE,
    ensures
        ({
            let (w1, r) = code_points_from(w, seq![place(cp)], 0, Seq::empty());
            &&& cp < 0x10000 ==> r is Ok && says(w1, r->Ok_0, seq![cp as u16])
            &&& 0x10000 <= cp <= 0x10ffff ==> exists|h: u16, l: u16|
                {
                    &&& 0xd800 <= h <= 0xdbff && 0xdc00 <= l <= 0xdfff
                    &&& cp == (h - 0xd800) * 0x400 + (l - 0xdc00) + 0x10000
                    &&& r is Ok && says(w1, r->Ok_0, #[trigger] seq![h, l])
                }
            &&& cp > 0x10ffff ==> r is Err
        }),
{
    num::law_numbers_hold_their_integer(cp);
    let args = seq![place(cp)];
    assert(args[0] == place(cp));
    reveal_with_fuel(code_points_from, 3);
    if cp <= 0x10ffff {
        let e = crate::string::encoded(cp);
        assert(Seq::<u16>::empty() + e =~= e);
        lemma_intern(w, e);
        if cp >= 0x10000 {
            let h = (0xd800 + (cp - 0x10000) / 0x400) as u16;
            let l = (0xdc00 + (cp - 0x10000) % 0x400) as u16;
            assert(e == seq![h, l]);
        }
    }
}

/// The HTML methods put the text between an opening and a closing tag; an attribute stands in the
/// opening one, its value between quotation marks.
pub proof fn law_html_tags_enclose(s: Units, tag: Units, attr: Units, value: Units)
    requires
        !value.contains('"' as u16),
    ensures
        crate::string::html(s, tag, Seq::empty(), value) == seq!['<' as u16] + tag + seq!['>' as u16]
            + s + seq!['<' as u16, '/' as u16] + tag + seq!['>' as u16],
        attr.len() > 0 ==> crate::string::html(s, tag, attr, value) == seq!['<' as u16] + tag + seq![
            ' ' as u16,
        ] + attr + seq!['=' as u16, '"' as u16] + value + seq!['"' as u16] + seq!['>' as u16] + s
            + seq!['<' as u16, '/' as u16] + tag + seq!['>' as u16],
{
    lemma_quoted(value);
    assert(crate::string::html(s, tag, Seq::empty(), value) =~= seq!['<' as u16] + tag + seq![
        '>' as u16,
    ] + s + seq!['<' as u16, '/' as u16] + tag + seq!['>' as u16]);
    if attr.len() > 0 {
        assert(crate::string::html(s, tag, attr, value) =~= seq!['<' as u16] + tag + seq![
            ' ' as u16,
        ] + attr + seq!['=' as u16, '"' as u16] + value + seq!['"' as u16] + seq!['>' as u16] + s
            + seq!['<' as u16, '/' as u16] + tag + seq!['>' as u16]);
    }
}

proof fn lemma_quoted(s: Units)
    requires
        !s.contains('"' as u16),
    ensures
        crate::string::quoted(s) == s,
    decreases s.len(),
{
    if s.len() > 0 {
        assert(s.contains(s.last()));
        assert(!s.drop_last().contains('"' as u16)) by {
            if s.drop_last().contains('"' as u16) {
                let j = choose|j: int|
                    0 <= j < s.drop_last().len() && s.drop_last()[j] == '"' as u16;
                assert(s[j] == '"' as u16);
            }
        }
        lemma_quoted(s.drop_last());
        assert(s.drop_last() + seq![s.last()] =~= s);
    }
}

// Limits, callbacks and expressions

proof fn lemma_limited(s: Units, sep: Units, start: int, limit: int)
    requires
        sep.len() > 0,
        0 <= start <= s.len(),
        0 <= limit,
    ensures
        ({
            let all = pieces(s, sep, start, s.len() - start + 1);
            pieces(s, sep, start, limit) == all.take(
                if limit < all.len() {
                    limit
                } else {
                    all.len() as int
                },
            )
        }),
    decreases s.len() - start,
{
    law_first_is_first(s, sep, start);
    let all = pieces(s, sep, start, s.len() - start + 1);
    let part = pieces(s, sep, start, limit);
    if limit == 0 {
        assert(part =~= all.take(0));
    } else {
        match first_from(s, sep, start) {
            None => {
                assert(part =~= all.take(1));
            },
            Some(p) => {
                let next = p + sep.len();
                lemma_limited(s, sep, next, limit - 1);
                lemma_limits_agree(s, sep, next, s.len() - start, s.len() - next + 1);
                let rest = pieces(s, sep, next, s.len() - next + 1);
                let one = seq![between(s, start, p)];
                assert(all == one + rest);
                assert(part =~= all.take(
                    if limit < all.len() {
                        limit
                    } else {
                        all.len() as int
                    },
                ));
            },
        }
    }
}

/// `split` with a limit gives the first pieces, as many as the limit allows.
#[verifier::spinoff_prover]
#[verifier::rlimit(60)]
pub proof fn law_split_stops_at_the_limit(w: World, t: u64, p: u64, limit: int, max: u64) -> (l: Seq<
    Value,
>)
    requires
        0 <= limit <= u32::MAX,
        w.strings.len() + w.units(t).len() + 1 < u64::MAX,
        w.units(p).len() > 0,
        w.asked.len() < w.answers.len(),
        split_string(w, Value::Str(t), seq![Value::Str(p), place(limit)], max).1 is Ok,
    ensures
        ({
            let (u, x) = (w.units(t), w.units(p));
            let w1 = split_string(w, Value::Str(t), seq![Value::Str(p), place(limit)], max).0;
            let all = pieces(u, x, 0, u.len() + 1int);
            &&& told(w, w1, Op::NewArray, l)
            &&& all_say(
                w1,
                l,
                all.take(
                    if limit < all.len() {
                        limit
                    } else {
                        all.len() as int
                    },
                ),
            )
        }),
{
    let (u, x) = (w.units(t), w.units(p));
    let args = seq![Value::Str(p), place(limit)];
    assert(args[0] == Value::Str(p) && args[1] == place(limit));
    num::law_numbers_hold_their_integer(limit);
    assert(num::modulo_u32(num::number(limit)) == limit) by {
        vstd::arithmetic::div_mod::lemma_small_mod(limit as nat, 0x1_0000_0000);
    }
    let part = pieces(u, x, 0, limit);
    lemma_limited(u, x, 0, limit);
    lemma_pieces_count(u, x, 0, u.len() + 1int);
    assert(part.take(0) =~= Seq::<Units>::empty());
    let wf = split_string(w, Value::Str(t), args, max).0;
    if limit == 0 {
        let l = Seq::<Value>::empty();
        assert(wf.asked[w.asked.len() as int] == question(Op::NewArray, l));
        l
    } else {
        lemma_pieces_interned(w, part, 0, Seq::empty());
        let (w1, l) = crate::string_patterns::pieces_interned(w, part, 0, Seq::empty());
        assert(wf == w1.plain(Op::NewArray, l).0);
        assert(wf.asked[w1.asked.len() as int] == question(Op::NewArray, l));
        l
    }
}

/// `replace` with a function calls it with the match, its position and the text, and puts what it gives
/// in the place of the match.
pub proof fn law_replace_asks_the_function(w: World, t: u64, p: u64, f: Value, r: u64)
    requires
        w.strings.len() + 1 < u64::MAX,
        t < w.strings.len(),
        p < w.strings.len(),
        f.callable(),
        w.units(t).len() <= num::COUNT_LIMIT,
        r < w.strings.len(),
        first_from(w.units(t), w.units(p), 0) is Some,
        w.asked.len() < w.answers.len(),
        w.answers[w.asked.len() as int] == Answer::Value(Value::Str(r)),
    ensures
        ({
            let (u, x) = (w.units(t), w.units(p));
            let k = first_from(u, x, 0)->0;
            let out = replaced(w, Value::Str(t), seq![Value::Str(p), f]);
            &&& out.1 is Ok
            &&& says(out.0, out.1->Ok_0, u.take(k) + w.units(r) + u.skip(k + x.len()))
            &&& exists|m: Value|
                {
                    &&& #[trigger] says(out.0, m, x)
                    &&& out.0.asked == w.asked.push(
                        question(
                            Op::Call(f, Value::Undefined),
                            seq![m, place(k), Value::Str(t)],
                        ),
                    )
                }
        }),
{
    let (u, x) = (w.units(t), w.units(p));
    let args = seq![Value::Str(p), f];
    assert(args[0] == Value::Str(p) && args[1] == f);
    law_first_is_first(u, x, 0);
    let k = first_from(u, x, 0)->0;
    assert(num::position(k) == num::number(k));
    lemma_intern(w, x);
    let (w1, m) = w.intern(x);
    let list = seq![Value::Str(m), place(k), Value::Str(t)];
    let (w2, res) = w1.call(f, Value::Undefined, list);
    assert(w2.units(r) == w.units(r));
    let whole = u.subrange(0, k) + w.units(r) + u.subrange(k + x.len(), u.len() as int);
    assert(whole =~= u.take(k) + w.units(r) + u.skip(k + x.len()));
    lemma_intern(w2, whole);
    let out = replaced(w, Value::Str(t), args);
    assert(out.0.asked == w.asked.push(question(Op::Call(f, Value::Undefined), list)));
    assert(says(out.0, Value::Str(m), x));
}

/// `match` and `search` of a text make an expression of it, without flags, and leave the work to that.
pub proof fn law_texts_become_expressions(w: World, t: u64, p: u64, rx: Value, m: Value, r: Value)
    requires
        w.strings.len() + 1 < u64::MAX,
        w.asked.len() + 2 < w.answers.len(),
        w.answers[w.asked.len() as int] == Answer::Value(rx),
        w.answers[w.asked.len() + 1int] == Answer::Value(m),
        w.answers[w.asked.len() + 2int] == Answer::Value(r),
    ensures
        ({
            let n = w.asked.len() as int;
            let found = matched(w, Value::Str(t), seq![Value::Str(p)]);
            let at = sought(w, Value::Str(t), seq![Value::Str(p)]);
            &&& found.1 == Ok::<Value, Value>(r) && at.1 == Ok::<Value, Value>(r)
            &&& found.0.asked[n].op == Op::NewRegExp && at.0.asked[n].op == Op::NewRegExp
            &&& found.0.asked[n].list.len() == 2 && found.0.asked[n].list[0] == Value::Str(p)
            &&& says(found.0, found.0.asked[n].list[1], Seq::empty())
            &&& found.0.asked[n + 1] == question(
                Op::Get(rx, Key::Symbol(WellKnown::Match)),
                Seq::empty(),
            )
            &&& at.0.asked[n + 1] == question(
                Op::Get(rx, Key::Symbol(WellKnown::Search)),
                Seq::empty(),
            )
            &&& found.0.asked[n + 2] == question(Op::Call(m, rx), seq![Value::Str(t)])
            &&& at.0.asked[n + 2] == question(Op::Call(m, rx), seq![Value::Str(t)])
        }),
{
    assert(seq![Value::Str(p)][0] == Value::Str(p));
    lemma_intern(w, Seq::empty());
}

/// `concat` puts the texts one behind the other.
pub proof fn law_concat_appends_texts(w: World, t: u64, p: u64, q: u64, limit: usize)
    requires
        w.strings.len() < u64::MAX,
        crate::string_methods::concatenated(
            w,
            Value::Str(t),
            seq![Value::Str(p), Value::Str(q)],
            limit,
        ).1 is Ok,
    ensures
        ({
            let (w1, r) = crate::string_methods::concatenated(
                w,
                Value::Str(t),
                seq![Value::Str(p), Value::Str(q)],
                limit,
            );
            says(w1, r->Ok_0, w.units(t) + w.units(p) + w.units(q))
        }),
{
    let args = seq![Value::Str(p), Value::Str(q)];
    assert(args[0] == Value::Str(p) && args[1] == Value::Str(q));
    reveal_with_fuel(crate::string_methods::concat_from, 4);
    lemma_intern(w, w.units(t) + w.units(p) + w.units(q));
}

} // verus!
