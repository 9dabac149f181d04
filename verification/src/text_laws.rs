//! How Numbers and URIs are written out and read.
use vstd::prelude::*;
use crate::globals::{
    digits_from, float_text, hex_mark, infinity_text, integer_text, run_end, sign_at, FloatText,
};
use crate::num_format::{
    digit_units, exponent_units, exponential_text, laid_out, number_units, rounded,
};
use crate::string::{occurs_at, trimmed_end, trimmed_start, white, Units};
use crate::uri::{code_point_encoded, octets, percent, percents, plain_unit, unit_escaped};

verus! {

// Decimal digits

/// Whether a unit is a decimal digit.
pub open spec fn is_decimal(c: u16) -> bool {
    '0' as u16 <= c <= '9' as u16
}

/// The number that a run of decimal digits stands for.
pub open spec fn reads_as(u: Units) -> int
    decreases u.len(),
{
    if u.len() == 0 {
        0
    } else {
        reads_as(u.drop_last()) * 10 + (u.last() - '0' as u16)
    }
}

/// An integer is written with decimal digits that read as it, and without a zero in front.
#[verifier::spinoff_prover]
#[verifier::rlimit(60)]
pub proof fn law_integers_are_written_in_decimal(n: int)
    requires
        n >= 0,
    ensures
        number_units(n).len() > 0,
        reads_as(number_units(n)) == n,
        forall|j: int| 0 <= j < number_units(n).len() ==> is_decimal(#[trigger] number_units(n)[j]),
        n > 0 ==> number_units(n)[0] != '0' as u16,
    decreases n,
{
    let u = number_units(n);
    if n < 10 {
        assert(u.drop_last() =~= Seq::empty());
        assert(reads_as(u.drop_last()) == 0);
    } else {
        law_integers_are_written_in_decimal(n / 10);
        let front = number_units(n / 10);
        assert(u.drop_last() =~= front);
        assert forall|j: int| 0 <= j < u.len() implies is_decimal(#[trigger] u[j]) by {
            if j < front.len() {
                assert(u[j] == front[j]);
            }
        }
        assert(u[0] == front[0]);
    }
}

/// The digits as they are written.
pub open spec fn written_digits(d: Seq<u8>) -> Units {
    Seq::new(d.len(), |j: int| ('0' as u16 + d[j]) as u16)
}

/// The sign as it is written.
pub open spec fn minus(negative: bool) -> Units {
    if negative {
        seq!['-' as u16]
    } else {
        Seq::empty()
    }
}

/// An exponent as it is written, always with its sign.
pub open spec fn written_exponent(e: int) -> Units {
    seq!['e' as u16, if e < 0 {
        '-' as u16
    } else {
        '+' as u16
    }] + number_units(
        if e < 0 {
            -e
        } else {
            e
        },
    )
}

/// Digits with a point behind the first `k`; without one where there are no more.
pub open spec fn pointed(d: Seq<u8>, k: int) -> Units {
    if k >= d.len() {
        written_digits(d)
    } else {
        written_digits(d.take(k)) + seq!['.' as u16] + written_digits(d.skip(k))
    }
}

/// `toPrecision` writes the digits with the point where the exponent says, with zeros before them
/// where it lies in front, and in exponential form where it is below minus six or beyond the digits.
#[verifier::spinoff_prover]
#[verifier::rlimit(60)]
pub proof fn law_digits_are_laid_out(negative: bool, d: Seq<u8>, e: int)
    requires
        d.len() > 0,
        forall|j: int| 0 <= j < d.len() ==> #[trigger] d[j] < 10,
    ensures
        -6 <= e < 0 ==> laid_out(negative, d, e) == minus(negative) + seq!['0' as u16, '.' as u16]
            + Seq::new((-e - 1) as nat, |j: int| '0' as u16) + written_digits(d),
        0 <= e < d.len() ==> laid_out(negative, d, e) == minus(negative) + pointed(d, e + 1),
        e < -6 || e >= d.len() ==> laid_out(negative, d, e) == minus(negative) + pointed(d, 1)
            + written_exponent(e),
{
    assert(digit_units(d) =~= written_digits(d));
    if -6 <= e < 0 {
        assert(laid_out(negative, d, e) =~= minus(negative) + seq!['0' as u16, '.' as u16]
            + Seq::new((-e - 1) as nat, |j: int| '0' as u16) + written_digits(d));
    } else if 0 <= e < d.len() {
        if e + 1 < d.len() {
            assert(digit_units(d.take(e + 1)) =~= written_digits(d.take(e + 1)));
            assert(digit_units(d.skip(e + 1)) =~= written_digits(d.skip(e + 1)));
        }
        assert(laid_out(negative, d, e) =~= minus(negative) + pointed(d, e + 1));
    } else {
        assert(digit_units(d.take(1)) =~= written_digits(d.take(1)));
        assert(digit_units(d.skip(1)) =~= written_digits(d.skip(1)));
        assert(exponent_units(e) =~= written_exponent(e));
        assert(laid_out(negative, d, e) =~= minus(negative) + pointed(d, 1) + written_exponent(e));
    }
}

/// `toExponential` writes one digit before the point, so many behind it, rounded, and the exponent,
/// which is one higher where the rounding carried over.
pub proof fn law_exponential_form(negative: bool, d: Seq<u8>, e: int, fraction: int)
    requires
        fraction >= 0,
    ensures
        ({
            let (r, carry) = rounded(d, fraction + 1);
            exponential_text(negative, d, e, fraction) == minus(negative) + pointed(r, 1)
                + written_exponent(
                if carry {
                    e + 1
                } else {
                    e
                },
            )
        }),
{
    let (r, carry) = rounded(d, fraction + 1);
    let x = if carry {
        e + 1
    } else {
        e
    };
    assert(digit_units(r) =~= written_digits(r));
    assert(digit_units(r.take(1)) =~= written_digits(r.take(1)));
    assert(digit_units(r.skip(1)) =~= written_digits(r.skip(1)));
    assert(exponent_units(x) =~= written_exponent(x));
    assert(exponential_text(negative, d, e, fraction) =~= minus(negative) + pointed(r, 1)
        + written_exponent(x));
}

// parseInt

/// The value of a digit or a letter.
pub open spec fn digit_value(c: u16) -> int {
    if '0' as u16 <= c <= '9' as u16 {
        c - '0' as u16
    } else if 'a' as u16 <= c <= 'z' as u16 {
        10 + (c - 'a' as u16)
    } else if 'A' as u16 <= c <= 'Z' as u16 {
        10 + (c - 'A' as u16)
    } else {
        36
    }
}

proof fn lemma_digits(t: Units, p: int, n: int, radix: u32)
    requires
        2 <= radix <= 36,
        0 <= p,
        0 <= n,
        p + n <= t.len(),
        forall|j: int| p <= j < p + n ==> digit_value(#[trigger] t[j]) < radix,
        p + n < t.len() ==> digit_value(t[p + n]) >= radix,
    ensures
        digits_from(t, p, radix).len() == n,
        forall|j: int|
            0 <= j < n ==> #[trigger] digits_from(t, p, radix)[j] == digit_value(t[p + j]),
    decreases n,
{
    if n > 0 {
        assert(digit_value(t[p]) < radix);
        lemma_digits(t, p + 1, n - 1, radix);
        let rest = digits_from(t, p + 1, radix);
        let all = digits_from(t, p, radix);
        assert(all == seq![digit_value(t[p]) as u32] + rest);
        assert forall|j: int| 0 <= j < n implies #[trigger] all[j] == digit_value(t[p + j]) by {
            if j > 0 {
                assert(all[j] == rest[j - 1]);
                assert(rest[j - 1] == digit_value(t[p + 1 + (j - 1)]));
            }
        }
    }
}

/// `parseInt` reads a sign and then as many digits as there are: the digits of the radix, ten where it
/// is zero, up to the first unit that is none. White space around is left out, and a mark for base
/// sixteen stands in front only where that is the radix or none is given.
#[verifier::spinoff_prover]
#[verifier::rlimit(60)]
pub proof fn law_parse_int_reads_the_digits(t: Units, radix: u32, n: int)
    requires
        t.len() > 0 ==> !white(t[0]) && !white(t.last()),
        radix == 0 || 2 <= radix <= 36,
        ({
            let base = if radix == 0 {
                10u32
            } else {
                radix
            };
            let p: int = if t.len() > 0 && (t[0] == '-' as u16 || t[0] == '+' as u16) {
                1
            } else {
                0
            };
            &&& 0 <= n
            &&& p + n <= t.len()
            &&& forall|j: int| p <= j < p + n ==> digit_value(#[trigger] t[j]) < base
            &&& p + n < t.len() ==> digit_value(t[p + n]) >= base
            &&& radix == 0 || radix == 16 ==> !(p + 1 < t.len() && t[p] == '0' as u16 && (t[p + 1]
                == 'x' as u16 || t[p + 1] == 'X' as u16))
        }),
    ensures
        n == 0 ==> integer_text(t, radix) is None,
        n > 0 ==> ({
            let p: int = if t[0] == '-' as u16 || t[0] == '+' as u16 {
                1
            } else {
                0
            };
            &&& integer_text(t, radix) is Some
            &&& integer_text(t, radix)->0.negative == (t[0] == '-' as u16)
            &&& integer_text(t, radix)->0.radix == if radix == 0 {
                10u32
            } else {
                radix
            }
            &&& integer_text(t, radix)->0.digits.len() == n
            &&& forall|j: int|
                0 <= j < n ==> #[trigger] integer_text(t, radix)->0.digits[j] == digit_value(
                    t[p + j],
                )
        }),
{
    let base = if radix == 0 {
        10u32
    } else {
        radix
    };
    let p: int = if t.len() > 0 && (t[0] == '-' as u16 || t[0] == '+' as u16) {
        1
    } else {
        0
    };
    assert(trimmed_start(t) == t);
    assert(trimmed_end(t) == t);
    assert(sign_at(t, 0).1 == p);
    lemma_digits(t, p, n, base);
}

/// Behind a mark for base sixteen the digits are hexadecimal, where that is the radix or none is given.
pub proof fn law_parse_int_knows_the_mark(t: Units, radix: u32, n: int)
    requires
        radix == 0 || radix == 16,
        t.len() >= 2,
        t[0] == '0' as u16,
        t[1] == 'x' as u16 || t[1] == 'X' as u16,
        !white(t.last()),
        0 < n,
        2 + n <= t.len(),
        forall|j: int| 2 <= j < 2 + n ==> digit_value(#[trigger] t[j]) < 16,
        2 + n < t.len() ==> digit_value(t[2 + n]) >= 16,
    ensures
        integer_text(t, radix) is Some,
        integer_text(t, radix)->0.radix == 16,
        !integer_text(t, radix)->0.negative,
        integer_text(t, radix)->0.digits.len() == n,
        forall|j: int|
            0 <= j < n ==> #[trigger] integer_text(t, radix)->0.digits[j] == digit_value(t[2 + j]),
{
    assert(trimmed_start(t) == t);
    assert(trimmed_end(t) == t);
    assert(hex_mark(t, 0));
    lemma_digits(t, 2, n, 16);
}

// URIs

/// A letter or a digit of the basic alphabet.
pub open spec fn basic(c: int) -> bool {
    ||| 'a' as int <= c <= 'z' as int
    ||| 'A' as int <= c <= 'Z' as int
    ||| '0' as int <= c <= '9' as int
}

/// What a URI component may hold as it is.
pub open spec fn stays_in_component(c: int) -> bool {
    ||| basic(c)
    ||| c == '-' as int || c == '_' as int || c == '.' as int || c == '!' as int
    ||| c == '~' as int || c == '*' as int || c == 39 || c == '(' as int || c == ')' as int
}

/// What a whole URI may hold besides.
pub open spec fn stays_in_uri(c: int) -> bool {
    ||| stays_in_component(c)
    ||| c == ';' as int || c == '/' as int || c == '?' as int || c == ':' as int
    ||| c == '@' as int || c == '&' as int || c == '=' as int || c == '+' as int
    ||| c == '$' as int || c == ',' as int || c == '#' as int
}

/// A hexadecimal digit as it is written out, in capitals.
pub open spec fn hex_capital(c: u16, n: int) -> bool {
    if n < 10 {
        c == '0' as u16 + n
    } else {
        c == 'A' as u16 + (n - 10)
    }
}

/// An octet is written as a percent sign and two hexadecimal digits, the high one first.
pub proof fn law_octets_are_written_in_hex(b: int)
    requires
        0 <= b < 256,
    ensures
        percent(b).len() == 3,
        percent(b)[0] == '%' as u16,
        exists|h: int, l: int|
            0 <= h < 16 && 0 <= l < 16 && b == 16 * h + l && #[trigger] hex_capital(percent(b)[1], h)
                && #[trigger] hex_capital(percent(b)[2], l),
{
    let (h, l) = (b / 16, b % 16);
    assert(hex_capital(percent(b)[1], h) && hex_capital(percent(b)[2], l));
}

/// A code point that may stay is written as it is; any other is written as its octets, one after the
/// other: a lead that says how many there are, and continuations of six bits each.
pub proof fn law_uri_encoding(cp: int, whole: bool)
    requires
        0 <= cp < 0x110000,
    ensures
        (if whole {
            stays_in_uri(cp)
        } else {
            stays_in_component(cp)
        }) ==> code_point_encoded(cp, whole) == seq![cp as u16],
        !(if whole {
            stays_in_uri(cp)
        } else {
            stays_in_component(cp)
        }) ==> code_point_encoded(cp, whole) == percents(octets(cp)),
        cp < 0x80 ==> octets(cp) == seq![cp],
        0x80 <= cp < 0x800 ==> ({
            let o = octets(cp);
            &&& o.len() == 2 && 0xc0 <= o[0] < 0xe0 && 0x80 <= o[1] < 0xc0
            &&& cp == (o[0] - 0xc0) * 0x40 + (o[1] - 0x80)
        }),
        0x800 <= cp < 0x10000 ==> ({
            let o = octets(cp);
            &&& o.len() == 3 && 0xe0 <= o[0] < 0xf0 && 0x80 <= o[1] < 0xc0 && 0x80 <= o[2] < 0xc0
            &&& cp == (o[0] - 0xe0) * 0x1000 + (o[1] - 0x80) * 0x40 + (o[2] - 0x80)
        }),
        0x10000 <= cp ==> ({
            let o = octets(cp);
            &&& o.len() == 4 && 0xf0 <= o[0] < 0xf8 && 0x80 <= o[1] < 0xc0 && 0x80 <= o[2] < 0xc0
            &&& 0x80 <= o[3] < 0xc0
            &&& cp == (o[0] - 0xf0) * 0x40000 + (o[1] - 0x80) * 0x1000 + (o[2] - 0x80) * 0x40 + (o[3]
                - 0x80)
        }),
{
}

/// The octets are written in order.
pub proof fn law_octets_are_written_in_order(b: Seq<int>, x: int)
    ensures
        percents(Seq::empty()) == Seq::<u16>::empty(),
        percents(seq![x] + b) == percent(x) + percents(b),
{
    assert((seq![x] + b).drop_first() =~= b);
}

/// `escape` leaves letters, digits and seven signs, writes a unit below 256 with two digits and any
/// other with a mark and four.
#[verifier::spinoff_prover]
#[verifier::rlimit(60)]
pub proof fn law_escape_of_a_unit(c: u16)
    ensures
        ({
            let stays = basic(c as int) || c == '@' as u16 || c == '*' as u16 || c == '_' as u16 || c
                == '+' as u16 || c == '-' as u16 || c == '.' as u16 || c == '/' as u16;
            let e = unit_escaped(c);
            &&& stays ==> e == seq![c]
            &&& !stays && c < 256 ==> e == percent(c as int)
            &&& !stays && c >= 256 ==> {
                &&& e.len() == 6 && e[0] == '%' as u16 && e[1] == 'u' as u16
                &&& exists|p: int, q: int, r: int, s: int|
                    {
                        &&& 0 <= p < 16 && 0 <= q < 16 && 0 <= r < 16 && 0 <= s < 16
                        &&& c == p * 0x1000 + q * 0x100 + r * 0x10 + s
                        &&& #[trigger] hex_capital(e[2], p) && #[trigger] hex_capital(e[3], q)
                        &&& #[trigger] hex_capital(e[4], r) && #[trigger] hex_capital(e[5], s)
                    }
            }
        }),
{
    let e = unit_escaped(c);
    let x = c as int;
    if !plain_unit(x) && c >= 256 {
        let (p, q, r, s) = (x / 0x1000, x / 0x100 % 16, x / 0x10 % 16, x % 16);
        assert(hex_capital(e[2], p) && hex_capital(e[3], q));
        assert(hex_capital(e[4], r) && hex_capital(e[5], s));
        assert(c == p * 0x1000 + q * 0x100 + r * 0x10 + s);
    }
}

// parseFloat

proof fn lemma_run(t: Units, p: int, n: int)
    requires
        0 <= p,
        0 <= n,
        p + n <= t.len(),
        forall|j: int| p <= j < p + n ==> is_decimal(#[trigger] t[j]),
        p + n < t.len() ==> !is_decimal(t[p + n]),
    ensures
        run_end(t, p) == p + n,
    decreases n,
{
    if n > 0 {
        assert(is_decimal(t[p]));
        lemma_run(t, p + 1, n - 1);
    }
}

/// `parseFloat` reads a run of digits, with a point and a run behind it where there is one, and stops
/// at what belongs to no number. Without a digit there is none.
pub proof fn law_parse_float_reads_the_literal(t: Units, n: int, m: int)
    requires
        0 < n,
        0 <= m,
        n + 1 + m <= t.len(),
        forall|j: int| 0 <= j < n ==> is_decimal(#[trigger] t[j]),
        t[n] == '.' as u16,
        forall|j: int| n < j < n + 1 + m ==> is_decimal(#[trigger] t[j]),
        n + 1 + m < t.len() ==> !is_decimal(t[n + 1 + m]) && t[n + 1 + m] != 'e' as u16 && t[n + 1 + m]
            != 'E' as u16,
    ensures
        float_text(t) == FloatText::Decimal(t.take(n + 1 + m)),
        float_text(t.take(n)) == FloatText::Decimal(t.take(n)),
{
    assert(is_decimal(t[0]));
    assert(trimmed_start(t) == t);
    lemma_run(t, 0, n);
    lemma_run(t, n + 1, m);
    lemma_no_infinity(t);
    assert(t.subrange(0, n + 1 + m) =~= t.take(n + 1 + m));
    let s = t.take(n);
    assert(s[0] == t[0]);
    assert(trimmed_start(s) == s);
    lemma_run(s, 0, n);
    lemma_no_infinity(s);
    assert(s.subrange(0, n) =~= s);
}

proof fn lemma_no_infinity(t: Units)
    requires
        t.len() > 0,
        is_decimal(t[0]),
    ensures
        !occurs_at(t, infinity_text(), 0),
{
    if occurs_at(t, infinity_text(), 0) {
        let w = infinity_text();
        assert(t.subrange(0, w.len() as int)[0] == t[0]);
        assert(w[0] == 0x49);
    }
}

/// The word for infinity, with its sign, is read as such.
pub proof fn law_parse_float_knows_infinity(rest: Units)
    ensures
        float_text(
            seq![
                'I' as u16, 'n' as u16, 'f' as u16, 'i' as u16, 'n' as u16, 'i' as u16, 't' as u16,
                'y' as u16,
            ] + rest,
        ) == (FloatText::Infinity { negative: false }),
{
    let word = seq![
        'I' as u16, 'n' as u16, 'f' as u16, 'i' as u16, 'n' as u16, 'i' as u16, 't' as u16,
        'y' as u16,
    ];
    let t = word + rest;
    assert(t[0] == 'I' as u16);
    assert(trimmed_start(t) == t);
    assert(word =~= infinity_text());
    assert(t.subrange(0, 8) =~= infinity_text());
}

} // verus!
