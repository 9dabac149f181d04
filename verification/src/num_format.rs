//! Decimal digits: rounding them, and laying them out as `toExponential` and `toPrecision` do.
use vstd::prelude::*;
use vstd::arithmetic::power::pow;
use vstd::arithmetic::power::lemma_pow0;
use vstd::arithmetic::power::lemma_pow1;
use crate::string::Units;

verus! {

/// The number that a run of decimal digits writes.
pub open spec fn decimal(d: Seq<u8>) -> nat
    decreases d.len(),
{
    if d.len() == 0 {
        0
    } else {
        decimal(d.drop_last()) * 10 + d.last() as nat
    }
}

pub open spec fn all_digits(d: Seq<u8>) -> bool {
    forall|j: int| 0 <= j < d.len() ==> #[trigger] d[j] < 10
}

/// `n` zeros.
pub open spec fn zeros(n: int) -> Seq<u8> {
    Seq::new(n as nat, |j: int| 0u8)
}

/// A one and zeros behind it.
pub open spec fn one_and_zeros(n: int) -> Seq<u8> {
    seq![1u8] + zeros(n - 1)
}

/// The digits cut to a number of them, and rounded up where the first that is cut is five or more:
/// ties go away from zero. A carry out of the first digit leaves a one and zeros.
pub open spec fn rounded(d: Seq<u8>, keep: int) -> (Seq<u8>, bool) {
    if d.len() <= keep {
        (d + zeros(keep - d.len()), false)
    } else if d[keep] < 5 {
        (d.take(keep), false)
    } else {
        match incremented(d.take(keep)) {
            Some(r) => (r, false),
            None => (one_and_zeros(keep), true),
        }
    }
}

/// The digits of the next number; none where every digit is a nine.
pub open spec fn incremented(d: Seq<u8>) -> Option<Seq<u8>>
    decreases d.len(),
{
    if d.len() == 0 {
        None
    } else if d.last() < 9 {
        Some(d.drop_last().push((d.last() + 1) as u8))
    } else {
        match incremented(d.drop_last()) {
            Some(r) => Some(r.push(0)),
            None => None,
        }
    }
}

fn copy_digits(d: &Vec<u8>, n: usize) -> (r: Vec<u8>)
    requires
        n <= d@.len(),
    ensures
        r@ == d@.take(n as int),
{
    let mut out: Vec<u8> = Vec::new();
    let mut j: usize = 0;
    assert(out@ =~= d@.take(0));
    while j < n
        invariant
            j <= n <= d@.len(),
            out@ == d@.take(j as int),
        decreases n - j,
    {
        out.push(d[j]);
        assert(out@ =~= d@.take(j + 1));
        j += 1;
    }
    out
}

fn push_zeros(out: &mut Vec<u8>, n: usize)
    requires
        old(out)@.len() <= n,
    ensures
        final(out)@ == old(out)@ + zeros(n - old(out)@.len()),
{
    let ghost before = out@;
    assert(out@ =~= before + zeros(0));
    while out.len() < n
        invariant
            before.len() <= out@.len() <= n,
            out@ == before + zeros(out@.len() - before.len()),
        decreases n - out@.len(),
    {
        out.push(0);
        assert(out@ =~= before + zeros(out@.len() - before.len()));
    }
}

proof fn lemma_incremented_tail(d: Seq<u8>, k: int)
    requires
        0 <= k < d.len(),
        d[k] < 9,
        forall|j: int| k < j < d.len() ==> #[trigger] d[j] >= 9,
    ensures
        incremented(d) == Some(
            d.take(k).push((d[k] + 1) as u8) + zeros(d.len() - k - 1),
        ),
    decreases d.len(),
{
    if k == d.len() - 1 {
        assert(d.drop_last() =~= d.take(k));
        assert(d.take(k).push((d[k] + 1) as u8) + zeros(0) =~= d.take(k).push((d[k] + 1) as u8));
    } else {
        assert(d[d.len() - 1] >= 9);
        lemma_incremented_tail(d.drop_last(), k);
        assert(d.drop_last().take(k) =~= d.take(k));
        assert((d.take(k).push((d[k] + 1) as u8) + zeros(d.len() - k - 2)).push(0) =~= d.take(
            k,
        ).push((d[k] + 1) as u8) + zeros(d.len() - k - 1));
    }
}

proof fn lemma_all_nines(d: Seq<u8>)
    requires
        forall|j: int| 0 <= j < d.len() ==> #[trigger] d[j] >= 9,
    ensures
        incremented(d) is None,
    decreases d.len(),
{
    if d.len() > 0 {
        assert(d[d.len() - 1] >= 9);
        lemma_all_nines(d.drop_last());
    }
}

/// Rounds decimal digits to `keep` of them; the flag says that the exponent goes up by one.
pub fn round_digits(d: &Vec<u8>, keep: usize) -> (r: (Vec<u8>, bool))
    requires
        keep > 0,
    ensures
        (r.0@, r.1) == rounded(d@, keep as int),
        r.0@.len() == keep,
        all_digits(d@) ==> all_digits(r.0@),
{
    if d.len() <= keep {
        let mut out = copy_digits(d, d.len());
        assert(out@ =~= d@);
        push_zeros(&mut out, keep);
        return (out, false);
    }
    let mut out = copy_digits(d, keep);
    if d[keep] < 5 {
        return (out, false);
    }
    let ghost start = out@;
    let mut k: usize = keep;
    while k > 0
        invariant
            k <= keep,
            start.len() == keep,
            start == d@.take(keep as int),
            keep < d@.len(),
            d@[keep as int] >= 5,
            out@.len() == keep,
            out@ == start.take(k as int) + zeros(keep - k),
            forall|j: int| k <= j < keep ==> #[trigger] start[j] >= 9,
        decreases k,
    {
        k -= 1;
        assert(out@[k as int] == start[k as int]);
        if out[k] >= 9 {
            out[k] = 0;
            assert(out@ =~= start.take(k as int) + zeros(keep - k));
        } else {
            out[k] = out[k] + 1;
            proof {
                lemma_incremented_tail(start, k as int);
                assert(out@ =~= start.take(k as int).push((start[k as int] + 1) as u8) + zeros(
                    keep - k - 1,
                ));
            }
            return (out, false);
        }
    }
    proof {
        lemma_all_nines(start);
    }
    let mut one: Vec<u8> = vec![1u8];
    assert(one@ =~= seq![1u8]);
    push_zeros(&mut one, keep);
    (one, true)
}

proof fn lemma_decimal_push(d: Seq<u8>, x: u8)
    ensures
        decimal(d.push(x)) == decimal(d) * 10 + x,
{
    assert(d.push(x).drop_last() =~= d);
}

proof fn lemma_incremented_value(d: Seq<u8>)
    requires
        all_digits(d),
    ensures
        match incremented(d) {
            Some(r) => decimal(r) == decimal(d) + 1,
            None => decimal(d) + 1 == pow(10, d.len()),
        },
    decreases d.len(),
{
    if d.len() == 0 {
        lemma_pow0(10);
    } else if d.last() < 9 {
        lemma_decimal_push(d.drop_last(), (d.last() + 1) as u8);
    } else {
        assert(d.last() == 9) by {
            assert(d[d.len() - 1] < 10);
        }
        lemma_incremented_value(d.drop_last());
        match incremented(d.drop_last()) {
            Some(r) => {
                lemma_decimal_push(r, 0);
            },
            None => {
                vstd::arithmetic::power::lemma_pow_adds(10, 1, (d.len() - 1) as nat);
                lemma_pow1(10);
            },
        }
    }
}

proof fn lemma_one_and_zeros(n: int)
    requires
        n >= 1,
    ensures
        decimal(one_and_zeros(n)) == pow(10, (n - 1) as nat),
    decreases n,
{
    let d = one_and_zeros(n);
    if n == 1 {
        assert(d =~= Seq::<u8>::empty().push(1));
        lemma_decimal_push(Seq::empty(), 1);
        lemma_pow0(10);
    } else {
        assert(d =~= one_and_zeros(n - 1).push(0));
        lemma_decimal_push(one_and_zeros(n - 1), 0);
        lemma_one_and_zeros(n - 1);
        vstd::arithmetic::power::lemma_pow_adds(10, 1, (n - 2) as nat);
        lemma_pow1(10);
    }
}

/// Rounding adds one to the digits that stay exactly when the first that is cut is five or more; a
/// carry stands for ten times the digits.
pub proof fn law_rounding_is_half_up(d: Seq<u8>, keep: int)
    requires
        all_digits(d),
        0 < keep < d.len(),
    ensures
        ({
            let (r, carry) = rounded(d, keep);
            let up: int = if d[keep] >= 5 {
                1
            } else {
                0
            };
            &&& r.len() == keep
            &&& decimal(r) * (if carry {
                10int
            } else {
                1int
            }) == decimal(d.take(keep)) + up
        }),
{
    let t = d.take(keep);
    if d[keep] >= 5 {
        lemma_incremented_value(t);
        lemma_incremented_len(t);
        lemma_one_and_zeros(keep);
        vstd::arithmetic::power::lemma_pow_adds(10, 1, (keep - 1) as nat);
        lemma_pow1(10);
    }
}

proof fn lemma_incremented_len(d: Seq<u8>)
    ensures
        incremented(d) matches Some(r) ==> r.len() == d.len(),
    decreases d.len(),
{
    if d.len() > 0 {
        lemma_incremented_len(d.drop_last());
    }
}

// Layout

/// A digit as a character.
pub open spec fn digit_unit(d: u8) -> u16 {
    (0x30 + d) as u16
}

pub open spec fn digit_units(d: Seq<u8>) -> Units {
    d.map_values(|x: u8| digit_unit(x))
}

fn push_digits(out: &mut Vec<u16>, d: &Vec<u8>, a: usize, b: usize)
    requires
        a <= b <= d@.len(),
        all_digits(d@),
    ensures
        final(out)@ == old(out)@ + digit_units(d@.subrange(a as int, b as int)),
{
    let ghost before = out@;
    let mut j: usize = a;
    assert(out@ =~= before + digit_units(d@.subrange(a as int, a as int)));
    while j < b
        invariant
            a <= j <= b <= d@.len(),
            all_digits(d@),
            out@ == before + digit_units(d@.subrange(a as int, j as int)),
        decreases b - j,
    {
        out.push(0x30 + d[j] as u16);
        assert(out@ =~= before + digit_units(d@.subrange(a as int, j + 1)));
        j += 1;
    }
}

/// The decimal digits of a number.
pub open spec fn number_units(n: int) -> Units
    decreases n,
{
    if n < 10 {
        seq![(0x30 + n) as u16]
    } else {
        number_units(n / 10).push((0x30 + n % 10) as u16)
    }
}

/// Appends the decimal digits of a number.
pub fn push_number(out: &mut Vec<u16>, n: u32)
    ensures
        final(out)@ == old(out)@ + number_units(n as int),
    decreases n,
{
    let ghost before = out@;
    if n < 10 {
        out.push(0x30 + n as u16);
        assert(out@ =~= before + number_units(n as int));
    } else {
        push_number(out, n / 10);
        out.push(0x30 + (n % 10) as u16);
        assert(out@ =~= before + number_units(n as int));
    }
}

/// `e+7`, `e-7`.
pub open spec fn exponent_units(e: int) -> Units {
    if e < 0 {
        seq![0x65u16, 0x2d] + number_units(-e)
    } else {
        seq![0x65u16, 0x2b] + number_units(e)
    }
}

fn push_exponent(out: &mut Vec<u16>, e: i32)
    requires
        e > i32::MIN,
    ensures
        final(out)@ == old(out)@ + exponent_units(e as int),
{
    let ghost before = out@;
    out.push(0x65);
    if e < 0 {
        out.push(0x2d);
        assert(out@ =~= before + seq![0x65u16, 0x2d]);
        push_number(out, (-e) as u32);
        assert(out@ =~= before + exponent_units(e as int));
    } else {
        out.push(0x2b);
        assert(out@ =~= before + seq![0x65u16, 0x2b]);
        push_number(out, e as u32);
        assert(out@ =~= before + exponent_units(e as int));
    }
}

/// `d.ddd`, without the point where there is one digit.
pub open spec fn mantissa_units(d: Seq<u8>) -> Units {
    if d.len() <= 1 {
        digit_units(d)
    } else {
        digit_units(d.take(1)) + seq![0x2eu16] + digit_units(d.skip(1))
    }
}

fn push_mantissa(out: &mut Vec<u16>, d: &Vec<u8>)
    requires
        all_digits(d@),
    ensures
        final(out)@ == old(out)@ + mantissa_units(d@),
{
    let ghost before = out@;
    if d.len() <= 1 {
        push_digits(out, d, 0, d.len());
        assert(d@.subrange(0, d@.len() as int) =~= d@);
    } else {
        push_digits(out, d, 0, 1);
        out.push(0x2e);
        push_digits(out, d, 1, d.len());
        assert(d@.subrange(0, 1) =~= d@.take(1));
        assert(d@.subrange(1, d@.len() as int) =~= d@.skip(1));
        assert(out@ =~= before + mantissa_units(d@));
    }
}

pub open spec fn sign_units(negative: bool) -> Units {
    if negative {
        seq![0x2du16]
    } else {
        Seq::empty()
    }
}

fn signed(negative: bool) -> (r: Vec<u16>)
    ensures
        r@ == sign_units(negative),
{
    let mut out: Vec<u16> = Vec::new();
    if negative {
        out.push(0x2d);
    }
    assert(out@ =~= sign_units(negative));
    out
}

/// The text of `toExponential`: the digits rounded to `fraction` behind the point.
pub open spec fn exponential_text(negative: bool, d: Seq<u8>, e: int, fraction: int) -> Units {
    let (r, carry) = rounded(d, fraction + 1);
    sign_units(negative) + mantissa_units(r) + exponent_units(
        if carry {
            e + 1
        } else {
            e
        },
    )
}

/// Number.prototype.toExponential's digit selection: the exact decimal expansion of the binary
/// value, rounded to `fraction` fraction digits with ties away from zero.
pub fn to_exponential(negative: bool, d: &Vec<u8>, e: i32, fraction: usize) -> (r: Vec<u16>)
    requires
        all_digits(d@),
        i32::MIN < e < i32::MAX,
        fraction < usize::MAX,
    ensures
        r@ == exponential_text(negative, d@, e as int, fraction as int),
{
    let mut out = signed(negative);
    let (r, carry) = round_digits(d, fraction + 1);
    push_mantissa(&mut out, &r);
    if carry {
        push_exponent(&mut out, e + 1);
    } else {
        push_exponent(&mut out, e);
    }
    assert(out@ =~= exponential_text(negative, d@, e as int, fraction as int));
    out
}

/// `n` zeros as characters.
pub open spec fn zero_units(n: int) -> Units {
    Seq::new(n as nat, |j: int| 0x30u16)
}

fn push_zero_units(out: &mut Vec<u16>, n: u32)
    ensures
        final(out)@ == old(out)@ + zero_units(n as int),
{
    let ghost before = out@;
    let mut j: u32 = 0;
    assert(out@ =~= before + zero_units(0));
    while j < n
        invariant
            j <= n,
            out@ == before + zero_units(j as int),
        decreases n - j,
    {
        out.push(0x30);
        assert(out@ =~= before + zero_units(j + 1));
        j += 1;
    }
}

/// The text of `toPrecision`: the digits rounded to `p` of them, ties going away from zero, and laid
/// out per the exponent.
pub open spec fn precision_text(negative: bool, d: Seq<u8>, e: int, p: int) -> Units {
    let (r, carry) = rounded(d, p);
    laid_out(
        negative,
        r,
        if carry {
            e + 1
        } else {
            e
        },
    )
}

/// `Number.prototype.toPrecision(p)`: the exact decimal expansion of the binary value, rounded to
/// `p` significant digits, fixed or exponential per the exponent.
pub fn to_precision(negative: bool, d: &Vec<u8>, e: i32, p: usize) -> (r: Vec<u16>)
    requires
        all_digits(d@),
        i32::MIN < e < i32::MAX,
        p >= 1,
    ensures
        r@ == precision_text(negative, d@, e as int, p as int),
{
    let (r, carry) = round_digits(d, p);
    if carry {
        lay_out(negative, &r, e + 1)
    } else {
        lay_out(negative, &r, e)
    }
}

/// A number with these significant digits and this exponent: fixed or exponential per the exponent.
pub open spec fn laid_out(negative: bool, d: Seq<u8>, e: int) -> Units {
    sign_units(negative) + (if e < -6 || e >= d.len() {
        mantissa_units(d) + exponent_units(e)
    } else if e >= 0 {
        if e + 1 >= d.len() {
            digit_units(d)
        } else {
            digit_units(d.take(e + 1)) + seq![0x2eu16] + digit_units(d.skip(e + 1))
        }
    } else {
        seq![0x30u16, 0x2e] + zero_units(-e - 1) + digit_units(d)
    })
}

fn lay_out(negative: bool, d: &Vec<u8>, e: i32) -> (r: Vec<u16>)
    requires
        all_digits(d@),
        i32::MIN < e,
    ensures
        r@ == laid_out(negative, d@, e as int),
{
    let mut out = signed(negative);
    let ghost o0 = out@;
    assert(d@.subrange(0, d@.len() as int) =~= d@);
    if e < -6 || (e >= 0 && e as u64 >= d.len() as u64) {
        push_mantissa(&mut out, d);
        push_exponent(&mut out, e);
        assert(out@ =~= laid_out(negative, d@, e as int));
    } else if e >= 0 {
        let whole: usize = e as usize;
        if d.len() - whole <= 1 {
            push_digits(&mut out, d, 0, d.len());
        } else {
            push_digits(&mut out, d, 0, whole + 1);
            out.push(0x2e);
            push_digits(&mut out, d, whole + 1, d.len());
            assert(d@.subrange(0, whole + 1) =~= d@.take(whole + 1));
            assert(d@.subrange(whole + 1, d@.len() as int) =~= d@.skip(whole + 1));
            assert(out@ =~= laid_out(negative, d@, e as int));
        }
    } else {
        out.push(0x30);
        out.push(0x2e);
        assert(out@ =~= o0 + seq![0x30u16, 0x2e]);
        push_zero_units(&mut out, (-e - 1) as u32);
        push_digits(&mut out, d, 0, d.len());
        assert(out@ =~= laid_out(negative, d@, e as int));
    }
    out
}

} // verus!
