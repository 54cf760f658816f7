//! Laws of lengths, fractions and alignments.
use vstd::arithmetic::div_mod::lemma_fundamental_div_mod;
use vstd::prelude::*;

use crate::element::{HAlignment, VAlignment};
use crate::geom::{div_trunc, Abs, Axes, FixedAlignment, Fr, Ratio, Rel, Size, UNITS_PER_ONE};

verus! {

/// The infinite length in the other direction than the given infinite one.
pub open spec fn opposite(a: Abs) -> Abs
    recommends
        !a.is_finite(),
{
    if a.0 == i64::MIN {
        Abs(i64::MAX)
    } else {
        Abs(i64::MIN)
    }
}

/// Sums and differences of finite lengths are exact as long as they stay in range, and infinite
/// beyond. A finite length makes no difference to an infinite one. To take an infinite length away
/// is to add the opposite one, and opposite ones add up to nothing.
pub proof fn law_sums_are_exact_in_range(a: Abs, b: Abs)
    ensures
        a.is_finite() <==> i64::MIN < a.0 < i64::MAX,
        a.is_finite() && b.is_finite() && i64::MIN < a.0 + b.0 < i64::MAX ==> a.plus(b).0 == a.0
            + b.0,
        a.is_finite() && b.is_finite() && i64::MIN < a.0 - b.0 < i64::MAX ==> a.minus(b).0 == a.0
            - b.0,
        a.is_finite() && b.is_finite() && a.0 + b.0 >= i64::MAX ==> a.plus(b).0 == i64::MAX,
        a.is_finite() && b.is_finite() && a.0 + b.0 <= i64::MIN ==> a.plus(b).0 == i64::MIN,
        a.is_finite() && b.is_finite() && a.0 - b.0 >= i64::MAX ==> a.minus(b).0 == i64::MAX,
        a.is_finite() && b.is_finite() && a.0 - b.0 <= i64::MIN ==> a.minus(b).0 == i64::MIN,
        !a.is_finite() && b.is_finite() ==> a.plus(b) == a && a.minus(b) == a,
        !a.is_finite() ==> a.plus(a) == a,
        a.plus(b) == b.plus(a),
        !b.is_finite() ==> a.minus(b) == a.plus(opposite(b)),
        !a.is_finite() ==> a.plus(opposite(a)) == Abs(0),
{
}

/// Sums of fractions are exact as long as they stay in range, and as far out as they can be beyond.
pub proof fn law_fractions_add_up(a: Fr, b: Fr)
    ensures
        i64::MIN <= a.0 + b.0 <= i64::MAX ==> a.plus(b).0 == a.0 + b.0,
        a.0 + b.0 > i64::MAX ==> a.plus(b).0 == i64::MAX,
        a.0 + b.0 < i64::MIN ==> a.plus(b).0 == i64::MIN,
{
}

/// A length fits into another one that is no more than one unit shorter. Everything fits into
/// infinite space.
pub proof fn law_fitting_allows_one_unit(a: Abs, b: Abs)
    ensures
        a.is_finite() ==> (a.fits(b) <==> b.0 <= a.0 + 1),
        a.0 == i64::MAX ==> a.fits(b),
        a.0 == i64::MIN ==> (a.fits(b) <==> b == a),
        a.max(b).0 >= a.0 && a.max(b).0 >= b.0 && (a.max(b) == a || a.max(b) == b),
        a.min(b).0 <= a.0 && a.min(b).0 <= b.0 && (a.min(b) == a || a.min(b) == b),
{
}

/// A half is a length that two of make up the whole, but for one unit. That of an infinite length
/// is infinite.
pub proof fn law_halves_make_up_the_whole(a: Abs)
    ensures
        a.is_finite() ==> {
            &&& a.0 - 1 <= 2 * a.half().0 <= a.0
            &&& a.0 <= 2 * a.half_up().0 <= a.0 + 1
            &&& a.half().0 + a.half_up().0 == a.0
        },
        !a.is_finite() ==> a.half() == a && a.half_up() == a,
{
}

/// A length taken a number of times is their product in range, and infinite beyond.
pub proof fn law_multiples_are_products(a: Abs, n: usize)
    ensures
        a.times(0) == Abs(0),
        a.is_finite() && i64::MIN < a.0 * n < i64::MAX ==> a.times(n).0 == a.0 * n,
        a.is_finite() && a.0 * n >= i64::MAX ==> a.times(n).0 == i64::MAX,
        a.is_finite() && a.0 * n <= i64::MIN ==> a.times(n).0 == i64::MIN,
        !a.is_finite() && n > 0 ==> a.times(n) == a,
{
    assert(a.0 * 0 == 0);
}

/// A quotient that is rounded towards zero is off by less than one.
proof fn lemma_trunc(n: int, d: int)
    requires
        d > 0,
    ensures
        -d < n - d * div_trunc(n, d) < d,
        n >= 0 ==> 0 <= n - d * div_trunc(n, d),
        n <= 0 ==> n - d * div_trunc(n, d) <= 0,
{
    if n >= 0 {
        lemma_fundamental_div_mod(n, d);
        assert(0 <= n % d < d);
    } else {
        lemma_fundamental_div_mod(-n, d);
        let q = (-n) / d;
        assert(0 <= (-n) % d < d);
        assert(d * (-q) == -(d * q)) by (nonlinear_arith);
    }
}

/// A quotient is out of range where the number is out of the range multiplied by the divisor.
proof fn lemma_trunc_range(n: int, d: int)
    requires
        d > 0,
    ensures
        div_trunc(n, d) >= i64::MAX <==> n >= d * i64::MAX,
        div_trunc(n, d) <= i64::MIN <==> n <= d * i64::MIN,
{
    lemma_trunc(n, d);
    let q = div_trunc(n, d);
    let (high, low) = (i64::MAX as int, i64::MIN as int);
    assert(q >= high <==> n >= d * high) by (nonlinear_arith)
        requires
            d > 0,
            high > 0,
            -d < n - d * q < d,
            n >= 0 ==> 0 <= n - d * q,
            n <= 0 ==> n - d * q <= 0,
    ;
    assert(q <= low <==> n <= d * low) by (nonlinear_arith)
        requires
            d > 0,
            low < 0,
            -d < n - d * q < d,
            n >= 0 ==> 0 <= n - d * q,
            n <= 0 ==> n - d * q <= 0,
    ;
}

/// A scaled length is to the length as the numerator is to the denominator, but for rounding. It is
/// infinite where that is out of range. No length is nothing however it is scaled, and so is any
/// length that an infinite denominator scales. An infinite one stays infinite otherwise, and points
/// the other way if the numerator is negative.
pub proof fn law_scaling_keeps_proportions(a: Abs, num: Abs, den: Abs)
    requires
        den.0 > 0,
    ensures
        a.is_finite() && num.is_finite() && den.is_finite() ==> {
            let scaled = a.scaled(num, den);
            &&& scaled.is_finite() ==> -den.0 < a.0 * num.0 - den.0 * scaled.0 < den.0
            &&& scaled.0 == i64::MAX <==> a.0 * num.0 >= den.0 * i64::MAX
            &&& scaled.0 == i64::MIN <==> a.0 * num.0 <= den.0 * i64::MIN
        },
        a.0 == 0 || num.0 == 0 || !den.is_finite() ==> a.scaled(num, den) == Abs(0),
        !a.is_finite() && num.0 > 0 && den.is_finite() ==> a.scaled(num, den) == a,
        !a.is_finite() && num.0 < 0 && den.is_finite() ==> a.scaled(num, den) == opposite(a),
        !num.is_finite() && a.0 > 0 && den.is_finite() ==> a.scaled(num, den) == num,
        !num.is_finite() && a.0 < 0 && den.is_finite() ==> a.scaled(num, den) == opposite(num),
{
    lemma_trunc(a.0 * num.0, den.0 as int);
    lemma_trunc_range(a.0 * num.0, den.0 as int);
    assert(a.0 == 0 || num.0 == 0 ==> a.0 * num.0 == 0) by (nonlinear_arith);
    assert(den.0 * 0 == 0);
}

/// A fraction's share of a space is to the space as the fraction is to the sum of all of them, but
/// for rounding down. It is never negative, and there is none of infinite space. Only the
/// proportion counts, so nothing changes where both the fraction and the sum change their signs.
pub proof fn law_share_is_proportional(fr: Fr, total: Fr, space: Abs)
    ensures
        fr.share(total, space).0 >= 0,
        !space.is_finite() || total.0 == 0 ==> fr.share(total, space) == Abs(0),
        space.is_finite() && total.0 > 0 && fr.0 * space.0 <= 0 ==> fr.share(total, space) == Abs(
            0,
        ),
        space.is_finite() && total.0 > 0 && 0 <= fr.0 * space.0 < total.0 * i64::MAX ==> 0 <= fr.0
            * space.0 - total.0 * fr.share(total, space).0 < total.0,
        space.is_finite() && total.0 > 0 && fr.0 * space.0 >= total.0 * i64::MAX ==> fr.share(
            total,
            space,
        ).0 == i64::MAX,
        total.0 != i64::MIN && fr.0 != i64::MIN ==> fr.share(total, space) == Fr(
            -fr.0 as i64,
        ).share(Fr(-total.0 as i64), space),
        space.is_finite() && space.0 >= 0 && 0 <= fr.0 <= total.0 && total.0 > 0 ==> {
            &&& 0 <= fr.0 * space.0 - total.0 * fr.share(total, space).0 < total.0
            &&& fr.share(total, space).0 <= space.0
        },
{
    let product = fr.0 * space.0;
    assert((-fr.0) * space.0 == -product) by (nonlinear_arith)
        requires
            product == fr.0 * space.0,
    ;
    if total.0 > 0 {
        lemma_trunc(product, total.0 as int);
        lemma_trunc_range(product, total.0 as int);
        let (q, t) = (div_trunc(product, total.0 as int), total.0 as int);
        assert((product >= 0 ==> q >= 0) && (product <= 0 ==> q <= 0)) by (nonlinear_arith)
            requires
                t > 0,
                -t < product - t * q < t,
        ;
    }
    if space.is_finite() && space.0 >= 0 && 0 <= fr.0 <= total.0 && total.0 > 0 {
        let (f, t, s) = (fr.0 as int, total.0 as int, space.0 as int);
        assert(0 <= f * s <= t * s) by (nonlinear_arith)
            requires
                0 <= f <= t,
                s >= 0,
        ;
        lemma_trunc(f * s, t);
        assert(0 <= (f * s) / t <= s) by (nonlinear_arith)
            requires
                0 <= f * s <= t * s,
                t > 0,
        ;
    }
}

/// A relative length is its ratio of the whole, but for rounding, and its absolute part. Only the
/// absolute part counts where the whole is infinite or its part is out of range.
pub proof fn law_relative_length_is_part_of_whole(rel: Rel, whole: Abs)
    ensures
        Rel::absolute(rel.abs).relative_to(whole) == rel.abs,
        !whole.is_finite() ==> rel.relative_to(whole) == rel.abs,
        rel.relative_to(whole) == rel.rel.of(whole).plus(rel.abs),
        whole.is_finite() && UNITS_PER_ONE * i64::MIN < whole.0 * rel.rel.0 < UNITS_PER_ONE
            * i64::MAX ==> -UNITS_PER_ONE < whole.0 * rel.rel.0 - UNITS_PER_ONE * rel.rel.of(
            whole,
        ).0 < UNITS_PER_ONE,
        whole.0 * rel.rel.0 <= UNITS_PER_ONE * i64::MIN || whole.0 * rel.rel.0 >= UNITS_PER_ONE
            * i64::MAX ==> rel.relative_to(whole) == rel.abs,
        rel.rel == Ratio(UNITS_PER_ONE) && whole.is_finite() ==> rel.relative_to(whole)
            == whole.plus(rel.abs),
{
    assert(whole.0 * 0 == 0);
    let n = whole.0 * rel.rel.0;
    lemma_trunc(n, UNITS_PER_ONE as int);
    lemma_trunc_range(n, UNITS_PER_ONE as int);
    if rel.rel == Ratio(UNITS_PER_ONE) {
        let d = UNITS_PER_ONE as int;
        let q = div_trunc(n, d);
        assert(q == whole.0) by (nonlinear_arith)
            requires
                n == whole.0 * d,
                -d < n - d * q < d,
                d > 0,
        ;
    }
}

/// What is aligned at the start has no space before it, at the end none after it, and in the middle
/// as much before as after it, but for one unit. Half of infinite space is infinite.
pub proof fn law_alignment_divides_free_space(free: Abs)
    ensures
        FixedAlignment::Start.position(free).0 == 0,
        free.0 - FixedAlignment::End.position(free).0 == 0,
        free.is_finite() ==> {
            let before = FixedAlignment::Center.position(free).0;
            let behind = free.0 - before;
            before == behind || before + 1 == behind
        },
        !free.is_finite() ==> FixedAlignment::Center.position(free) == free,
{
}

/// The later of two alignments is one of them, and no other one is later: the start comes before
/// the middle, and the middle before the end.
pub proof fn law_later_alignment_prevails(a: FixedAlignment, b: FixedAlignment)
    ensures
        a.latest(b) == a || a.latest(b) == b,
        a.latest(b) == b.latest(a),
        a.latest(a) == a,
        FixedAlignment::Start.latest(a) == a,
        FixedAlignment::End.latest(a) is End,
{
}

/// Left and right mean the same whatever the direction of the text, start and end do not.
pub proof fn law_direction_decides_start_and_end(left_to_right: bool)
    ensures
        HAlignment::Left.fix(left_to_right) is Start,
        HAlignment::Center.fix(left_to_right) is Center,
        HAlignment::Right.fix(left_to_right) is End,
        HAlignment::Start.fix(true) is Start,
        HAlignment::Start.fix(false) is End,
        HAlignment::End.fix(left_to_right) == HAlignment::Start.fix(!left_to_right),
        VAlignment::Top.fix() is Start,
        VAlignment::Horizon.fix() is Center,
        VAlignment::Bottom.fix() is End,
{
}

/// Sizes are dealt with axis by axis.
pub proof fn law_sizes_are_independent_axes(a: Size, b: Size, flags: Axes<bool>)
    ensures
        a.min(b) == (Axes { x: a.x.min(b.x), y: a.y.min(b.y) }),
        a.is_zero() <==> a.x == Abs(0) && a.y == Abs(0),
        flags.select(a, b).x == if flags.x {
            a.x
        } else {
            b.x
        },
        flags.select(a, b).y == if flags.y {
            a.y
        } else {
            b.y
        },
{
}

} // verus!
