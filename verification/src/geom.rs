//! Lengths, fractions, ratios and the small geometric types built from them.
//!
//! A length is a fixed-point number. Its arithmetic is closed: a result that leaves the range of
//! finite lengths becomes infinite, and a result that has no value (such as the difference of two
//! equal infinities) becomes zero. No operation on lengths can fail.
use vstd::prelude::*;

verus! {

/// How many raw units make up one point.
pub const UNITS_PER_PT: i64 = 1_000_000;

/// The slack of [`Abs::fits`], in raw units.
pub const FIT_SLACK: i64 = 1;

/// How many raw units make up a ratio of one.
pub const UNITS_PER_ONE: i64 = 1_000_000;

/// An absolute length, in millionths of a point.
///
/// The two extreme raw values stand for the infinite lengths.
#[derive(Clone, Copy, Debug, PartialEq, Eq, Structural, PartialOrd, Ord, Hash)]
pub struct Abs(pub i64);

/// The quotient of `n` by the positive `d`, rounded towards zero.
pub open spec fn div_trunc(n: int, d: int) -> int {
    if n >= 0 {
        n / d
    } else {
        -((-n) / d)
    }
}

impl Abs {
    /// The length with the given number of raw units, infinite where that many do not fit.
    pub open spec fn of_int(raw: int) -> Abs {
        if raw >= i64::MAX {
            Abs(i64::MAX)
        } else if raw <= i64::MIN {
            Abs(i64::MIN)
        } else {
            Abs(raw as i64)
        }
    }

    /// Same as [`Abs::of_int`], for a machine integer.
    pub fn clamped(raw: i128) -> (result: Abs)
        ensures
            result == Abs::of_int(raw as int),
    {
        if raw >= i64::MAX as i128 {
            Abs(i64::MAX)
        } else if raw <= i64::MIN as i128 {
            Abs(i64::MIN)
        } else {
            Abs(raw as i64)
        }
    }

    pub open spec fn spec_zero() -> Abs {
        Abs(0)
    }

    /// The zero length.
    #[verifier::when_used_as_spec(spec_zero)]
    pub fn zero() -> (result: Abs)
        ensures
            result == Abs(0),
    {
        Abs(0)
    }

    /// The infinite length.
    pub fn inf() -> (result: Abs)
        ensures
            result == Abs(i64::MAX),
            !result.is_finite(),
    {
        Abs(i64::MAX)
    }

    /// The length of a whole number of points.
    pub fn pt(points: i64) -> (result: Abs)
        ensures
            result == Abs::of_int(points * UNITS_PER_PT),
    {
        Abs::clamped(points as i128 * UNITS_PER_PT as i128)
    }

    pub open spec fn spec_is_finite(self) -> bool {
        i64::MIN < self.0 < i64::MAX
    }

    /// Whether the length is finite.
    #[verifier::when_used_as_spec(spec_is_finite)]
    pub fn is_finite(self) -> (result: bool)
        ensures
            result == self.spec_is_finite(),
    {
        i64::MIN < self.0 && self.0 < i64::MAX
    }

    /// The sum of two lengths. Opposite infinities cancel out to zero.
    pub open spec fn plus(self, other: Abs) -> Abs {
        if self.is_finite() && other.is_finite() {
            Abs::of_int(self.0 + other.0)
        } else if self.is_finite() {
            other
        } else if other.is_finite() || self == other {
            self
        } else {
            Abs(0)
        }
    }

    /// The difference of two lengths. Equal infinities cancel out to zero.
    pub open spec fn minus(self, other: Abs) -> Abs {
        if self.is_finite() && other.is_finite() {
            Abs::of_int(self.0 - other.0)
        } else if self.is_finite() {
            if other.0 > 0 {
                Abs(i64::MIN)
            } else {
                Abs(i64::MAX)
            }
        } else if other.is_finite() || self != other {
            self
        } else {
            Abs(0)
        }
    }

    pub open spec fn spec_times(self, n: usize) -> Abs {
        if n == 0 {
            Abs(0)
        } else if self.is_finite() {
            Abs::of_int(self.0 * n)
        } else {
            self
        }
    }

    /// The length taken `n` times.
    #[verifier::when_used_as_spec(spec_times)]
    pub fn times(self, n: usize) -> (result: Abs)
        ensures
            result == self.spec_times(n),
    {
        if n == 0 {
            Abs(0)
        } else if self.is_finite() {
            proof {
                let (a, b) = (self.0 as int, n as int);
                assert(-0x8000_0000_0000_0000 * 0xffff_ffff_ffff_ffff <= a * b
                    <= 0x7fff_ffff_ffff_ffff * 0xffff_ffff_ffff_ffff) by (nonlinear_arith)
                    requires
                        -0x8000_0000_0000_0000 <= a <= 0x7fff_ffff_ffff_ffff,
                        0 <= b <= 0xffff_ffff_ffff_ffff,
                ;
            }
            Abs::clamped(self.0 as i128 * n as i128)
        } else {
            self
        }
    }

    pub open spec fn spec_half(self) -> Abs {
        if self.is_finite() {
            Abs((self.0 / 2) as i64)
        } else {
            self
        }
    }

    /// Half the length, rounded down.
    #[verifier::when_used_as_spec(spec_half)]
    pub fn half(self) -> (result: Abs)
        ensures
            result == self.spec_half(),
    {
        if self.is_finite() {
            if self.0 >= 0 {
                Abs(self.0 / 2)
            } else {
                Abs(-((-self.0) / 2 + (-self.0) % 2))
            }
        } else {
            self
        }
    }

    pub open spec fn spec_half_up(self) -> Abs {
        if self.is_finite() {
            Abs(((self.0 + 1) / 2) as i64)
        } else {
            self
        }
    }

    /// Half the length, rounded up.
    #[verifier::when_used_as_spec(spec_half_up)]
    pub fn half_up(self) -> (result: Abs)
        ensures
            result == self.spec_half_up(),
    {
        if self.is_finite() {
            if self.0 >= 0 {
                Abs(self.0 / 2 + self.0 % 2)
            } else {
                Abs(-((-self.0) / 2))
            }
        } else {
            self
        }
    }

    pub open spec fn spec_scaled(self, num: Abs, den: Abs) -> Abs {
        if !den.is_finite() || self.0 == 0 || num.0 == 0 {
            Abs(0)
        } else if self.is_finite() && num.is_finite() {
            Abs::of_int(div_trunc(self.0 * num.0, den.0 as int))
        } else if (self.0 > 0) == (num.0 > 0) {
            Abs(i64::MAX)
        } else {
            Abs(i64::MIN)
        }
    }

    /// The length multiplied by the quotient of `num` by the positive `den`, rounded towards zero.
    #[verifier::when_used_as_spec(spec_scaled)]
    pub fn scaled(self, num: Abs, den: Abs) -> (result: Abs)
        requires
            den.0 > 0,
        ensures
            result == self.spec_scaled(num, den),
    {
        if !den.is_finite() || self.0 == 0 || num.0 == 0 {
            Abs(0)
        } else if self.is_finite() && num.is_finite() {
            Abs::clamped(mul_div(self.0, num.0, den.0))
        } else if (self.0 > 0) == (num.0 > 0) {
            Abs(i64::MAX)
        } else {
            Abs(i64::MIN)
        }
    }

    pub open spec fn spec_fits(self, other: Abs) -> bool {
        self.plus(Abs(FIT_SLACK)).0 >= other.0
    }

    /// Whether the other length fits into this one, allowing for a bit of slack.
    #[verifier::when_used_as_spec(spec_fits)]
    pub fn fits(self, other: Abs) -> (result: bool)
        ensures
            result == self.spec_fits(other),
    {
        (self + Abs(FIT_SLACK)).0 >= other.0
    }

    pub open spec fn spec_max(self, other: Abs) -> Abs {
        if self.0 >= other.0 {
            self
        } else {
            other
        }
    }

    /// The larger of two lengths.
    #[verifier::when_used_as_spec(spec_max)]
    pub fn max(self, other: Abs) -> (result: Abs)
        ensures
            result == self.spec_max(other),
    {
        if self.0 >= other.0 {
            self
        } else {
            other
        }
    }

    pub open spec fn spec_min(self, other: Abs) -> Abs {
        if self.0 <= other.0 {
            self
        } else {
            other
        }
    }

    /// The smaller of two lengths.
    #[verifier::when_used_as_spec(spec_min)]
    pub fn min(self, other: Abs) -> (result: Abs)
        ensures
            result == self.spec_min(other),
    {
        if self.0 <= other.0 {
            self
        } else {
            other
        }
    }
}

/// The product of `a` and `b` divided by the positive `d`, rounded towards zero.
fn mul_div(a: i64, b: i64, d: i64) -> (result: i128)
    requires
        d > 0,
    ensures
        result == div_trunc(a * b, d as int),
{
    proof {
        let (x, y) = (a as int, b as int);
        assert(-0x8000_0000_0000_0000 * 0x8000_0000_0000_0000 <= x * y <= 0x8000_0000_0000_0000
            * 0x8000_0000_0000_0000) by (nonlinear_arith)
            requires
                -0x8000_0000_0000_0000 <= x <= 0x8000_0000_0000_0000,
                -0x8000_0000_0000_0000 <= y <= 0x8000_0000_0000_0000,
        ;
    }
    let product: i128 = a as i128 * b as i128;
    if product >= 0 {
        product / d as i128
    } else {
        -((-product) / d as i128)
    }
}

impl core::ops::Add for Abs {
    type Output = Abs;

    fn add(self, other: Abs) -> (result: Abs) {
        if self.is_finite() && other.is_finite() {
            Abs::clamped(self.0 as i128 + other.0 as i128)
        } else if self.is_finite() {
            other
        } else if other.is_finite() || self == other {
            self
        } else {
            Abs(0)
        }
    }
}

impl vstd::std_specs::ops::AddSpecImpl for Abs {
    open spec fn obeys_add_spec() -> bool {
        true
    }

    open spec fn add_req(self, other: Abs) -> bool {
        true
    }

    open spec fn add_spec(self, other: Abs) -> Abs {
        self.plus(other)
    }
}

impl core::ops::Sub for Abs {
    type Output = Abs;

    fn sub(self, other: Abs) -> (result: Abs) {
        if self.is_finite() && other.is_finite() {
            Abs::clamped(self.0 as i128 - other.0 as i128)
        } else if self.is_finite() {
            if other.0 > 0 {
                Abs(i64::MIN)
            } else {
                Abs(i64::MAX)
            }
        } else if other.is_finite() || self != other {
            self
        } else {
            Abs(0)
        }
    }
}

impl vstd::std_specs::ops::SubSpecImpl for Abs {
    open spec fn obeys_sub_spec() -> bool {
        true
    }

    open spec fn sub_req(self, other: Abs) -> bool {
        true
    }

    open spec fn sub_spec(self, other: Abs) -> Abs {
        self.minus(other)
    }
}

impl Default for Abs {
    fn default() -> (result: Abs)
        ensures
            result == Abs(0),
    {
        Abs(0)
    }
}

/// A fraction of the space that is left over, in millionths of `1fr`.
#[derive(Clone, Copy, Debug, PartialEq, Eq, Structural, PartialOrd, Ord, Hash)]
pub struct Fr(pub i64);

impl Fr {
    /// The sum of two fractions, kept within the range of fractions.
    pub open spec fn plus(self, other: Fr) -> Fr {
        Fr(Abs::of_int(self.0 + other.0).0)
    }

    pub open spec fn spec_share(self, total: Fr, remaining: Abs) -> Abs {
        if total.0 == 0 || !remaining.is_finite() {
            Abs(0)
        } else if total.0 > 0 {
            Abs::of_int(div_trunc(self.0 * remaining.0, total.0 as int)).max(Abs(0))
        } else {
            Abs::of_int(div_trunc(-(self.0 * remaining.0), -(total.0 as int))).max(Abs(0))
        }
    }

    /// This fraction's share of `remaining` when `total` is the sum of all fractions, rounded
    /// down. There is no share of infinite space, and no share is negative.
    #[verifier::when_used_as_spec(spec_share)]
    pub fn share(self, total: Fr, remaining: Abs) -> (result: Abs)
        ensures
            result == self.spec_share(total, remaining),
    {
        if total.0 == 0 || !remaining.is_finite() {
            return Abs(0);
        }
        proof {
            let (x, y) = (self.0 as int, remaining.0 as int);
            assert(-0x8000_0000_0000_0000 * 0x8000_0000_0000_0000 <= x * y
                <= 0x8000_0000_0000_0000 * 0x8000_0000_0000_0000) by (nonlinear_arith)
                requires
                    -0x8000_0000_0000_0000 <= x <= 0x8000_0000_0000_0000,
                    -0x8000_0000_0000_0000 <= y <= 0x8000_0000_0000_0000,
            ;
        }
        let product: i128 = self.0 as i128 * remaining.0 as i128;
        let num: i128 = if total.0 > 0 { product } else { -product };
        let den: i128 = if total.0 > 0 { total.0 as i128 } else { -(total.0 as i128) };
        let quotient: i128 = if num >= 0 { num / den } else { -((-num) / den) };
        Abs::clamped(quotient).max(Abs(0))
    }
}

impl core::ops::Add for Fr {
    type Output = Fr;

    fn add(self, other: Fr) -> (result: Fr) {
        Fr(Abs::clamped(self.0 as i128 + other.0 as i128).0)
    }
}

impl vstd::std_specs::ops::AddSpecImpl for Fr {
    open spec fn obeys_add_spec() -> bool {
        true
    }

    open spec fn add_req(self, other: Fr) -> bool {
        true
    }

    open spec fn add_spec(self, other: Fr) -> Fr {
        self.plus(other)
    }
}

/// A ratio of a whole, in millionths.
#[derive(Clone, Copy, Debug, PartialEq, Eq, Structural, PartialOrd, Ord, Hash)]
pub struct Ratio(pub i64);

impl Ratio {
    pub open spec fn spec_of(self, whole: Abs) -> Abs {
        let part = Abs::of_int(div_trunc(whole.0 * self.0, UNITS_PER_ONE as int));
        if whole.is_finite() && part.is_finite() {
            part
        } else {
            Abs(0)
        }
    }

    /// This ratio of a whole, rounded towards zero. A part that would be infinite is zero.
    #[verifier::when_used_as_spec(spec_of)]
    pub fn of(self, whole: Abs) -> (result: Abs)
        ensures
            result == self.spec_of(whole),
    {
        let part = Abs::clamped(mul_div(whole.0, self.0, UNITS_PER_ONE));
        if whole.is_finite() && part.is_finite() {
            part
        } else {
            Abs(0)
        }
    }
}

/// A length that is partly relative to a whole.
#[derive(Clone, Copy, Debug, PartialEq, Eq, Structural, Hash)]
pub struct Rel {
    /// The relative part.
    pub rel: Ratio,
    /// The absolute part.
    pub abs: Abs,
}

impl Rel {
    pub open spec fn spec_absolute(abs: Abs) -> Rel {
        Rel { rel: Ratio(0), abs }
    }

    /// A length without a relative part.
    #[verifier::when_used_as_spec(spec_absolute)]
    pub fn absolute(abs: Abs) -> (result: Rel)
        ensures
            result == Rel::spec_absolute(abs),
    {
        Rel { rel: Ratio(0), abs }
    }

    pub open spec fn spec_relative_to(self, whole: Abs) -> Abs {
        self.rel.of(whole).plus(self.abs)
    }

    /// The length when the relative part refers to `whole`.
    #[verifier::when_used_as_spec(spec_relative_to)]
    pub fn relative_to(self, whole: Abs) -> (result: Abs)
        ensures
            result == self.spec_relative_to(whole),
    {
        self.rel.of(whole) + self.abs
    }
}

/// A horizontal and a vertical component.
#[derive(Debug, PartialEq, Eq, Hash)]
pub struct Axes<T> {
    /// The horizontal component.
    pub x: T,
    /// The vertical component.
    pub y: T,
}

impl<T: Copy> Clone for Axes<T> {
    fn clone(&self) -> (result: Self)
        ensures
            result == *self,
    {
        *self
    }
}

impl<T: Copy> Copy for Axes<T> {

}

/// A horizontal and a vertical extent.
pub type Size = Axes<Abs>;

impl Axes<Abs> {
    pub open spec fn spec_is_zero(self) -> bool {
        self.x.0 == 0 && self.y.0 == 0
    }

    /// Whether both extents are zero.
    #[verifier::when_used_as_spec(spec_is_zero)]
    pub fn is_zero(self) -> (result: bool)
        ensures
            result == self.spec_is_zero(),
    {
        self.x.0 == 0 && self.y.0 == 0
    }

    pub open spec fn spec_min(self, other: Size) -> Size {
        Axes { x: self.x.min(other.x), y: self.y.min(other.y) }
    }

    /// The smaller extent on each axis.
    #[verifier::when_used_as_spec(spec_min)]
    pub fn min(self, other: Size) -> (result: Size)
        ensures
            result == self.spec_min(other),
    {
        Axes { x: self.x.min(other.x), y: self.y.min(other.y) }
    }
}

impl Axes<bool> {
    pub open spec fn spec_select(self, yes: Size, no: Size) -> Size {
        Axes {
            x: if self.x {
                yes.x
            } else {
                no.x
            },
            y: if self.y {
                yes.y
            } else {
                no.y
            },
        }
    }

    /// Takes each axis from the first size where the flag is set, else from the second.
    #[verifier::when_used_as_spec(spec_select)]
    pub fn select(self, yes: Size, no: Size) -> (result: Size)
        ensures
            result == self.spec_select(yes, no),
    {
        Axes {
            x: if self.x {
                yes.x
            } else {
                no.x
            },
            y: if self.y {
                yes.y
            } else {
                no.y
            },
        }
    }
}

/// A position within a frame.
#[derive(Clone, Copy, Debug, PartialEq, Eq, Structural, Hash)]
pub struct Point {
    /// The distance from the left edge.
    pub x: Abs,
    /// The distance from the top edge.
    pub y: Abs,
}

/// Where to align something within an available extent.
#[derive(Clone, Copy, Debug, PartialEq, Eq, Structural, PartialOrd, Ord, Hash)]
pub enum FixedAlignment {
    /// At the start of the axis.
    Start,
    /// In the middle of the axis.
    Center,
    /// At the end of the axis.
    End,
}

impl FixedAlignment {
    pub open spec fn spec_position(self, extent: Abs) -> Abs {
        match self {
            FixedAlignment::Start => Abs(0),
            FixedAlignment::Center => extent.half(),
            FixedAlignment::End => extent,
        }
    }

    /// The offset of something with this alignment when `extent` is left free around it.
    #[verifier::when_used_as_spec(spec_position)]
    pub fn position(self, extent: Abs) -> (result: Abs)
        ensures
            result == self.spec_position(extent),
    {
        match self {
            FixedAlignment::Start => Abs(0),
            FixedAlignment::Center => extent.half(),
            FixedAlignment::End => extent,
        }
    }

    pub open spec fn spec_latest(self, other: FixedAlignment) -> FixedAlignment {
        if self is End || other is End {
            FixedAlignment::End
        } else if self is Center || other is Center {
            FixedAlignment::Center
        } else {
            FixedAlignment::Start
        }
    }

    /// The later of two alignments.
    #[verifier::when_used_as_spec(spec_latest)]
    pub fn latest(self, other: FixedAlignment) -> (result: FixedAlignment)
        ensures
            result == self.spec_latest(other),
    {
        match (self, other) {
            (FixedAlignment::End, _) => FixedAlignment::End,
            (_, FixedAlignment::End) => FixedAlignment::End,
            (FixedAlignment::Center, _) => FixedAlignment::Center,
            (_, FixedAlignment::Center) => FixedAlignment::Center,
            _ => FixedAlignment::Start,
        }
    }
}

/// A value that is either chosen automatically or given.
#[derive(Debug, PartialEq, Eq, Hash)]
pub enum Smart<T> {
    /// Chosen automatically.
    Auto,
    /// Given.
    Custom(T),
}

impl<T: Copy> Clone for Smart<T> {
    fn clone(&self) -> (result: Self)
        ensures
            result == *self,
    {
        *self
    }
}

impl<T: Copy> Copy for Smart<T> {

}

} // verus!
