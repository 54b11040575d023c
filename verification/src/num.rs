//! The number type that geometry is computed in.
//!
//! Positions, sizes, opacities and easing progress are numbers whose
//! rounding the library leaves to its caller: every computation is written
//! against [`Num`], and every contract states its result in terms of the
//! operations that `Num` names. No law of arithmetic is asked of them, so
//! what is proved holds under any rounding, for values that compare equal to
//! nothing (not even themselves) as for ordinary ones.
//!
//! [`Px`] is the whole-pixel instance: saturating integer arithmetic, in
//! which fractions are cut to whole numbers.
use vstd::prelude::*;

verus! {

/// A number type: constants, arithmetic, comparisons and rounding.
///
/// Each operation has a specification twin, and the executable form returns
/// exactly what its twin says.
pub trait Num: Copy + Sized {
    /// The number `num / den`.
    open spec fn fraction(num: i32, den: i32) -> Self {
        arbitrary()
    }

    /// The number `n`.
    open spec fn natural(n: u64) -> Self {
        arbitrary()
    }

    /// `ns` nanoseconds, in seconds.
    open spec fn nanoseconds(ns: u64) -> Self {
        arbitrary()
    }

    /// A value that no other is below.
    open spec fn lowest() -> Self {
        arbitrary()
    }

    /// A value that no other is above.
    open spec fn greatest() -> Self {
        arbitrary()
    }

    /// A distance beyond every screen.
    open spec fn far() -> Self {
        arbitrary()
    }

    open spec fn sum(self, other: Self) -> Self {
        arbitrary()
    }

    open spec fn difference(self, other: Self) -> Self {
        arbitrary()
    }

    open spec fn product(self, other: Self) -> Self {
        arbitrary()
    }

    open spec fn quotient(self, other: Self) -> Self {
        arbitrary()
    }

    open spec fn negation(self) -> Self {
        arbitrary()
    }

    open spec fn magnitude(self) -> Self {
        arbitrary()
    }

    open spec fn larger(self, other: Self) -> Self {
        arbitrary()
    }

    open spec fn smaller(self, other: Self) -> Self {
        arbitrary()
    }

    open spec fn rounded_down(self) -> Self {
        arbitrary()
    }

    open spec fn rounded_up(self) -> Self {
        arbitrary()
    }

    open spec fn rounded(self) -> Self {
        arbitrary()
    }

    /// The value as a `u32`, cut off at the ends of its range.
    open spec fn whole(self) -> u32 {
        arbitrary()
    }

    open spec fn below(self, other: Self) -> bool {
        arbitrary()
    }

    open spec fn at_most(self, other: Self) -> bool {
        arbitrary()
    }

    open spec fn equals(self, other: Self) -> bool {
        arbitrary()
    }

    fn of_ratio(num: i32, den: i32) -> (r: Self)
        requires
            den > 0,
        ensures
            r == Self::fraction(num, den),
    ;

    fn of_u64(n: u64) -> (r: Self)
        ensures
            r == Self::natural(n),
    ;

    fn of_nanos(ns: u64) -> (r: Self)
        ensures
            r == Self::nanoseconds(ns),
    ;

    fn lowest_value() -> (r: Self)
        ensures
            r == Self::lowest(),
    ;

    fn greatest_value() -> (r: Self)
        ensures
            r == Self::greatest(),
    ;

    fn far_value() -> (r: Self)
        ensures
            r == Self::far(),
    ;

    fn plus(self, other: Self) -> (r: Self)
        ensures
            r == self.sum(other),
    ;

    fn minus(self, other: Self) -> (r: Self)
        ensures
            r == self.difference(other),
    ;

    fn times(self, other: Self) -> (r: Self)
        ensures
            r == self.product(other),
    ;

    fn over(self, other: Self) -> (r: Self)
        ensures
            r == self.quotient(other),
    ;

    fn negated(self) -> (r: Self)
        ensures
            r == self.negation(),
    ;

    fn abs(self) -> (r: Self)
        ensures
            r == self.magnitude(),
    ;

    fn max(self, other: Self) -> (r: Self)
        ensures
            r == self.larger(other),
    ;

    fn min(self, other: Self) -> (r: Self)
        ensures
            r == self.smaller(other),
    ;

    fn floor(self) -> (r: Self)
        ensures
            r == self.rounded_down(),
    ;

    fn ceil(self) -> (r: Self)
        ensures
            r == self.rounded_up(),
    ;

    fn round(self) -> (r: Self)
        ensures
            r == self.rounded(),
    ;

    fn to_u32(self) -> (r: u32)
        ensures
            r == self.whole(),
    ;

    fn lt(self, other: Self) -> (r: bool)
        ensures
            r == self.below(other),
    ;

    fn le(self, other: Self) -> (r: bool)
        ensures
            r == self.at_most(other),
    ;

    fn eq(self, other: Self) -> (r: bool)
        ensures
            r == self.equals(other),
    ;
}

/// The number zero.
pub open spec fn zero<N: Num>() -> N {
    N::fraction(0, 1)
}

/// The number one.
pub open spec fn one<N: Num>() -> N {
    N::fraction(1, 1)
}

/// `v` held between zero and one.
pub open spec fn unit_clamped<N: Num>(v: N) -> N {
    if v.below(zero()) {
        zero()
    } else if one::<N>().below(v) {
        one()
    } else {
        v
    }
}

/// Holds `v` between zero and one.
pub fn clamp_unit<N: Num>(v: N) -> (r: N)
    ensures
        r == unit_clamped(v),
{
    let lo: N = N::of_ratio(0, 1);
    let hi: N = N::of_ratio(1, 1);
    if v.lt(lo) {
        lo
    } else if hi.lt(v) {
        hi
    } else {
        v
    }
}

/// `v` held between `lo` and `hi`.
pub open spec fn held<N: Num>(v: N, lo: N, hi: N) -> N {
    if v.below(lo) {
        lo
    } else if hi.below(v) {
        hi
    } else {
        v
    }
}

/// Holds `v` between `lo` and `hi`.
pub fn clamp<N: Num>(v: N, lo: N, hi: N) -> (r: N)
    ensures
        r == held(v, lo, hi),
{
    if v.lt(lo) {
        lo
    } else if hi.lt(v) {
        hi
    } else {
        v
    }
}

/// A pair of numbers, equal component by component.
pub open spec fn equals2<N: Num>(a: [N; 2], b: [N; 2]) -> bool {
    a[0].equals(b[0]) && a[1].equals(b[1])
}

/// Whether both components are equal.
pub fn eq2<N: Num>(a: [N; 2], b: [N; 2]) -> (r: bool)
    ensures
        r == equals2(a, b),
{
    a[0].eq(b[0]) && a[1].eq(b[1])
}

/// The numbers stand for the real numbers that `value` gives them, and are
/// computed with and compared exactly. No type of a fixed size does that for
/// all of its values; what is proved from it holds as far as rounding is left
/// out of account.
pub open spec fn exact<N: Num>(value: spec_fn(N) -> real) -> bool {
    &&& forall|a: N, b: N| value(#[trigger] a.sum(b)) == value(a) + value(b)
    &&& forall|a: N, b: N| value(#[trigger] a.difference(b)) == value(a) - value(b)
    &&& forall|a: N, b: N| value(#[trigger] a.product(b)) == value(a) * value(b)
    &&& forall|a: N|
        value(#[trigger] a.magnitude()) == (if value(a) < 0real {
            -value(a)
        } else {
            value(a)
        })
    &&& forall|n: i32, d: i32|
        d > 0 ==> value(#[trigger] N::fraction(n, d)) * (d as real) == n as real
    &&& forall|a: N, b: N| #[trigger] a.below(b) <==> value(a) < value(b)
    &&& forall|a: N, b: N| #[trigger] a.at_most(b) <==> value(a) <= value(b)
}

/// The numbers are divided, compared and rounded exactly too, beside what
/// [`exact`] asks, and only cut off at the end of the `u32` range.
pub open spec fn rounds_exactly<N: Num>(value: spec_fn(N) -> real) -> bool {
    &&& forall|a: N, b: N|
        value(b) != 0real ==> value(#[trigger] a.quotient(b)) * value(b) == value(a)
    &&& forall|a: N, b: N|
        value(#[trigger] a.larger(b)) == (if value(a) < value(b) {
            value(b)
        } else {
            value(a)
        })
    &&& forall|a: N| #[trigger] floor_is(value(a), value(a.rounded_down()))
    &&& forall|a: N| #[trigger] ceiling_is(value(a), value(a.rounded_up()))
    &&& forall|a: N| #[trigger] whole_is(value(a), a.whole())
}

/// All operations are those of the real numbers: what [`exact`] and
/// [`rounds_exactly`] ask, and the rest.
pub open spec fn computes_exactly<N: Num>(value: spec_fn(N) -> real) -> bool {
    &&& exact(value)
    &&& rounds_exactly(value)
    &&& forall|a: N| value(#[trigger] a.negation()) == -value(a)
    &&& forall|a: N, b: N|
        value(#[trigger] a.smaller(b)) == (if value(b) < value(a) {
            value(b)
        } else {
            value(a)
        })
    &&& forall|a: N, b: N| #[trigger] a.equals(b) <==> value(a) == value(b)
    &&& forall|n: u64| value(#[trigger] N::natural(n)) == n as real
    &&& forall|n: u64| value(#[trigger] N::nanoseconds(n)) * 1_000_000_000real == n as real
    &&& forall|a: N| #[trigger] nearest_is(value(a), value(a.rounded()))
}

/// `r` is a whole number that is as near to `v` as any.
pub open spec fn nearest_is(v: real, r: real) -> bool {
    &&& -1real <= 2real * (v - r) <= 1real
    &&& exists|k: int| #[trigger] stands_for(r, k)
}

/// The small numbers that are written as fractions are what they stand for.
pub(crate) proof fn fractions_are_exact<N: Num>(value: spec_fn(N) -> real)
    requires
        exact(value),
    ensures
        value(zero()) == 0real,
        value(one()) == 1real,
        value(N::fraction(1, 2)) * 2real == 1real,
        forall|n: i32| value(#[trigger] N::fraction(n, 1)) == n as real,
{
    assert(value(N::fraction(0, 1)) * (1i32 as real) == 0i32 as real);
    assert(value(N::fraction(1, 1)) * (1i32 as real) == 1i32 as real);
    assert(value(N::fraction(1, 2)) * (2i32 as real) == 1i32 as real);
    assert forall|n: i32| value(#[trigger] N::fraction(n, 1)) == n as real by {
        assert(value(N::fraction(n, 1)) * (1i32 as real) == n as real);
    }
}

/// The real number `r` is the whole number `k`.
pub open spec fn stands_for(r: real, k: int) -> bool {
    r == k as real
}

/// `r` is the greatest whole number that is at most `v`.
pub open spec fn floor_is(v: real, r: real) -> bool {
    &&& r <= v < r + 1real
    &&& exists|k: int| #[trigger] stands_for(r, k)
}

/// `r` is the least whole number that is at least `v`.
pub open spec fn ceiling_is(v: real, r: real) -> bool {
    &&& r - 1real < v <= r
    &&& exists|k: int| #[trigger] stands_for(r, k)
}

/// `n` is `v` without its fraction, cut off at the ends of the `u32` range.
pub open spec fn whole_is(v: real, n: u32) -> bool {
    if v < 0real {
        n == 0
    } else {
        &&& n as real <= v
        &&& n == u32::MAX || v < (n as real) + 1real
    }
}

/// Whole pixels, cut off at the ends of the `i32` range. A fraction is cut to
/// a whole number: a half is zero, so that what is centred starts where it is
/// centred in, and a share or percentage below one is none. What is stated of
/// layouts in whole pixels is stated of these.
#[derive(Clone, Copy, Debug, PartialEq, Eq, Structural)]
pub struct Px(pub i32);

/// `v`, moved to the nearest end of the `i32` range when it lies outside.
pub open spec fn saturated(v: int) -> i32 {
    if v < i32::MIN {
        i32::MIN
    } else if v > i32::MAX {
        i32::MAX
    } else {
        v as i32
    }
}

/// The distance of `v` from zero.
pub open spec fn distance(v: int) -> nat {
    if v < 0 {
        (-v) as nat
    } else {
        v as nat
    }
}

/// `a / b` rounded toward zero; zero when `b` is.
pub open spec fn truncated_quotient(a: int, b: int) -> int {
    if b == 0 {
        0
    } else if (a < 0) == (b < 0) {
        (distance(a) / distance(b)) as int
    } else {
        -((distance(a) / distance(b)) as int)
    }
}

fn saturate(v: i64) -> (r: i32)
    ensures
        r == saturated(v as int),
{
    if v < i32::MIN as i64 {
        i32::MIN
    } else if v > i32::MAX as i64 {
        i32::MAX
    } else {
        v as i32
    }
}

fn distance_of(v: i32) -> (r: u64)
    ensures
        r == distance(v as int),
{
    if v < 0 {
        (-(v as i64)) as u64
    } else {
        v as u64
    }
}

fn divide(a: i32, b: i32) -> (r: i32)
    ensures
        r == saturated(truncated_quotient(a as int, b as int)),
{
    if b == 0 {
        return 0;
    }
    let x: u64 = distance_of(a);
    let y: u64 = distance_of(b);
    let q: u64 = x / y;
    proof {
        assert(x / y <= x) by (nonlinear_arith)
            requires
                y > 0,
        ;
    }
    if (a < 0) == (b < 0) {
        saturate(q as i64)
    } else {
        saturate(-(q as i64))
    }
}

impl Num for Px {
    open spec fn fraction(num: i32, den: i32) -> Px {
        Px(saturated(truncated_quotient(num as int, den as int)))
    }

    open spec fn natural(n: u64) -> Px {
        Px(saturated(n as int))
    }

    open spec fn nanoseconds(ns: u64) -> Px {
        Px(saturated((ns / 1_000_000_000) as int))
    }

    open spec fn lowest() -> Px {
        Px(i32::MIN)
    }

    open spec fn greatest() -> Px {
        Px(i32::MAX)
    }

    open spec fn far() -> Px {
        Px(i32::MAX)
    }

    open spec fn sum(self, other: Px) -> Px {
        Px(saturated(self.0 + other.0))
    }

    open spec fn difference(self, other: Px) -> Px {
        Px(saturated(self.0 - other.0))
    }

    open spec fn product(self, other: Px) -> Px {
        Px(saturated(self.0 * other.0))
    }

    open spec fn quotient(self, other: Px) -> Px {
        Px(saturated(truncated_quotient(self.0 as int, other.0 as int)))
    }

    open spec fn negation(self) -> Px {
        Px(saturated(-self.0))
    }

    open spec fn magnitude(self) -> Px {
        Px(saturated(distance(self.0 as int) as int))
    }

    open spec fn larger(self, other: Px) -> Px {
        if self.0 < other.0 {
            other
        } else {
            self
        }
    }

    open spec fn smaller(self, other: Px) -> Px {
        if other.0 < self.0 {
            other
        } else {
            self
        }
    }

    open spec fn rounded_down(self) -> Px {
        self
    }

    open spec fn rounded_up(self) -> Px {
        self
    }

    open spec fn rounded(self) -> Px {
        self
    }

    open spec fn whole(self) -> u32 {
        if self.0 < 0 {
            0
        } else {
            self.0 as u32
        }
    }

    open spec fn below(self, other: Px) -> bool {
        self.0 < other.0
    }

    open spec fn at_most(self, other: Px) -> bool {
        self.0 <= other.0
    }

    open spec fn equals(self, other: Px) -> bool {
        self.0 == other.0
    }

    fn of_ratio(num: i32, den: i32) -> (r: Px) {
        Px(divide(num, den))
    }

    fn of_u64(n: u64) -> (r: Px) {
        if n > i32::MAX as u64 {
            Px(i32::MAX)
        } else {
            Px(n as i32)
        }
    }

    fn of_nanos(ns: u64) -> (r: Px) {
        Px::of_u64(ns / 1_000_000_000)
    }

    fn lowest_value() -> (r: Px) {
        Px(i32::MIN)
    }

    fn greatest_value() -> (r: Px) {
        Px(i32::MAX)
    }

    fn far_value() -> (r: Px) {
        Px(i32::MAX)
    }

    fn plus(self, other: Px) -> (r: Px) {
        Px(saturate(self.0 as i64 + other.0 as i64))
    }

    fn minus(self, other: Px) -> (r: Px) {
        Px(saturate(self.0 as i64 - other.0 as i64))
    }

    fn times(self, other: Px) -> (r: Px) {
        let a: i64 = self.0 as i64;
        let b: i64 = other.0 as i64;
        proof {
            assert(-0x4000_0000_0000_0000 <= a * b <= 0x4000_0000_0000_0000) by (nonlinear_arith)
                requires
                    -0x8000_0000 <= a <= 0x7fff_ffff,
                    -0x8000_0000 <= b <= 0x7fff_ffff,
            ;
        }
        Px(saturate(a * b))
    }

    fn over(self, other: Px) -> (r: Px) {
        Px(divide(self.0, other.0))
    }

    fn negated(self) -> (r: Px) {
        Px(saturate(-(self.0 as i64)))
    }

    fn abs(self) -> (r: Px) {
        Px(saturate(distance_of(self.0) as i64))
    }

    fn max(self, other: Px) -> (r: Px) {
        if self.0 < other.0 {
            other
        } else {
            self
        }
    }

    fn min(self, other: Px) -> (r: Px) {
        if other.0 < self.0 {
            other
        } else {
            self
        }
    }

    fn floor(self) -> (r: Px) {
        self
    }

    fn ceil(self) -> (r: Px) {
        self
    }

    fn round(self) -> (r: Px) {
        self
    }

    fn to_u32(self) -> (r: u32) {
        if self.0 < 0 {
            0
        } else {
            self.0 as u32
        }
    }

    fn lt(self, other: Px) -> (r: bool) {
        self.0 < other.0
    }

    fn le(self, other: Px) -> (r: bool) {
        self.0 <= other.0
    }

    fn eq(self, other: Px) -> (r: bool) {
        self.0 == other.0
    }
}

/// Distinct numbers from `0..n` are at most `n` many.
pub(crate) proof fn distinct_below(s: Seq<int>, n: int)
    requires
        0 <= n,
        s.no_duplicates(),
        forall|i: int| 0 <= i < s.len() ==> 0 <= #[trigger] s[i] < n,
    ensures
        s.len() <= n,
    decreases n,
{
    if s.len() > 0 {
        assert(0 <= s[0] < n);
        if s.contains(n - 1) {
            let k = s.index_of(n - 1);
            let t = s.remove(k);
            assert forall|i: int| 0 <= i < t.len() implies 0 <= #[trigger] t[i] < n - 1 by {
                if i < k {
                    assert(t[i] == s[i]);
                } else {
                    assert(t[i] == s[i + 1]);
                }
            }
            assert(t.no_duplicates());
            distinct_below(t, n - 1);
        } else {
            assert forall|i: int| 0 <= i < s.len() implies 0 <= #[trigger] s[i] < n - 1 by {
                assert(s[i] != n - 1);
            }
            distinct_below(s, n - 1);
        }
    }
}

/// Whole pixels are computed with as whole numbers, as long as they stay in the
/// `i32` range; beyond it they stop at its ends.
pub proof fn pixels_are_whole_numbers(a: Px, b: Px, n: i32, k: u64)
    ensures
        i32::MIN <= a.0 + b.0 <= i32::MAX ==> a.sum(b).0 == a.0 + b.0,
        i32::MIN <= a.0 - b.0 <= i32::MAX ==> a.difference(b).0 == a.0 - b.0,
        i32::MIN <= a.0 * b.0 <= i32::MAX ==> a.product(b).0 == a.0 * b.0,
        a.0 > i32::MIN ==> a.negation().0 == -a.0,
        a.0 >= 0 ==> a.magnitude() == a,
        i32::MIN < a.0 < 0 ==> a.magnitude().0 == -a.0,
        a.below(b) <==> a.0 < b.0,
        a.at_most(b) <==> a.0 <= b.0,
        a.equals(b) <==> a == b,
        a.0 <= b.0 ==> a.larger(b) == b && a.smaller(b) == a,
        b.0 <= a.0 ==> a.larger(b) == a && a.smaller(b) == b,
        a.rounded() == a && a.rounded_down() == a && a.rounded_up() == a,
        0 <= a.0 ==> a.whole() == a.0,
        a.0 < 0 ==> a.whole() == 0,
        Px::fraction(n, 1).0 == n,
        k <= i32::MAX ==> Px::natural(k).0 == k,
        0 <= a.0 && 0 < b.0 ==> a.quotient(b).0 * b.0 <= a.0 < (a.quotient(b).0 + 1) * b.0,
        Px::lowest().at_most(a) && a.at_most(Px::greatest()),
{
    let d = distance(n as int);
    assert(distance(1) == 1);
    assert(d / 1 == d);
    assert(truncated_quotient(n as int, 1) == n);
    if 0 <= a.0 && 0 < b.0 {
        let (x, y) = (a.0 as int, b.0 as int);
        let q = x / y;
        assert(q * y <= x < (q + 1) * y && 0 <= q <= x) by (nonlinear_arith)
            requires
                q == x / y,
                0 <= x,
                0 < y,
        ;
        assert(truncated_quotient(x, y) == q);
    }
}

} // verus!
