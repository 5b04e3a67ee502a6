//! Pixel coordinates.
//!
//! Scenes are generic in the number type that they measure with. All that
//! layout, hit-testing and accessibility need of it is stated here.

use vstd::arithmetic::power2::{
    lemma2_to64, lemma2_to64_rest, lemma_pow2_pos, lemma_pow2_unfold, pow2,
};
use vstd::prelude::*;

verus! {

/// A number that scenes measure with: pixels, font sizes, colour components.
pub trait Coord: Copy {
    /// The origin of the surface.
    spec fn spec_zero() -> Self;

    /// The sum of an offset and a further offset.
    spec fn spec_plus(self, other: Self) -> Self;

    /// Whether `self` is `other` or more.
    spec fn spec_at_least(self, other: Self) -> bool;

    /// Whether `self` is less than `other`.
    spec fn spec_below(self, other: Self) -> bool;

    /// The bit pattern of the IEEE-754 double with this value.
    spec fn spec_double_bits(self) -> u64;

    /// The whole pixels of this value.
    spec fn spec_whole(self) -> i32;

    /// The origin of the surface.
    fn zero() -> (r: Self)
        ensures
            r == Self::spec_zero(),
    ;

    /// The sum of an offset and a further offset.
    fn plus(self, other: Self) -> (r: Self)
        ensures
            r == self.spec_plus(other),
    ;

    /// Whether `self` is `other` or more.
    fn at_least(self, other: Self) -> (r: bool)
        ensures
            r == self.spec_at_least(other),
    ;

    /// Whether `self` is less than `other`.
    fn below(self, other: Self) -> (r: bool)
        ensures
            r == self.spec_below(other),
    ;

    /// The bit pattern of the IEEE-754 double with this value.
    fn double_bits(self) -> (r: u64)
        ensures
            r == self.spec_double_bits(),
    ;

    /// The whole pixels of this value.
    fn whole(self) -> (r: i32)
        ensures
            r == self.spec_whole(),
    ;
}

/// The exponent and fraction fields of the double `m * 2^(e - 1075)`: `m` is
/// doubled until its top bit is the hidden one, the exponent goes down with it.
pub open spec fn double_fields(m: nat, e: nat) -> nat
    decreases e,
{
    if m == 0 {
        0
    } else if m >= 0x10_0000_0000_0000 || e == 0 {
        (e * 0x10_0000_0000_0000 + (m - 0x10_0000_0000_0000)) as nat
    } else {
        double_fields(2 * m, (e - 1) as nat)
    }
}

/// The bit pattern of the double with the value `n`.
pub open spec fn whole_double_bits(n: i32) -> u64 {
    if n >= 0 {
        double_fields(n as nat, 1075) as u64
    } else {
        (0x8000_0000_0000_0000 + double_fields((-n) as nat, 1075)) as u64
    }
}

/// The double in the bits of a whole number has its value: the fraction with
/// its hidden bit is the number, shifted by what the exponent falls short.
pub proof fn law_whole_double_bits_hold_the_number(m: nat, e: nat)
    requires
        0 < m < 0x20_0000_0000_0000,
        e <= 1075,
        e >= 53,
    ensures
        ({
            let fields = double_fields(m, e);
            let exponent = fields / 0x10_0000_0000_0000;
            let fraction = fields % 0x10_0000_0000_0000;
            &&& e - 52 <= exponent <= e
            &&& 0x10_0000_0000_0000 + fraction == m * pow2(
                (e - exponent) as nat,
            )
        }),
{
    lemma2_to64();
    lemma_double_fields(m, e, 0, m);
}

/// `m`, which came from `start` by `k` doublings, ends as `start` shifted.
proof fn lemma_double_fields(m: nat, e: nat, k: nat, start: nat)
    requires
        0 < start,
        m < 0x20_0000_0000_0000,
        m == start * pow2(k),
        k <= 52,
        e + k <= 1075,
        e + k >= 53,
        pow2(k) <= m,
    ensures
        ({
            let fields = double_fields(m, e);
            let exponent = fields / 0x10_0000_0000_0000;
            let fraction = fields % 0x10_0000_0000_0000;
            &&& e + k - 52 <= exponent <= e
            &&& 0x10_0000_0000_0000 + fraction == start * pow2(
                (e + k - exponent) as nat,
            )
        }),
    decreases e,
{
    lemma2_to64();
    lemma2_to64_rest();
    lemma_pow2_pos(k);
    if m >= 0x10_0000_0000_0000 {
        let fields = double_fields(m, e);
        assert(fields == e * 0x10_0000_0000_0000 + (m - 0x10_0000_0000_0000));
        assert(fields / 0x10_0000_0000_0000 == e);
        assert(fields % 0x10_0000_0000_0000 == m - 0x10_0000_0000_0000);
    } else {
        if k == 52 {
            assert(m >= pow2(52));
            assert(false);
        }
        lemma_pow2_unfold(k + 1);
        assert(2 * m == start * pow2(k + 1)) by (nonlinear_arith)
            requires
                m == start * pow2(k),
                pow2(k + 1) == 2 * pow2(k),
        ;
        lemma_double_fields(2 * m, (e - 1) as nat, k + 1, start);
    }
}

/// The bits of a whole number of at most 32 bits, computed.
fn double_fields_of(m: u32) -> (r: u64)
    requires
        m <= 0x8000_0000,
    ensures
        r == double_fields(m as nat, 1075),
        r < 0x8000_0000_0000_0000,
{
    if m == 0 {
        return 0;
    }
    let mut v: u64 = m as u64;
    let mut e: u64 = 1075;
    proof {
        lemma2_to64();
    }
    while v < 0x10_0000_0000_0000
        invariant
            0 < v < 0x20_0000_0000_0000,
            v as int >= pow2((1075 - e) as nat),
            1023 <= e <= 1075,
            double_fields(v as nat, e as nat) == double_fields(m as nat, 1075),
        decreases 0x20_0000_0000_0000 - v,
    {
        proof {
            lemma2_to64();
            lemma2_to64_rest();
            if e == 1023 {
                assert(v >= pow2(52));
            }
            lemma_pow2_unfold((1076 - e) as nat);
        }
        v = v * 2;
        e = e - 1;
    }
    proof {
        assert(double_fields(v as nat, e as nat) == e * 0x10_0000_0000_0000 + (v
            - 0x10_0000_0000_0000));
    }
    e * 0x10_0000_0000_0000 + (v - 0x10_0000_0000_0000)
}

/// Whole pixels; a sum that does not fit stays at the nearest that does.
impl Coord for i32 {
    open spec fn spec_zero() -> Self {
        0
    }

    open spec fn spec_plus(self, other: Self) -> Self {
        if self + other > i32::MAX {
            i32::MAX
        } else if self + other < i32::MIN {
            i32::MIN
        } else {
            (self + other) as i32
        }
    }

    open spec fn spec_at_least(self, other: Self) -> bool {
        self >= other
    }

    open spec fn spec_below(self, other: Self) -> bool {
        self < other
    }

    open spec fn spec_double_bits(self) -> u64 {
        whole_double_bits(self)
    }

    open spec fn spec_whole(self) -> i32 {
        self
    }

    fn zero() -> (r: Self) {
        0
    }

    fn plus(self, other: Self) -> (r: Self) {
        let sum: i64 = self as i64 + other as i64;
        if sum > i32::MAX as i64 {
            i32::MAX
        } else if sum < i32::MIN as i64 {
            i32::MIN
        } else {
            sum as i32
        }
    }

    fn at_least(self, other: Self) -> (r: bool) {
        self >= other
    }

    fn below(self, other: Self) -> (r: bool) {
        self < other
    }

    fn double_bits(self) -> (r: u64) {
        if self >= 0 {
            double_fields_of(self as u32)
        } else {
            let m: i64 = -(self as i64);
            0x8000_0000_0000_0000 + double_fields_of(m as u32)
        }
    }

    fn whole(self) -> (r: i32) {
        self
    }
}

/// Whole pixels measure as integers do: sums are sums, as long as they fit, and
/// otherwise the nearest number that does; comparisons are those of integers; and
/// the whole pixels of a number are the number.
pub proof fn law_whole_pixels_measure_as_integers(a: i32, b: i32)
    ensures
        i32::spec_zero() == 0,
        i32::MIN <= a + b <= i32::MAX ==> a.spec_plus(b) == a + b,
        a.spec_plus(b) == b.spec_plus(a),
        a + b > i32::MAX ==> a.spec_plus(b) == i32::MAX,
        a + b < i32::MIN ==> a.spec_plus(b) == i32::MIN,
        a.spec_at_least(b) <==> a >= b,
        a.spec_below(b) <==> !a.spec_at_least(b),
        a.spec_whole() == a,
{
}

} // verus!
