//! Binary floating-point numbers as their bit patterns.
use arrow::datatypes::{ArrowPrimitiveType, Float64Type};
use vstd::arithmetic::power2::*;
use vstd::prelude::*;

verus! {

/// A 64-bit floating-point number, held as its IEEE 754 bit pattern.
#[derive(Debug, Clone, Copy, PartialEq, Eq, Structural)]
pub struct Real {
    pub bits: u64,
}

/// The weight of the sign bit.
pub const SIGN: u64 = 0x8000_0000_0000_0000;

/// The bit pattern of positive infinity.
pub const INFINITY: u64 = 0x7ff0_0000_0000_0000;

impl Real {
    /// The bit pattern without its sign.
    pub open spec fn magnitude(self) -> int {
        self.bits as int % 0x8000_0000_0000_0000
    }

    pub open spec fn negative(self) -> bool {
        self.bits >= SIGN
    }

    pub open spec fn finite(self) -> bool {
        self.magnitude() < INFINITY
    }

    pub open spec fn nan(self) -> bool {
        self.magnitude() > INFINITY
    }

    /// An integer that rises with the number; negative zero comes just before zero.
    pub open spec fn rank(self) -> int {
        if self.negative() {
            -self.magnitude() - 1
        } else {
            self.magnitude()
        }
    }

    /// The smaller of two numbers; the other one where one is not a number.
    pub open spec fn spec_min(self, other: Real) -> Real {
        if self.nan() {
            other
        } else if other.nan() || self.rank() <= other.rank() {
            self
        } else {
            other
        }
    }

    /// The larger of two numbers; the other one where one is not a number.
    pub open spec fn spec_max(self, other: Real) -> Real {
        if self.nan() {
            other
        } else if other.nan() || self.rank() >= other.rank() {
            self
        } else {
            other
        }
    }

    fn size(&self) -> (m: u64)
        ensures
            m == self.magnitude(),
    {
        self.bits % 0x8000_0000_0000_0000
    }

    pub fn is_finite(&self) -> (b: bool)
        ensures
            b == self.finite(),
    {
        self.size() < INFINITY
    }

    pub fn is_nan(&self) -> (b: bool)
        ensures
            b == self.nan(),
    {
        self.size() > INFINITY
    }

    pub fn is_zero(&self) -> (b: bool)
        ensures
            b == (self.magnitude() == 0),
    {
        self.size() == 0
    }

    /// Whether `self` is at most `other` in rank.
    pub fn at_most(&self, other: &Real) -> (b: bool)
        ensures
            b == (self.rank() <= other.rank()),
    {
        if self.bits >= SIGN {
            other.bits < SIGN || self.size() >= other.size()
        } else {
            other.bits < SIGN && self.size() <= other.size()
        }
    }

    /// `self >= other` as floating-point numbers have it.
    pub open spec fn reaches(self, other: Real) -> bool {
        !self.nan() && !other.nan() && (self.rank() >= other.rank() || (self.magnitude() == 0
            && other.magnitude() == 0))
    }

    pub fn at_least(&self, other: &Real) -> (b: bool)
        ensures
            b == self.reaches(*other),
    {
        !self.is_nan() && !other.is_nan() && (other.at_most(self) || (self.is_zero()
            && other.is_zero()))
    }

    pub fn min(&self, other: &Real) -> (m: Real)
        ensures
            m == self.spec_min(*other),
    {
        if self.is_nan() {
            *other
        } else if other.is_nan() || self.at_most(other) {
            *self
        } else {
            *other
        }
    }

    pub fn max(&self, other: &Real) -> (m: Real)
        ensures
            m == self.spec_max(*other),
    {
        if self.is_nan() {
            *other
        } else if other.is_nan() || other.at_most(self) {
            *self
        } else {
            *other
        }
    }
}

/// Numbers of equal rank are the same number.
pub proof fn law_rank_is_injective(a: Real, b: Real)
    requires
        a.rank() == b.rank(),
    ensures
        a == b,
{
}

impl Real {
    /// The number that a finite bit pattern stands for, in units of the least
    /// positive one.
    pub open spec fn value(self) -> int {
        let exponent = self.magnitude() / 0x10_0000_0000_0000;
        let fraction = self.magnitude() % 0x10_0000_0000_0000;
        let size = if exponent == 0 {
            fraction
        } else {
            (0x10_0000_0000_0000 + fraction) * pow2((exponent - 1) as nat)
        };
        if self.bits >= 0x8000_0000_0000_0000 {
            -size
        } else {
            size
        }
    }
}

proof fn lemma_size_grows(a: int, b: int)
    requires
        0 <= a < b,
    ensures
        ({
            let unit: int = 0x10_0000_0000_0000;
            let small = if a / unit == 0 {
                a % unit
            } else {
                (unit + a % unit) * pow2((a / unit - 1) as nat)
            };
            let large = if b / unit == 0 {
                b % unit
            } else {
                (unit + b % unit) * pow2((b / unit - 1) as nat)
            };
            0 <= small < large
        }),
{
    let unit: int = 0x10_0000_0000_0000;
    let (d, e) = (a / unit, b / unit);
    let (f, g) = (a % unit, b % unit);
    assert(d <= e);
    if e > 0 {
        let q = pow2((e - 1) as nat);
        lemma_pow2_pos((e - 1) as nat);
        assert(unit + g <= (unit + g) * q) by (nonlinear_arith)
            requires
                q >= 1,
                unit + g >= 0,
        ;
        if d > 0 {
            let p = pow2((d - 1) as nat);
            lemma_pow2_pos((d - 1) as nat);
            if d == e {
                assert((unit + f) * p < (unit + g) * p) by (nonlinear_arith)
                    requires
                        f < g,
                        p >= 1,
                ;
                assert(0 <= (unit + f) * p) by (nonlinear_arith)
                    requires
                        unit + f >= 0,
                        p >= 1,
                ;
            } else {
                lemma_pow2_unfold(d as nat);
                if d < e - 1 {
                    lemma_pow2_strictly_increases(d as nat, (e - 1) as nat);
                }
                assert((unit + f) * p < (unit + g) * q) by (nonlinear_arith)
                    requires
                        0 <= f < unit,
                        0 <= g,
                        unit > 0,
                        p >= 1,
                        2 * p <= q,
                ;
                assert(0 <= (unit + f) * p) by (nonlinear_arith)
                    requires
                        unit + f >= 0,
                        p >= 1,
                ;
            }
        }
    }
}

/// Ranks order finite numbers as their values do; only the two zeros differ in
/// rank and not in value.
pub proof fn law_ranks_order_numbers(a: Real, b: Real)
    requires
        a.finite(),
        b.finite(),
        a.rank() < b.rank(),
    ensures
        a.value() < b.value() || (a.value() == 0 && b.value() == 0),
{
    let (m, n) = (a.magnitude(), b.magnitude());
    if m < n {
        lemma_size_grows(m, n);
    }
    if n < m {
        lemma_size_grows(n, m);
    }
    if m > 0 {
        lemma_size_grows(0, m);
    }
    if n > 0 {
        lemma_size_grows(0, n);
    }
}

/// Only the two zeros have the value zero.
pub proof fn law_only_zeros_are_zero(a: Real)
    requires
        a.finite(),
    ensures
        a.value() == 0 <==> a.magnitude() == 0,
{
    if a.magnitude() > 0 {
        lemma_size_grows(0, a.magnitude());
    }
}

/// The smaller of two finite numbers is one of them and not above the other,
/// the larger is one of them and not below the other. What is no number gives
/// way to what is one.
pub proof fn law_smaller_and_larger(a: Real, b: Real)
    ensures
        a.finite() && b.finite() ==> (a.spec_min(b) == a || a.spec_min(b) == b) && a.spec_min(
            b,
        ).value() <= a.value() && a.spec_min(b).value() <= b.value(),
        a.finite() && b.finite() ==> (a.spec_max(b) == a || a.spec_max(b) == b) && a.spec_max(
            b,
        ).value() >= a.value() && a.spec_max(b).value() >= b.value(),
        a.nan() && !b.nan() ==> a.spec_min(b) == b && a.spec_max(b) == b,
        b.nan() && !a.nan() ==> a.spec_min(b) == a && a.spec_max(b) == a,
        a.finite() && b.finite() ==> (a.reaches(b) <==> a.value() >= b.value()),
        a.nan() || b.nan() ==> !a.reaches(b),
{
    if a.finite() && b.finite() {
        if a.rank() < b.rank() {
            law_ranks_order_numbers(a, b);
        }
        if b.rank() < a.rank() {
            law_ranks_order_numbers(b, a);
        }
        if a.rank() == b.rank() {
            law_rank_is_injective(a, b);
        }
        if a.magnitude() > 0 {
            lemma_size_grows(0, a.magnitude());
        }
        if b.magnitude() > 0 {
            lemma_size_grows(0, b.magnitude());
        }
    }
}

/// A bit pattern is finite where its exponent is not the largest one, and no
/// number where it is the largest one and the fraction is not zero.
pub proof fn law_exponents_tell_numbers(a: Real)
    ensures
        a.finite() <==> (a.bits / 0x10_0000_0000_0000) % 0x800 != 0x7ff,
        a.nan() <==> (a.bits / 0x10_0000_0000_0000) % 0x800 == 0x7ff && a.bits
            % 0x10_0000_0000_0000 != 0,
{
}

/// What a text reads as, parsed as a 64-bit floating-point number, or what the
/// error says.
pub uninterp spec fn real_text(text: Seq<char>) -> Result<Real, Seq<char>>;

/// `str::parse` into a 64-bit floating-point number, or the error by its text: a
/// function of the text.
#[verifier::external_body]
pub(crate) fn parse_real(text: &str) -> (r: Result<Real, String>)
    ensures
        match r {
            Ok(x) => real_text(text@) == Ok::<Real, Seq<char>>(x),
            Err(e) => real_text(text@) == Err::<Real, Seq<char>>(e@),
        },
{
    match text.parse::<<Float64Type as ArrowPrimitiveType>::Native>() {
        Ok(x) => Ok(Real { bits: x.to_bits() }),
        Err(e) => Err(e.to_string()),
    }
}

/// How `Display` writes a 64-bit floating-point number.
pub uninterp spec fn real_shown(r: Real) -> Seq<char>;

/// `format!` of a 64-bit floating-point number: a function of the number.
#[verifier::external_body]
pub(crate) fn show_real(r: &Real) -> (text: String)
    ensures
        text@ == real_shown(*r),
{
    format!("{}", <<Float64Type as ArrowPrimitiveType>::Native>::from_bits(r.bits))
}

/// How `Debug` writes a 64-bit floating-point number.
pub uninterp spec fn real_debug(r: Real) -> Seq<char>;

/// `format!` of a 64-bit floating-point number by `Debug`, which shows a whole
/// number with its `.0`: a function of the number.
#[verifier::external_body]
pub(crate) fn debug_real(r: &Real) -> (text: String)
    ensures
        text@ == real_debug(*r),
{
    format!("{:?}", <<Float64Type as ArrowPrimitiveType>::Native>::from_bits(r.bits))
}

} // verus!
