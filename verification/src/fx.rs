//! 16.16 fixed-point arithmetic.
//!
//! One tile equals `Fx::one()`. The value of an `Fx` is its bits divided by
//! 2^16; contracts speak of the bits, written `x@`.
use core::cmp::Ordering;
use vstd::prelude::*;
use vstd::std_specs::cmp::PartialOrdSpecImpl;
use vstd::std_specs::ops::AddSpecImpl;
use vstd::std_specs::ops::NegSpecImpl;
use vstd::std_specs::ops::SubSpecImpl;

verus! {

/// Largest magnitude of a saturated result: `i32::MAX`.
const FX_LIMIT: i32 = 2147483647;

/// Number of fractional bits in the representation.
const SHIFT: u32 = 16;

/// Clamps a mathematical integer into `[-i32::MAX, i32::MAX]`, the range
/// that saturating arithmetic lands in.
pub open spec fn saturate(v: int) -> int {
    if v > i32::MAX {
        i32::MAX as int
    } else if v < -i32::MAX {
        -i32::MAX
    } else {
        v
    }
}

/// Absolute value of a mathematical integer.
pub open spec fn abs_int(v: int) -> int {
    if v < 0 { -v } else { v }
}

/// Integer division rounding towards zero, as Rust's `/` does.
pub open spec fn trunc_div(a: int, b: int) -> int {
    if a >= 0 {
        if b > 0 { a / b } else { -(a / -b) }
    } else {
        if b > 0 { -((-a) / b) } else { (-a) / (-b) }
    }
}

/// Bits of the saturated product of two values with bits `a` and `b`: the
/// exact product rescaled by 2^-16 and floored.
pub open spec fn fx_mul(a: int, b: int) -> int {
    saturate((a * b) / 65536)
}

/// Bits of the saturated quotient of values with bits `a` and `b`, rounded
/// towards zero.
pub open spec fn fx_div(a: int, b: int) -> int {
    saturate(trunc_div(a * 65536, b))
}

/// Bits of the saturated sum.
pub open spec fn fx_add(a: int, b: int) -> int {
    saturate(a + b)
}

/// Bits of the saturated difference.
pub open spec fn fx_sub(a: int, b: int) -> int {
    saturate(a - b)
}

/// Bits of the saturated negation.
pub open spec fn fx_neg(a: int) -> int {
    saturate(-a)
}

/// Bits of the whole number `n`, saturated.
pub open spec fn fx_from_int(n: int) -> int {
    saturate(n * 65536)
}

/// Bits of the fraction `num / den`, rounded towards zero and saturated.
pub open spec fn fx_from_frac(num: int, den: int) -> int {
    saturate(trunc_div(num * 65536, den))
}

/// The whole part of a value with bits `a`, rounded down.
pub open spec fn fx_to_int(a: int) -> int {
    a / 65536
}

/// A 16.16 signed fixed-point number.
#[derive(Copy, Clone, PartialEq, Eq, Structural, Ord, Hash, Debug, Default)]
pub struct Fx(i32);

impl View for Fx {
    type V = int;

    /// The raw bits, as a mathematical integer.
    closed spec fn view(&self) -> int {
        self.0 as int
    }
}

proof fn lemma_shr_floor(x: i64)
    ensures
        (x >> 16u32) as int == x as int / 65536,
{
    assert((x >> 16u32) * 65536 <= x && x < (x >> 16u32) * 65536 + 65536) by (bit_vector);
}

proof fn lemma_shl_wide(x: i64)
    requires
        i32::MIN <= x <= i32::MAX,
    ensures
        (x << 16u32) as int == x * 65536,
{
    assert((x << 16u32) == x * 65536) by (bit_vector)
        requires
            -0x8000_0000 <= x <= 0x7fff_ffff,
    ;
}

/// Rust's truncating division on `i64`, written over the magnitudes so that
/// only non-negative operands are divided.
fn div_toward_zero(a: i64, b: i64) -> (q: i64)
    requires
        b != 0,
        a > i64::MIN,
        b > i64::MIN,
    ensures
        q == trunc_div(a as int, b as int),
{
    let ua: i64 = if a < 0 { -a } else { a };
    let ub: i64 = if b < 0 { -b } else { b };
    let m = ua / ub;
    if (a < 0) == (b < 0) {
        m
    } else {
        -m
    }
}

proof fn lemma_shr_floor_i32(x: i32)
    ensures
        (x >> 16u32) as int == x as int / 65536,
{
    assert((x >> 16u32) * 65536 <= x && x < (x >> 16u32) * 65536 + 65536) by (bit_vector);
}

proof fn lemma_shl_u64(x: u64)
    requires
        x <= 0x7fff_ffff,
    ensures
        (x << 16u32) as int == x * 65536,
{
    assert((x << 16u32) == x * 65536) by (bit_vector)
        requires
            x <= 0x7fff_ffff,
    ;
}

/// The integer square root of `n`, rounded down.
fn isqrt_u64(n: u64) -> (r: u64)
    ensures
        r * r <= n,
        n < (r + 1) * (r + 1),
{
    let mut lo: u64 = 0;
    let mut hi: u64 = 0x1_0000_0000;
    proof {
        assert(n < hi * hi) by (nonlinear_arith)
            requires
                hi == 0x1_0000_0000,
                n <= u64::MAX,
        ;
    }
    while hi - lo > 1
        invariant
            lo < hi <= 0x1_0000_0000,
            lo * lo <= n,
            n < hi * hi,
        decreases hi - lo,
    {
        let mid = lo + (hi - lo) / 2;
        proof {
            assert(mid * mid <= 0xffff_ffff * 0xffff_ffff) by (nonlinear_arith)
                requires
                    mid < 0x1_0000_0000,
            ;
        }
        if mid * mid <= n {
            lo = mid;
        } else {
            hi = mid;
        }
    }
    lo
}

impl Fx {
    /// Zero.
    pub fn zero() -> (r: Fx)
        ensures
            r@ == 0,
    {
        Fx(0)
    }

    /// One whole unit, which is one tile in world space.
    pub fn one() -> (r: Fx)
        ensures
            r@ == 65536,
    {
        Fx(65536)
    }

    /// Largest representable value, roughly 32767.99998.
    pub fn max_value() -> (r: Fx)
        ensures
            r@ == i32::MAX,
    {
        Fx(FX_LIMIT)
    }

    /// Smallest representable value, roughly -32768.
    ///
    /// This is `-i32::MAX` rather than `i32::MIN`, so that the range is
    /// symmetric and negating it is representable. Every constructor and
    /// operation saturates into `[min_value(), max_value()]`; only
    /// `from_bits`, which takes raw bits as they are, can hold `i32::MIN`.
    pub fn min_value() -> (r: Fx)
        ensures
            r@ == -i32::MAX,
    {
        Fx(-FX_LIMIT)
    }

    /// Converts a whole number into fixed point, saturating outside the
    /// representable range `-32768..=32767`.
    pub fn from_int(n: i32) -> (r: Fx)
        ensures
            r@ == fx_from_int(n as int),
    {
        let wide = n as i64;
        proof {
            lemma_shl_wide(wide);
        }
        Fx::from_wide(wide << SHIFT)
    }

    /// Builds the fraction `num / den`, rounding towards zero and saturating
    /// at the ends of the representable range.
    pub fn from_frac(num: i32, den: i32) -> (r: Fx)
        requires
            den != 0,
        ensures
            r@ == fx_from_frac(num as int, den as int),
    {
        let wide = num as i64;
        proof {
            lemma_shl_wide(wide);
        }
        let q = div_toward_zero(wide << SHIFT, den as i64);
        Fx::from_wide(q)
    }

    /// Returns the whole part, rounding towards negative infinity.
    pub fn to_int(self) -> (r: i32)
        ensures
            r == fx_to_int(self@),
    {
        proof {
            lemma_shr_floor_i32(self.0);
        }
        self.0 >> SHIFT
    }

    /// Absolute value.
    ///
    /// Total on the representable range, since it is symmetric. Only the raw
    /// bits `i32::MIN`, which `from_bits` alone can build, have no absolute
    /// value in range; that one input is left out.
    pub fn abs(self) -> (r: Fx)
        requires
            self@ > i32::MIN,
        ensures
            r@ == abs_int(self@),
            r@ >= 0,
    {
        if self.0 < 0 {
            Fx(-self.0)
        } else {
            Fx(self.0)
        }
    }

    /// Square root, rounded down: for bits `V`, the result's bits are the
    /// integer square root of `V * 2^16`.
    pub fn sqrt(self) -> (r: Fx)
        requires
            self@ >= 0,
        ensures
            r@ >= 0,
            r@ * r@ <= self@ * 65536,
            self@ * 65536 < (r@ + 1) * (r@ + 1),
    {
        let v = self.0 as u64;
        proof {
            lemma_shl_u64(v);
        }
        let root = isqrt_u64(v << SHIFT);
        proof {
            assert(root < 0x100_0000) by (nonlinear_arith)
                requires
                    root * root <= v * 65536,
                    v <= 0x7fff_ffff,
            ;
        }
        Fx(root as i32)
    }

    /// The bits of every value fit in an `i32`.
    pub proof fn lemma_bits_in_range(a: Fx)
        ensures
            i32::MIN <= a@ <= i32::MAX,
    {
    }

    /// Two values with the same bits are the same value.
    pub proof fn lemma_bits_determine_value(a: Fx, b: Fx)
        requires
            a@ == b@,
        ensures
            a == b,
    {
    }

    /// Builds a value from its raw bits.
    pub fn from_bits(bits: i32) -> (r: Fx)
        ensures
            r@ == bits,
    {
        Fx(bits)
    }

    /// The raw bits of this value.
    pub fn to_bits(self) -> (r: i32)
        ensures
            r == self@,
    {
        self.0
    }

    /// Narrows a widened intermediate back into range, saturating at the
    /// endpoints.
    fn from_wide(v: i64) -> (r: Fx)
        ensures
            r@ == saturate(v as int),
    {
        if v > FX_LIMIT as i64 {
            Fx(FX_LIMIT)
        } else if v < -(FX_LIMIT as i64) {
            Fx(-FX_LIMIT)
        } else {
            Fx(v as i32)
        }
    }

    /// Multiplies two fixed-point values, flooring the rescaled product.
    pub fn mul(self, other: Fx) -> (r: Fx)
        ensures
            r@ == fx_mul(self@, other@),
    {
        let a = self.0 as i64;
        let b = other.0 as i64;
        proof {
            assert(-0x4000_0000_0000_0000 <= a * b <= 0x4000_0000_0000_0000) by (nonlinear_arith)
                requires
                    -0x8000_0000 <= a <= 0x7fff_ffff,
                    -0x8000_0000 <= b <= 0x7fff_ffff,
            ;
        }
        let p = a * b;
        proof {
            lemma_shr_floor(p);
        }
        Fx::from_wide(p >> SHIFT)
    }

    /// Divides one fixed-point value by another, rounding towards zero.
    pub fn div(self, other: Fx) -> (r: Fx)
        requires
            other@ != 0,
        ensures
            r@ == fx_div(self@, other@),
    {
        let a = self.0 as i64;
        proof {
            lemma_shl_wide(a);
        }
        let scaled = a << SHIFT;
        let q = div_toward_zero(scaled, other.0 as i64);
        Fx::from_wide(q)
    }
}


impl core::ops::Add for Fx {
    type Output = Fx;

    /// Saturating addition.
    fn add(self, other: Fx) -> (r: Fx)
        ensures
            r@ == fx_add(self@, other@),
    {
        Fx::from_wide(self.0 as i64 + other.0 as i64)
    }
}

impl AddSpecImpl for Fx {
    open spec fn obeys_add_spec() -> bool {
        true
    }

    open spec fn add_req(self, rhs: Fx) -> bool {
        true
    }

    closed spec fn add_spec(self, rhs: Fx) -> Fx {
        Fx(saturate(self.0 + rhs.0) as i32)
    }
}

impl core::ops::Sub for Fx {
    type Output = Fx;

    /// Saturating subtraction.
    fn sub(self, other: Fx) -> (r: Fx)
        ensures
            r@ == fx_sub(self@, other@),
    {
        Fx::from_wide(self.0 as i64 - other.0 as i64)
    }
}

impl SubSpecImpl for Fx {
    open spec fn obeys_sub_spec() -> bool {
        true
    }

    open spec fn sub_req(self, rhs: Fx) -> bool {
        true
    }

    closed spec fn sub_spec(self, rhs: Fx) -> Fx {
        Fx(saturate(self.0 - rhs.0) as i32)
    }
}

impl core::ops::Neg for Fx {
    type Output = Fx;

    /// Saturating negation.
    fn neg(self) -> (r: Fx)
        ensures
            r@ == fx_neg(self@),
    {
        Fx::from_wide(-(self.0 as i64))
    }
}

impl NegSpecImpl for Fx {
    open spec fn obeys_neg_spec() -> bool {
        true
    }

    open spec fn neg_req(self) -> bool {
        true
    }

    closed spec fn neg_spec(self) -> Fx {
        Fx(saturate(-self.0) as i32)
    }
}

impl PartialOrd for Fx {
    /// Orders values by their bits, which is the order of the numbers they
    /// represent.
    fn partial_cmp(&self, other: &Fx) -> (r: Option<Ordering>) {
        if self.0 < other.0 {
            Some(Ordering::Less)
        } else if self.0 > other.0 {
            Some(Ordering::Greater)
        } else {
            Some(Ordering::Equal)
        }
    }
}

impl PartialOrdSpecImpl for Fx {
    open spec fn obeys_partial_cmp_spec() -> bool {
        true
    }

    open spec fn partial_cmp_spec(&self, other: &Fx) -> Option<Ordering> {
        if self@ < other@ {
            Some(Ordering::Less)
        } else if self@ > other@ {
            Some(Ordering::Greater)
        } else {
            Some(Ordering::Equal)
        }
    }
}

/// Rounding towards zero divides the magnitudes and then fixes the sign.
proof fn lemma_trunc_div_magnitudes(x: int, y: int)
    requires
        y != 0,
    ensures
        trunc_div(x, y) == (if (x >= 0) == (y > 0) {
            abs_int(x) / abs_int(y)
        } else {
            -(abs_int(x) / abs_int(y))
        }),
{
    if x == 0 {
        assert(0int / abs_int(y) == 0);
    }
}

proof fn lemma_abs_mul(k: int, x: int)
    ensures
        abs_int(k * x) == abs_int(k) * abs_int(x),
{
    if k >= 0 && x >= 0 {
        assert(k * x >= 0) by (nonlinear_arith)
            requires
                k >= 0,
                x >= 0,
        ;
    } else if k >= 0 && x < 0 {
        assert(k * x <= 0 && -(k * x) == k * (-x)) by (nonlinear_arith)
            requires
                k >= 0,
                x < 0,
        ;
    } else if k < 0 && x >= 0 {
        assert(k * x <= 0 && -(k * x) == (-k) * x) by (nonlinear_arith)
            requires
                k < 0,
                x >= 0,
        ;
    } else {
        assert(k * x > 0 && k * x == (-k) * (-x)) by (nonlinear_arith)
            requires
                k < 0,
                x < 0,
        ;
    }
}

/// Scaling numerator and denominator by the same non-zero factor leaves a
/// rounded-towards-zero quotient unchanged.
proof fn lemma_trunc_div_scale(x: int, y: int, k: int)
    requires
        y != 0,
        k != 0,
    ensures
        trunc_div(k * x, k * y) == trunc_div(x, y),
{
    let ak = abs_int(k);
    lemma_abs_mul(k, x);
    lemma_abs_mul(k, y);
    assert(k * y != 0) by (nonlinear_arith)
        requires
            k != 0,
            y != 0,
    ;
    assert((ak * abs_int(x)) / (ak * abs_int(y)) == abs_int(x) / abs_int(y)) by {
        vstd::arithmetic::div_mod::lemma_div_denominator(ak * abs_int(x), ak, abs_int(y));
        vstd::arithmetic::div_mod::lemma_div_multiples_vanish(abs_int(x), ak);
    }
    lemma_trunc_div_magnitudes(x, y);
    lemma_trunc_div_magnitudes(k * x, k * y);
    if x != 0 {
        assert(((k * x >= 0) == (k * y > 0)) == ((x >= 0) == (y > 0))) by (nonlinear_arith)
            requires
                x != 0,
                y != 0,
                k != 0,
        ;
    } else {
        assert(k * x == 0) by (nonlinear_arith)
            requires
                x == 0,
        ;
        assert(0int / abs_int(y) == 0);
    }
}

/// The remainder left by rounding towards zero is smaller than the divisor.
proof fn lemma_trunc_div_remainder(x: int, y: int)
    requires
        y != 0,
    ensures
        abs_int(x - trunc_div(x, y) * y) < abs_int(y),
{
    let q = abs_int(x) / abs_int(y);
    let r = abs_int(x) % abs_int(y);
    vstd::arithmetic::div_mod::lemma_fundamental_div_mod(abs_int(x), abs_int(y));
    vstd::arithmetic::div_mod::lemma_mod_bound(abs_int(x), abs_int(y));
    lemma_trunc_div_magnitudes(x, y);
    assert(abs_int(x - trunc_div(x, y) * y) == r) by (nonlinear_arith)
        requires
            abs_int(x) == abs_int(y) * q + r,
            0 <= r,
            y != 0,
            trunc_div(x, y) == (if (x >= 0) == (y > 0) { q } else { -q }),
            abs_int(x) == (if x < 0 { -x } else { x }),
            abs_int(y) == (if y < 0 { -y } else { y }),
            x == 0 ==> q == 0 && r == 0,
    {
        if x == 0 {
        } else if x > 0 && y > 0 {
        } else if x > 0 && y < 0 {
        } else if x < 0 && y > 0 {
        } else {
        }
    }
}

/// Multiplication is commutative.
pub proof fn lemma_mul_commutative(a: Fx, b: Fx)
    ensures
        fx_mul(a@, b@) == fx_mul(b@, a@),
{
    vstd::arithmetic::mul::lemma_mul_is_commutative(a@, b@);
}

/// Multiplying by one leaves every representable value unchanged. (Raw bits `i32::MIN`, which only `from_bits` builds, saturate to
/// `-i32::MAX` instead.)
pub proof fn lemma_mul_by_one(a: Fx)
    requires
        a@ > i32::MIN,
    ensures
        fx_mul(a@, 65536) == a@,
{
    vstd::arithmetic::div_mod::lemma_div_multiples_vanish(a@, 65536);
    vstd::arithmetic::mul::lemma_mul_is_commutative(a@, 65536);
}

/// Adding and then subtracting the same value gives back the first value,
/// provided the sum did not saturate.
pub proof fn lemma_add_then_sub(a: Fx, b: Fx)
    requires
        a@ > i32::MIN,
        -i32::MAX <= a@ + b@ <= i32::MAX,
    ensures
        fx_sub(fx_add(a@, b@), b@) == a@,
{
}

/// Negation is its own inverse on every representable value.
pub proof fn lemma_neg_involutive(a: Fx)
    requires
        a@ > i32::MIN,
    ensures
        fx_neg(fx_neg(a@)) == a@,
{
}

/// Every saturated result, and so every value that `from_int`, `from_frac`
/// and the arithmetic build, lies within `[min_value(), max_value()]`.
pub proof fn lemma_saturate_in_range(v: int)
    ensures
        -i32::MAX <= saturate(v) <= i32::MAX,
{
}

/// Saturation keeps every result of arithmetic within
/// `[-i32::MAX, i32::MAX]`, whatever the operands.
pub proof fn lemma_arithmetic_stays_in_range(a: Fx, b: Fx)
    ensures
        -i32::MAX <= fx_add(a@, b@) <= i32::MAX,
        -i32::MAX <= fx_sub(a@, b@) <= i32::MAX,
        -i32::MAX <= fx_mul(a@, b@) <= i32::MAX,
        -i32::MAX <= fx_neg(a@) <= i32::MAX,
        b@ != 0 ==> -i32::MAX <= fx_div(a@, b@) <= i32::MAX,
{
}

/// Multiplying by a factor of magnitude at least one and then dividing by it
/// recovers the first value to within one unit in the last place, as long
/// as the product did not saturate.
pub proof fn lemma_mul_then_div_round_trips(a: Fx, b: Fx)
    requires
        abs_int(b@) >= 65536,
        -i32::MAX <= (a@ * b@) / 65536 <= i32::MAX,
    ensures
        abs_int(fx_div(fx_mul(a@, b@), b@) - a@) <= 1,
{
    let p = (a@ * b@) / 65536;
    let r = (a@ * b@) % 65536;
    vstd::arithmetic::div_mod::lemma_fundamental_div_mod(a@ * b@, 65536);
    assert(fx_mul(a@, b@) == p);
    let x = p * 65536;
    let t = trunc_div(x, b@);
    lemma_trunc_div_remainder(x, b@);
    assert(abs_int(t - a@) <= 1) by (nonlinear_arith)
        requires
            a@ * b@ == 65536 * p + r,
            0 <= r < 65536,
            x == p * 65536,
            abs_int(x - t * b@) < abs_int(b@),
            abs_int(b@) >= 65536,
            abs_int(b@) == (if b@ < 0 { -b@ } else { b@ }),
            abs_int(x - t * b@) == (if x - t * b@ < 0 { -(x - t * b@) } else { x - t * b@ }),
            abs_int(t - a@) == (if t - a@ < 0 { -(t - a@) } else { t - a@ }),
    ;
}

/// A whole number in range survives conversion into fixed point and back.
pub proof fn lemma_whole_numbers_round_trip(n: i32)
    requires
        -32768 <= n <= 32767,
    ensures
        (n * 65536) / 65536 == n,
{
    vstd::arithmetic::div_mod::lemma_div_multiples_vanish(n as int, 65536);
    vstd::arithmetic::mul::lemma_mul_is_commutative(n as int, 65536);
}

/// Equivalent fractions build the same value: scaling numerator and
/// denominator by any non-zero factor does not change `from_frac`'s result.
pub proof fn lemma_equivalent_fractions_are_equal(num: int, den: int, k: int)
    requires
        den != 0,
        k != 0,
    ensures
        trunc_div((k * num) * 65536, k * den) == trunc_div(num * 65536, den),
{
    vstd::arithmetic::mul::lemma_mul_is_associative(k, num, 65536);
    lemma_trunc_div_scale(num * 65536, den, k);
}

/// Saturation clamps: a value inside `[-i32::MAX, i32::MAX]` is kept, a value
/// above it lands on the top and a value below it on the bottom.
pub proof fn lemma_saturate_clamps(v: int)
    ensures
        -0x7fff_ffff <= v <= 0x7fff_ffff ==> saturate(v) == v,
        v > 0x7fff_ffff ==> saturate(v) == 0x7fff_ffff,
        v < -0x7fff_ffff ==> saturate(v) == -0x7fff_ffff,
{
}

/// The product's bits are the floor of the exact product of the bits,
/// rescaled by 2^-16, then saturated: whatever integer `q` satisfies
/// `q * 2^16 <= a * b < (q + 1) * 2^16` is the unsaturated result.
pub proof fn lemma_mul_is_the_floored_product(a: Fx, b: Fx, q: int)
    requires
        q * 65536 <= a@ * b@ < q * 65536 + 65536,
    ensures
        fx_mul(a@, b@) == saturate(q),
{
    vstd::arithmetic::div_mod::lemma_fundamental_div_mod_converse(
        a@ * b@,
        65536,
        q,
        a@ * b@ - q * 65536,
    );
}

/// Sign rule for products: negating both factors leaves the product alone,
/// factors of equal sign give a product that is not negative, and factors
/// of opposite sign give one that is not positive.
pub proof fn lemma_mul_sign_rule(a: Fx, b: Fx)
    ensures
        fx_mul(-a@, -b@) == fx_mul(a@, b@),
        (a@ >= 0) == (b@ >= 0) ==> fx_mul(a@, b@) >= 0,
        (a@ >= 0) != (b@ >= 0) ==> fx_mul(a@, b@) <= 0,
{
    assert((-a@) * (-b@) == a@ * b@) by (nonlinear_arith);
    if (a@ >= 0) == (b@ >= 0) {
        assert(a@ * b@ >= 0) by (nonlinear_arith)
            requires
                (a@ >= 0) == (b@ >= 0),
        ;
    } else {
        assert(a@ * b@ <= 0) by (nonlinear_arith)
            requires
                (a@ >= 0) != (b@ >= 0),
        ;
    }
}

/// The quotient's bits are `a * 2^16 / b` rounded towards zero, then
/// saturated: whatever integer `q` has the magnitude of the floored quotient
/// of the magnitudes (`|q * b| <= |a * 2^16| < |q * b| + |b|`) and the sign
/// of the true quotient is the unsaturated result. This holds for every
/// non-zero divisor, of any magnitude.
pub proof fn lemma_div_rounds_towards_zero(a: Fx, b: Fx, q: int)
    requires
        b@ != 0,
        abs_int(q * b@) <= abs_int(a@ * 65536) < abs_int(q * b@) + abs_int(b@),
        q == 0 || (q > 0) == ((a@ > 0) == (b@ > 0)),
    ensures
        fx_div(a@, b@) == saturate(q),
{
    let x = a@ * 65536;
    lemma_abs_mul(q, b@);
    lemma_trunc_div_magnitudes(x, b@);
    let m = abs_int(q);
    vstd::arithmetic::div_mod::lemma_fundamental_div_mod_converse(
        abs_int(x),
        abs_int(b@),
        m,
        abs_int(x) - m * abs_int(b@),
    );
    if x == 0 {
        assert(m * abs_int(b@) <= 0);
        assert(m == 0) by (nonlinear_arith)
            requires
                m >= 0,
                abs_int(b@) > 0,
                m * abs_int(b@) <= 0,
        ;
    }
}

/// Sign rule for quotients, for every non-zero divisor: negating both
/// operands leaves the quotient alone, operands of equal sign give a
/// quotient that is not negative, and operands of opposite sign give one
/// that is not positive.
pub proof fn lemma_div_sign_rule(a: Fx, b: Fx)
    requires
        b@ != 0,
    ensures
        fx_div(-a@, -b@) == fx_div(a@, b@),
        (a@ >= 0) == (b@ > 0) ==> fx_div(a@, b@) >= 0,
        (a@ >= 0) != (b@ > 0) ==> fx_div(a@, b@) <= 0,
{
    assert((-a@) * 65536 == -1 * (a@ * 65536));
    assert(-b@ == -1 * b@);
    lemma_trunc_div_scale(a@ * 65536, b@, -1);
    lemma_trunc_div_magnitudes(a@ * 65536, b@);
    assert(0 <= abs_int(a@ * 65536) / abs_int(b@));
}

/// Negation flips the sign of every representable value exactly: a value
/// and its negation sum to zero. The raw bits `i32::MIN` negate to the top.
pub proof fn lemma_neg_negates(a: Fx)
    ensures
        a@ > i32::MIN ==> fx_neg(a@) == -a@,
        a@ > i32::MIN ==> fx_add(a@, fx_neg(a@)) == 0,
        a@ > 0 ==> fx_neg(a@) < 0,
        a@ < 0 ==> fx_neg(a@) > 0,
        a@ == i32::MIN ==> fx_neg(a@) == 0x7fff_ffff,
{
}

/// Addition and subtraction are exact whenever the exact result is in
/// range, and subtracting a value is adding its negation.
pub proof fn lemma_add_sub_exact(a: Fx, b: Fx)
    ensures
        -0x7fff_ffff <= a@ + b@ <= 0x7fff_ffff ==> fx_add(a@, b@) == a@ + b@,
        -0x7fff_ffff <= a@ - b@ <= 0x7fff_ffff ==> fx_sub(a@, b@) == a@ - b@,
        b@ > i32::MIN ==> fx_sub(a@, b@) == fx_add(a@, fx_neg(b@)),
{
}

/// A whole number in range converts exactly: its bits are a multiple of
/// 2^16 whose whole part is the number, and `to_int` reads it back.
/// Numbers above the range land on the top, numbers below on the bottom.
pub proof fn lemma_from_int_is_whole(n: int)
    ensures
        -32768 < n < 32768 ==> fx_from_int(n) % 65536 == 0 && fx_from_int(n) / 65536 == n
            && fx_to_int(fx_from_int(n)) == n,
        n >= 32768 ==> fx_from_int(n) == 0x7fff_ffff,
        n <= -32768 ==> fx_from_int(n) == -0x7fff_ffff,
{
    if -32768 < n < 32768 {
        vstd::arithmetic::div_mod::lemma_fundamental_div_mod_converse(n * 65536, 65536, n, 0);
    } else if n >= 32768 {
        assert(n * 65536 >= 32768 * 65536) by (nonlinear_arith)
            requires
                n >= 32768,
        ;
    } else {
        assert(n * 65536 <= -32768 * 65536) by (nonlinear_arith)
            requires
                n <= -32768,
        ;
    }
}

/// `to_int` floors: the whole part `r` of a value is the integer with
/// `r * 2^16 <= bits < (r + 1) * 2^16`.
pub proof fn lemma_to_int_floors(a: Fx)
    ensures
        fx_to_int(a@) * 65536 <= a@ < fx_to_int(a@) * 65536 + 65536,
{
    vstd::arithmetic::div_mod::lemma_fundamental_div_mod(a@, 65536);
}

/// Building the fraction `num / den` agrees with dividing the whole number
/// `num` by the whole number `den`, whenever both are in range.
pub proof fn lemma_from_frac_is_division(num: int, den: int)
    requires
        -32768 < num < 32768,
        -32768 < den < 32768,
        den != 0,
    ensures
        fx_from_frac(num, den) == fx_div(fx_from_int(num), fx_from_int(den)),
{
    lemma_from_int_is_whole(num);
    lemma_from_int_is_whole(den);
    assert((num * 65536) * 65536 == 65536 * (num * 65536)) by (nonlinear_arith);
    assert(den * 65536 == 65536 * den) by (nonlinear_arith);
    lemma_trunc_div_scale(num * 65536, den, 65536);
}

/// The absolute value is the non-negative one of a value and its negation.
pub proof fn lemma_abs_is_magnitude(a: Fx)
    ensures
        abs_int(a@) >= 0,
        abs_int(a@) == a@ || abs_int(a@) == -a@,
        a@ >= 0 ==> abs_int(a@) == a@,
{
}

} // verus!
