//! Double-precision numbers, carried by their bits.
//!
//! The contracts speak of the number that the 64 bits of an IEEE 754 double
//! stand for, counted in units of 2^-1074, the smallest positive double.

use vstd::arithmetic::power2::*;
use vstd::prelude::*;
use vstd::std_specs::cmp::PartialEqSpec;

verus! {

/// The bits of `1.0`.
pub const ONE_BITS: u64 = 0x3FF0_0000_0000_0000;

/// The bits of `-0.0`.
pub const NEGATIVE_ZERO_BITS: u64 = 0x8000_0000_0000_0000;

/// The bits of positive infinity.
pub const INFINITY_BITS: u64 = 0x7FF0_0000_0000_0000;

/// 2^52: the weight of a double's hidden bit over its last one.
pub const FRACTION_SIZE: u64 = 0x0010_0000_0000_0000;

/// The sign bit.
pub open spec fn negative(bits: u64) -> bool {
    bits >= NEGATIVE_ZERO_BITS
}

/// The biased exponent, in `0..2048`.
pub open spec fn exponent(bits: u64) -> nat {
    ((bits % NEGATIVE_ZERO_BITS) / FRACTION_SIZE) as nat
}

/// The fraction below the hidden bit, in `0..2^52`.
pub open spec fn fraction(bits: u64) -> nat {
    (bits % FRACTION_SIZE) as nat
}

/// The bits stand for a number, neither an infinity nor NaN.
pub open spec fn finite(bits: u64) -> bool {
    exponent(bits) < 2047
}

/// The bits stand for no number at all.
pub open spec fn not_a_number(bits: u64) -> bool {
    exponent(bits) == 2047 && fraction(bits) > 0
}

/// The absolute value in units of 2^-1074. An infinity counts as the number
/// that would follow the largest finite one.
pub open spec fn magnitude(bits: u64) -> nat {
    if exponent(bits) == 0 {
        fraction(bits)
    } else {
        (FRACTION_SIZE as nat + fraction(bits)) * pow2((exponent(bits) - 1) as nat)
    }
}

/// The number in units of 2^-1074.
pub open spec fn units(bits: u64) -> int {
    if negative(bits) {
        -magnitude(bits)
    } else {
        magnitude(bits) as int
    }
}

/// The bits stand for a number in `[0, 1]`.
pub open spec fn in_unit_interval(bits: u64) -> bool {
    finite(bits) && 0 <= units(bits) <= pow2(1074)
}

/// The sign, the exponent and the fraction make up the bits.
pub proof fn lemma_fields(bits: u64)
    ensures
        fraction(bits) < FRACTION_SIZE,
        bits < NEGATIVE_ZERO_BITS ==> bits == exponent(bits) * FRACTION_SIZE + fraction(bits),
        bits >= NEGATIVE_ZERO_BITS ==> bits - NEGATIVE_ZERO_BITS == exponent(bits) * FRACTION_SIZE
            + fraction(bits),
        exponent(bits) < 2048,
{
}

/// Among doubles without the sign bit, the order of the bits is the order of the numbers.
pub proof fn lemma_bits_order(a: u64, b: u64)
    requires
        !negative(a),
        !negative(b),
    ensures
        a < b <==> magnitude(a) < magnitude(b),
        a == b <==> magnitude(a) == magnitude(b),
{
    if a < b {
        lemma_bits_increase(a, b);
    } else if b < a {
        lemma_bits_increase(b, a);
    }
}

proof fn lemma_bits_increase(a: u64, b: u64)
    requires
        !negative(b),
        a < b,
    ensures
        magnitude(a) < magnitude(b),
{
    lemma_fields(a);
    lemma_fields(b);
    let (ea, fa, eb, fb) = (exponent(a), fraction(a), exponent(b), fraction(b));
    let size = FRACTION_SIZE as nat;
    assert(ea <= eb) by (nonlinear_arith)
        requires
            ea * size + fa < eb * size + fb,
            fa < size,
            fb < size,
    ;
    if ea == eb {
        assert(fa < fb);
        if ea > 0 {
            let p = pow2((ea - 1) as nat);
            lemma_pow2_pos((ea - 1) as nat);
            assert((size + fa) * p < (size + fb) * p) by (nonlinear_arith)
                requires
                    fa < fb,
                    p > 0,
            ;
        }
    } else {
        let q = pow2((eb - 1) as nat);
        lemma_pow2_pos((eb - 1) as nat);
        assert(size * q <= (size + fb) * q) by (nonlinear_arith)
            requires
                q > 0,
        ;
        if ea == 0 {
            assert(size <= size * q) by (nonlinear_arith)
                requires
                    q >= 1,
            ;
        } else {
            let p = pow2((ea - 1) as nat);
            lemma_pow2_pos((ea - 1) as nat);
            lemma_pow2_unfold(ea);
            assert(2 * p == pow2(ea));
            if ea < eb - 1 {
                lemma_pow2_strictly_increases(ea, (eb - 1) as nat);
            }
            assert(2 * p <= q);
            assert((size + fa) * p < (2 * size) * p) by (nonlinear_arith)
                requires
                    fa < size,
                    p > 0,
            ;
            assert((2 * size) * p <= size * q) by (nonlinear_arith)
                requires
                    2 * p <= q,
            ;
        }
    }
}

/// The bits of `1.0` stand for the number one.
pub proof fn lemma_one()
    ensures
        exponent(ONE_BITS) == 1023,
        !negative(ONE_BITS),
        units(ONE_BITS) == pow2(1074),
{
    assert(exponent(ONE_BITS) == 1023 && fraction(ONE_BITS) == 0);
    lemma_pow2_adds(52, 1022);
    lemma2_to64_rest();
}

/// Two doubles stand for one number if their bits agree or both are zeros.
pub proof fn lemma_same_number(a: u64, b: u64)
    ensures
        units(a) == units(b) <==> a == b || (a % NEGATIVE_ZERO_BITS == 0 && b % NEGATIVE_ZERO_BITS
            == 0),
{
    let pa = (a % NEGATIVE_ZERO_BITS) as u64;
    let pb = (b % NEGATIVE_ZERO_BITS) as u64;
    lemma_fields(a);
    lemma_fields(b);
    lemma_fields(pa);
    lemma_fields(pb);
    assert(magnitude(a) == magnitude(pa));
    assert(magnitude(b) == magnitude(pb));
    lemma_bits_order(pa, pb);
    lemma_bits_order(pa, 0);
    lemma_bits_order(pb, 0);
    assert(magnitude(0) == 0);
}

/// The doubles in `[0, 1]` are `-0.0` and those whose bits are at most the bits of `1.0`.
pub proof fn lemma_unit_interval_bits(bits: u64)
    ensures
        in_unit_interval(bits) <==> bits <= ONE_BITS || bits == NEGATIVE_ZERO_BITS,
{
    lemma_fields(bits);
    lemma_one();
    if !negative(bits) {
        lemma_bits_order(bits, ONE_BITS);
    } else {
        assert(bits == NEGATIVE_ZERO_BITS <==> exponent(bits) == 0 && fraction(bits) == 0);
        if exponent(bits) > 0 {
            let (e, f) = (exponent(bits), fraction(bits));
            lemma_pow2_pos((e - 1) as nat);
            assert((FRACTION_SIZE as nat + f) * pow2((e - 1) as nat) > 0) by (nonlinear_arith)
                requires
                    pow2((e - 1) as nat) > 0,
                    FRACTION_SIZE > 0,
            ;
        }
    }
}

/// A double-precision number.
///
/// Its view is the bits. Equality is that of doubles: the zeros are equal, and
/// NaN equals nothing.
#[derive(Debug, Clone, Copy)]
pub struct Double {
    bits: u64,
}

impl View for Double {
    type V = u64;

    closed spec fn view(&self) -> u64 {
        self.bits
    }
}

impl Double {
    /// The double with these bits.
    pub fn from_bits(bits: u64) -> (number: Double)
        ensures
            number@ == bits,
    {
        Double { bits }
    }

    /// The bits.
    pub fn to_bits(self) -> (bits: u64)
        ensures
            bits == self@,
    {
        self.bits
    }
}

impl PartialEq for Double {
    fn eq(&self, other: &Double) -> (equal: bool) {
        proof {
            lemma_same_number(self.bits, other.bits);
            lemma_fields(self.bits);
            lemma_fields(other.bits);
        }
        let nan: bool = self.bits % NEGATIVE_ZERO_BITS > INFINITY_BITS;
        let zeros: bool = self.bits % NEGATIVE_ZERO_BITS == 0 && other.bits % NEGATIVE_ZERO_BITS
            == 0;
        !nan && (self.bits == other.bits || zeros)
    }
}

impl vstd::std_specs::cmp::PartialEqSpecImpl for Double {
    open spec fn obeys_eq_spec() -> bool {
        true
    }

    open spec fn eq_spec(&self, other: &Double) -> bool {
        !not_a_number(self@) && !not_a_number(other@) && units(self@) == units(other@)
    }
}

/// Law: doubles compare as numbers do: NaN equals nothing, the zeros are equal,
/// and any other two are equal exactly where their bits are.
pub proof fn law_doubles_compare_as_numbers(a: Double, b: Double)
    ensures
        not_a_number(a@) || not_a_number(b@) ==> !a.eq_spec(&b),
        a@ % 0x8000_0000_0000_0000 == 0 && b@ % 0x8000_0000_0000_0000 == 0 ==> a.eq_spec(&b),
        !not_a_number(a@) && (a@ % 0x8000_0000_0000_0000 != 0 || b@ % 0x8000_0000_0000_0000 != 0)
            ==> (a.eq_spec(&b) <==> a@ == b@),
        not_a_number(a@) <==> a@ % 0x8000_0000_0000_0000 > 0x7FF0_0000_0000_0000,
{
    lemma_same_number(a@, b@);
    lemma_fields(a@);
    lemma_fields(b@);
}

} // verus!
