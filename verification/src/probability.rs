//! Calibrated probabilities as a validated value type.

use crate::double;
use crate::double::{Double, NEGATIVE_ZERO_BITS, ONE_BITS};
use crate::ordered::Replica;
use std::cmp::Ordering;
use vstd::arithmetic::power2::*;
use vstd::prelude::*;
use vstd::std_specs::cmp::{PartialEqSpec, PartialOrdSpec};

verus! {

/// A probability in the closed interval `[0, 1]`.
///
/// Invariant: the number lies in `[0, 1]` and is not NaN. The constructor
/// [`Probability::new`] is the only way to obtain one from bits, so every
/// value in the program satisfies the invariant.
///
/// Its view is the bits of the number. Either zero is held as `0.0`, so that
/// equal probabilities have equal bits.
#[derive(Debug, Clone, Copy, Eq, Ord)]
pub struct Probability {
    bits: u64,
}

/// The bits under which the number with these bits is held as a probability.
pub open spec fn held_bits(bits: u64) -> u64 {
    if bits == NEGATIVE_ZERO_BITS {
        0
    } else {
        bits
    }
}

impl Probability {
    #[verifier::type_invariant]
    spec fn bounded(self) -> bool {
        self.bits <= ONE_BITS
    }

    /// The number in units of 2^-1074.
    pub open spec fn amount(self) -> int {
        double::units(self@)
    }
}

impl View for Probability {
    type V = u64;

    closed spec fn view(&self) -> u64 {
        self.bits
    }
}

/// A value that is not a probability.
#[derive(Debug, Clone, Copy, PartialEq)]
pub struct ProbabilityError(pub Double);

/// A number shown as `shown` that is not a probability, in words.
pub open spec fn probability_error_text(shown: Seq<char>) -> Seq<char> {
    shown + " is not a probability: expected a number in [0, 1]"@
}

impl ProbabilityError {
    /// What went wrong, in words, for a number shown as `shown`.
    pub fn message(&self, shown: &str) -> (text: String)
        ensures
            text@ == probability_error_text(shown@),
    {
        let mut text = shown.to_owned();
        text.append(" is not a probability: expected a number in [0, 1]");
        text
    }
}

impl Probability {
    /// The impossible event.
    pub fn zero() -> (zero: Probability)
        ensures
            zero@ == 0,
            zero.amount() == 0,
    {
        Probability { bits: 0 }
    }

    /// The certain event.
    pub fn one() -> (one: Probability)
        ensures
            one@ == ONE_BITS,
            one.amount() == pow2(1074),
    {
        proof {
            double::lemma_one();
        }
        Probability { bits: ONE_BITS }
    }

    /// Validates `value` against the interval invariant.
    pub fn new(value: Double) -> (checked: Result<Probability, ProbabilityError>)
        ensures
            checked is Ok <==> double::in_unit_interval(value@),
            checked is Ok <==> value@ <= ONE_BITS || value@ == NEGATIVE_ZERO_BITS,
            checked matches Ok(probability) ==> probability.amount() == double::units(value@)
                && probability@ == held_bits(value@),
            checked matches Err(error) ==> error == ProbabilityError(value),
    {
        let bits: u64 = value.to_bits();
        proof {
            double::lemma_unit_interval_bits(bits);
            double::lemma_same_number(bits, held_bits(bits));
        }
        if bits <= ONE_BITS {
            Ok(Probability { bits })
        } else if bits == NEGATIVE_ZERO_BITS {
            Ok(Probability { bits: 0 })
        } else {
            Err(ProbabilityError(value))
        }
    }

    /// The number, which lies in `[0, 1]`.
    pub fn value(self) -> (value: Double)
        ensures
            value@ == self@,
            double::in_unit_interval(value@),
    {
        proof {
            use_type_invariant(&self);
            double::lemma_unit_interval_bits(self@);
        }
        Double::from_bits(self.bits)
    }

    /// Semantic predicate: `self` reaches or exceeds `threshold`.
    pub fn at_least(self, threshold: Probability) -> (reached: bool)
        ensures
            reached <==> self.amount() >= threshold.amount(),
            reached <==> self@ >= threshold@,
    {
        proof {
            use_type_invariant(&self);
            use_type_invariant(&threshold);
            lemma_amounts(self, threshold);
        }
        self.bits >= threshold.bits
    }
}

proof fn lemma_amounts(a: Probability, b: Probability)
    requires
        a.bounded(),
        b.bounded(),
    ensures
        a.amount() >= b.amount() <==> a.bits >= b.bits,
        a.amount() == b.amount() <==> a.bits == b.bits,
{
    double::lemma_bits_order(a.bits, b.bits);
}

impl Replica for Probability {
    fn replica(&self) -> (copy: Probability) {
        *self
    }
}

impl PartialEq for Probability {
    fn eq(&self, other: &Probability) -> (equal: bool) {
        proof {
            use_type_invariant(self);
            use_type_invariant(other);
            lemma_amounts(*self, *other);
        }
        self.bits == other.bits
    }
}

impl vstd::std_specs::cmp::PartialEqSpecImpl for Probability {
    open spec fn obeys_eq_spec() -> bool {
        true
    }

    open spec fn eq_spec(&self, other: &Probability) -> bool {
        self.amount() == other.amount()
    }
}

impl PartialOrd for Probability {
    fn partial_cmp(&self, other: &Probability) -> (order: Option<Ordering>) {
        proof {
            use_type_invariant(self);
            use_type_invariant(other);
            lemma_amounts(*self, *other);
        }
        if self.bits < other.bits {
            Some(Ordering::Less)
        } else if self.bits == other.bits {
            Some(Ordering::Equal)
        } else {
            Some(Ordering::Greater)
        }
    }
}

impl vstd::std_specs::cmp::PartialOrdSpecImpl for Probability {
    open spec fn obeys_partial_cmp_spec() -> bool {
        true
    }

    open spec fn partial_cmp_spec(&self, other: &Probability) -> Option<Ordering> {
        if self.amount() < other.amount() {
            Some(Ordering::Less)
        } else if self.amount() == other.amount() {
            Some(Ordering::Equal)
        } else {
            Some(Ordering::Greater)
        }
    }
}

/// Law: the order, the equality and the threshold test of probabilities agree
/// with each other, and with the order of the numbers: two probabilities rank
/// the same exactly where they are equal, and one reaches the other exactly
/// where it does not rank below it.
pub proof fn law_order_agrees_with_equality(a: Probability, b: Probability)
    ensures
        a.partial_cmp_spec(&b) == Some(Ordering::Equal) <==> a.eq_spec(&b),
        a.partial_cmp_spec(&b) != Some(Ordering::Less) <==> a.amount() >= b.amount(),
        a.partial_cmp_spec(&b) == Some(Ordering::Less) <==> b.partial_cmp_spec(&a) == Some(
            Ordering::Greater,
        ),
{
}

/// Law: what is no probability is shown as it is, with what was expected.
pub proof fn law_a_probability_error_shows_the_number(shown: Seq<char>)
    ensures
        probability_error_text(shown) == shown
            + " is not a probability: expected a number in [0, 1]"@,
{
}

/// Law: holding a number as a probability changes its bits only where it is
/// `-0.0`, and never the number.
pub proof fn law_a_held_number_is_the_same_number(bits: u64)
    ensures
        double::units(held_bits(bits)) == double::units(bits),
        bits != 0x8000_0000_0000_0000 ==> held_bits(bits) == bits,
        held_bits(0x8000_0000_0000_0000) == 0,
{
    double::lemma_same_number(bits, held_bits(bits));
}

} // verus!
