//! The prime field of order 17: canonical residues and their arithmetic.

use vstd::prelude::*;
use vstd::arithmetic::power::pow;

verus! {

/// The order of the field, a prime.
pub const MODULUS: u64 = 17;

/// A generator of the multiplicative group of the field.
pub const GENERATOR: u64 = 3;

/// The residue of an integer: the one member of `[0, MODULUS)` congruent to it.
pub open spec fn reduce(x: int) -> int {
    x % (MODULUS as int)
}

/// The configuration of the field: its modulus and the generator chosen for
/// its multiplicative group.
#[derive(Clone, Copy, Debug, PartialEq, Eq)]
pub struct FpConfigMont;

impl FpConfigMont {
    /// The order of the field.
    pub fn modulus() -> (p: u64)
        ensures
            p == MODULUS,
    {
        MODULUS
    }

    /// The generator of the multiplicative group, as a field element.
    pub fn generator() -> (g: Fp)
        ensures
            g@ == GENERATOR,
    {
        Fp { value: GENERATOR }
    }
}

/// An element of the field, held as its canonical residue.
#[derive(Clone, Copy, Debug, PartialEq, Eq, Structural)]
pub struct Fp {
    value: u64,
}

impl View for Fp {
    type V = int;

    /// The residue that the element stands for.
    closed spec fn view(&self) -> int {
        self.value as int
    }
}

impl Fp {
    #[verifier::type_invariant]
    spec fn canonical(self) -> bool {
        self.value < MODULUS
    }

    /// The element that an integer denotes. Any `u64` is accepted and reduced.
    pub fn new(x: u64) -> (r: Fp)
        ensures
            r@ == reduce(x as int),
            0 <= r@ < MODULUS,
    {
        Fp { value: x % MODULUS }
    }

    /// The element that a signed integer denotes: a negative one denotes the
    /// additive inverse of its magnitude.
    pub fn from_i64(x: i64) -> (r: Fp)
        ensures
            r@ == reduce(x as int),
            0 <= r@ < MODULUS,
    {
        if x >= 0 {
            Fp::new(x as u64)
        } else {
            let magnitude: u64 = ((-(x + 1)) as u64) + 1;
            let r: Fp = Fp::new(magnitude).neg();
            r
        }
    }

    /// The additive identity.
    pub fn zero() -> (r: Fp)
        ensures
            r@ == 0,
    {
        Fp { value: 0 }
    }

    /// The multiplicative identity.
    pub fn one() -> (r: Fp)
        ensures
            r@ == 1,
    {
        Fp { value: 1 }
    }

    /// The canonical residue, always below the modulus.
    pub fn value(&self) -> (v: u64)
        ensures
            v == self@,
            v < MODULUS,
            reduce(self@) == self@,
    {
        proof {
            use_type_invariant(self);
        }
        self.value
    }

    /// The sum in the field.
    pub fn add(self, rhs: Fp) -> (r: Fp)
        ensures
            r@ == reduce(self@ + rhs@),
    {
        proof {
            use_type_invariant(self);
            use_type_invariant(rhs);
        }
        Fp { value: (self.value + rhs.value) % MODULUS }
    }

    /// The difference in the field.
    pub fn sub(self, rhs: Fp) -> (r: Fp)
        ensures
            r@ == reduce(self@ - rhs@),
    {
        proof {
            use_type_invariant(self);
            use_type_invariant(rhs);
        }
        Fp { value: (self.value + (MODULUS - rhs.value)) % MODULUS }
    }

    /// The additive inverse.
    pub fn neg(self) -> (r: Fp)
        ensures
            r@ == reduce(-self@),
    {
        proof {
            use_type_invariant(self);
        }
        Fp { value: (MODULUS - self.value) % MODULUS }
    }

    /// The product in the field.
    pub fn mul(self, rhs: Fp) -> (r: Fp)
        ensures
            r@ == reduce(self@ * rhs@),
    {
        proof {
            use_type_invariant(self);
            use_type_invariant(rhs);
            assert(self.value * rhs.value <= 16 * 16) by (nonlinear_arith)
                requires
                    self.value <= 16,
                    rhs.value <= 16,
            ;
        }
        Fp { value: (self.value * rhs.value) % MODULUS }
    }

    /// Whether two elements are the same residue class.
    pub fn equals(&self, other: &Fp) -> (same: bool)
        ensures
            same == (self@ == other@),
            same == (*self == *other),
    {
        self.value == other.value
    }
}

/// The exponent at which the generator gives the nonzero residue `x`.
pub open spec fn discrete_log(x: int) -> nat {
    if x == 1 {
        0
    } else if x == 3 {
        1
    } else if x == 9 {
        2
    } else if x == 10 {
        3
    } else if x == 13 {
        4
    } else if x == 5 {
        5
    } else if x == 15 {
        6
    } else if x == 11 {
        7
    } else if x == 16 {
        8
    } else if x == 14 {
        9
    } else if x == 8 {
        10
    } else if x == 7 {
        11
    } else if x == 4 {
        12
    } else if x == 12 {
        13
    } else if x == 2 {
        14
    } else {
        15
    }
}

/// The generator generates the multiplicative group: every nonzero residue
/// is one of its first 16 powers.
pub proof fn lemma_generator_generates(x: int)
    requires
        0 < x < MODULUS,
    ensures
        discrete_log(x) < MODULUS - 1,
        reduce(pow(GENERATOR as int, discrete_log(x))) == x,
{
    reveal_with_fuel(pow, 17);
}

/// Reducing a residue again changes nothing.
pub proof fn lemma_reduce_idempotent(x: int)
    ensures
        reduce(reduce(x)) == reduce(x),
        0 <= reduce(x) < MODULUS,
{
}

/// Integers with one residue are congruent, and being congruent is an
/// equivalence: reflexive, symmetric and transitive.
pub proof fn lemma_congruence_is_equivalence(x: int, y: int, z: int)
    ensures
        reduce(x) == reduce(x),
        reduce(x) == reduce(y) ==> reduce(y) == reduce(x),
        reduce(x) == reduce(y) && reduce(y) == reduce(z) ==> reduce(x) == reduce(z),
{
}

/// Equality of field elements is an equivalence, and it is equality of the
/// residues they stand for.
pub proof fn lemma_equality_is_equivalence(a: Fp, b: Fp, c: Fp)
    ensures
        a == a,
        a == b ==> b == a,
        a == b && b == c ==> a == c,
        (a == b) == (a@ == b@),
{
}

} // verus!
