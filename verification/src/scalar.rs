use vstd::arithmetic::div_mod::{
    lemma_add_mod_noop, lemma_add_mod_noop_right, lemma_mod_add_multiples_vanish,
    lemma_mul_mod_noop_general, lemma_small_mod, lemma_sub_mod_noop,
};
use vstd::arithmetic::mul::{
    lemma_mul_is_associative, lemma_mul_is_distributive_add,
    lemma_mul_is_distributive_add_other_way,
};
use vstd::prelude::*;

verus! {

/// Capability trait: the type has an additive identity.
pub trait Zero: Sized + Copy {
    spec fn zero_spec() -> Self;

    fn zero() -> (r: Self)
        ensures
            r == Self::zero_spec(),
    ;
}

/// Capability trait: the type has a multiplicative identity.
pub trait One: Sized + Copy {
    spec fn one_spec() -> Self;

    fn one() -> (r: Self)
        ensures
            r == Self::one_spec(),
    ;
}

/// Capability trait: the type supports addition with itself.
pub trait AddOp: Sized + Copy {
    spec fn add_spec(self, o: Self) -> Self;

    fn add_val(self, o: Self) -> (r: Self)
        ensures
            r == self.add_spec(o),
    ;
}

/// Capability trait: the type supports subtraction with itself.
pub trait SubOp: Sized + Copy {
    spec fn sub_spec(self, o: Self) -> Self;

    fn sub_val(self, o: Self) -> (r: Self)
        ensures
            r == self.sub_spec(o),
    ;
}

/// Capability trait: the type supports multiplication with itself.
pub trait MulOp: Sized + Copy {
    spec fn mul_spec(self, o: Self) -> Self;

    fn mul_val(self, o: Self) -> (r: Self)
        ensures
            r == self.mul_spec(o),
    ;
}

/// Capability trait: the type decides equality, and its answer agrees
/// with mathematical equality of values.
pub trait EqTest: Sized {
    fn eq_val(&self, o: &Self) -> (r: bool)
        ensures
            r == (self == o),
    ;
}

/// The algebra that the matrix and vector laws rest on: implementors
/// prove that addition is a commutative monoid cancelled by
/// subtraction, and that multiplication is associative, has the unit
/// `one_spec`, absorbs `zero_spec`, and distributes over addition.
pub trait RingLaws: AddOp + SubOp + MulOp + Zero + One {
    proof fn law_add_assoc(a: Self, b: Self, c: Self)
        ensures
            a.add_spec(b).add_spec(c) == a.add_spec(b.add_spec(c)),
    ;

    proof fn law_add_comm(a: Self, b: Self)
        ensures
            a.add_spec(b) == b.add_spec(a),
    ;

    proof fn law_add_zero(a: Self)
        ensures
            a.add_spec(Self::zero_spec()) == a,
    ;

    proof fn law_add_sub_cancel(a: Self, b: Self)
        ensures
            a.add_spec(b).sub_spec(b) == a,
    ;

    proof fn law_mul_assoc(a: Self, b: Self, c: Self)
        ensures
            a.mul_spec(b).mul_spec(c) == a.mul_spec(b.mul_spec(c)),
    ;

    proof fn law_mul_one(a: Self)
        ensures
            a.mul_spec(Self::one_spec()) == a,
            Self::one_spec().mul_spec(a) == a,
    ;

    proof fn law_mul_zero(a: Self)
        ensures
            a.mul_spec(Self::zero_spec()) == Self::zero_spec(),
            Self::zero_spec().mul_spec(a) == Self::zero_spec(),
    ;

    proof fn law_mul_distrib_left(a: Self, b: Self, c: Self)
        ensures
            a.mul_spec(b.add_spec(c)) == a.mul_spec(b).add_spec(a.mul_spec(c)),
    ;

    proof fn law_mul_distrib_right(a: Self, b: Self, c: Self)
        ensures
            a.add_spec(b).mul_spec(c) == a.mul_spec(c).add_spec(b.mul_spec(c)),
    ;
}

impl Zero for u64 {
    open spec fn zero_spec() -> u64 {
        0u64
    }

    fn zero() -> (r: u64)
        ensures
            r == Self::zero_spec(),
    {
        0u64
    }
}

impl One for u64 {
    open spec fn one_spec() -> u64 {
        1u64
    }

    fn one() -> (r: u64)
        ensures
            r == Self::one_spec(),
    {
        1u64
    }
}

impl AddOp for u64 {
    open spec fn add_spec(self, o: u64) -> u64 {
        ((self + o) % 0x1_0000_0000_0000_0000) as u64
    }

    fn add_val(self, o: u64) -> (r: u64)
        ensures
            r == self.add_spec(o),
    {
        let r = self.wrapping_add(o);
        proof {
            if self + o <= u64::MAX {
                lemma_small_mod((self + o) as nat, 0x1_0000_0000_0000_0000nat);
            } else {
                lemma_mod_add_multiples_vanish(
                    self + o - 0x1_0000_0000_0000_0000,
                    0x1_0000_0000_0000_0000,
                );
                lemma_small_mod(
                    (self + o - 0x1_0000_0000_0000_0000) as nat,
                    0x1_0000_0000_0000_0000nat,
                );
            }
        }
        r
    }
}

impl SubOp for u64 {
    open spec fn sub_spec(self, o: u64) -> u64 {
        ((self - o) % 0x1_0000_0000_0000_0000) as u64
    }

    fn sub_val(self, o: u64) -> (r: u64)
        ensures
            r == self.sub_spec(o),
    {
        let r = self.wrapping_sub(o);
        proof {
            if self >= o {
                lemma_small_mod((self - o) as nat, 0x1_0000_0000_0000_0000nat);
            } else {
                lemma_mod_add_multiples_vanish(self - o, 0x1_0000_0000_0000_0000);
                lemma_small_mod(
                    (self - o + 0x1_0000_0000_0000_0000) as nat,
                    0x1_0000_0000_0000_0000nat,
                );
            }
        }
        r
    }
}

impl MulOp for u64 {
    open spec fn mul_spec(self, o: u64) -> u64 {
        ((self * o) % 0x1_0000_0000_0000_0000) as u64
    }

    fn mul_val(self, o: u64) -> (r: u64)
        ensures
            r == self.mul_spec(o),
    {
        self.wrapping_mul(o)
    }
}

impl EqTest for u64 {
    fn eq_val(&self, o: &u64) -> (r: bool)
        ensures
            r == (self == o),
    {
        *self == *o
    }
}

impl RingLaws for u64 {
    proof fn law_add_assoc(a: u64, b: u64, c: u64) {
        lemma_small_mod(c as nat, 0x1_0000_0000_0000_0000nat);
        lemma_add_mod_noop(a + b, c as int, 0x1_0000_0000_0000_0000);
        lemma_add_mod_noop_right(a as int, b + c, 0x1_0000_0000_0000_0000);
    }

    proof fn law_add_comm(a: u64, b: u64) {
    }

    proof fn law_add_zero(a: u64) {
        lemma_small_mod(a as nat, 0x1_0000_0000_0000_0000nat);
    }

    proof fn law_add_sub_cancel(a: u64, b: u64) {
        lemma_small_mod(b as nat, 0x1_0000_0000_0000_0000nat);
        lemma_sub_mod_noop(a + b, b as int, 0x1_0000_0000_0000_0000);
        lemma_small_mod(a as nat, 0x1_0000_0000_0000_0000nat);
    }

    proof fn law_mul_assoc(a: u64, b: u64, c: u64) {
        lemma_mul_mod_noop_general(a * b, c as int, 0x1_0000_0000_0000_0000);
        lemma_mul_mod_noop_general(a as int, b * c, 0x1_0000_0000_0000_0000);
        lemma_mul_is_associative(a as int, b as int, c as int);
    }

    proof fn law_mul_one(a: u64) {
        lemma_small_mod(a as nat, 0x1_0000_0000_0000_0000nat);
    }

    proof fn law_mul_zero(a: u64) {
        lemma_small_mod(0nat, 0x1_0000_0000_0000_0000nat);
    }

    proof fn law_mul_distrib_left(a: u64, b: u64, c: u64) {
        lemma_mul_mod_noop_general(a as int, b + c, 0x1_0000_0000_0000_0000);
        lemma_mul_is_distributive_add(a as int, b as int, c as int);
        lemma_add_mod_noop(a * b, a * c, 0x1_0000_0000_0000_0000);
    }

    proof fn law_mul_distrib_right(a: u64, b: u64, c: u64) {
        lemma_mul_mod_noop_general(a + b, c as int, 0x1_0000_0000_0000_0000);
        lemma_mul_is_distributive_add_other_way(c as int, a as int, b as int);
        lemma_add_mod_noop(a * c, b * c, 0x1_0000_0000_0000_0000);
    }
}

} // verus!
