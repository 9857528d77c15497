use vstd::prelude::*;

verus! {

/// Scalar types that may populate a tensor.
///
/// Addition and multiplication are total operations described by the spec
/// functions `plus_spec` and `times_spec`; for the machine integers they wrap
/// around on overflow.  `zero` and `one` are their identities.
pub trait Number: Copy + Sized {
    spec fn zero() -> Self;

    spec fn one() -> Self;

    spec fn plus_spec(self, o: Self) -> Self;

    spec fn times_spec(self, o: Self) -> Self;

    fn zero_value() -> (r: Self)
        ensures
            r == Self::zero(),
    ;

    fn one_value() -> (r: Self)
        ensures
            r == Self::one(),
    ;

    fn plus(self, o: Self) -> (r: Self)
        ensures
            r == self.plus_spec(o),
    ;

    fn times(self, o: Self) -> (r: Self)
        ensures
            r == self.times_spec(o),
    ;

    /// `zero` is a right identity of addition.
    proof fn lemma_add_zero(a: Self)
        ensures
            a.plus_spec(Self::zero()) == a,
    ;

    /// `one` is a right identity of multiplication.
    proof fn lemma_mul_one(a: Self)
        ensures
            a.times_spec(Self::one()) == a,
    ;

    /// `zero` is a left identity of addition.
    proof fn lemma_zero_add(a: Self)
        ensures
            Self::zero().plus_spec(a) == a,
    ;

    /// Multiplying by `zero` gives `zero`.
    proof fn lemma_mul_zero(a: Self)
        ensures
            a.times_spec(Self::zero()) == Self::zero(),
    ;
}

/// Scalar types that additionally support negation.
pub trait Signed: Number {
    spec fn negate_spec(self) -> Self;

    fn negate(self) -> (r: Self)
        ensures
            r == self.negate_spec(),
    ;
}

impl Number for i64 {
    open spec fn zero() -> i64 {
        0
    }

    open spec fn one() -> i64 {
        1
    }

    open spec fn plus_spec(self, o: i64) -> i64 {
        self.wrapping_add(o)
    }

    open spec fn times_spec(self, o: i64) -> i64 {
        self.wrapping_mul(o)
    }

    fn zero_value() -> (r: i64) {
        0
    }

    fn one_value() -> (r: i64) {
        1
    }

    fn plus(self, o: i64) -> (r: i64) {
        self.wrapping_add(o)
    }

    fn times(self, o: i64) -> (r: i64) {
        self.wrapping_mul(o)
    }

    proof fn lemma_add_zero(a: i64) {
    }

    proof fn lemma_zero_add(a: i64) {
    }

    proof fn lemma_mul_zero(a: i64) {
    }

    proof fn lemma_mul_one(a: i64) {
    }
}

impl Number for i32 {
    open spec fn zero() -> i32 {
        0
    }

    open spec fn one() -> i32 {
        1
    }

    open spec fn plus_spec(self, o: i32) -> i32 {
        self.wrapping_add(o)
    }

    open spec fn times_spec(self, o: i32) -> i32 {
        self.wrapping_mul(o)
    }

    fn zero_value() -> (r: i32) {
        0
    }

    fn one_value() -> (r: i32) {
        1
    }

    fn plus(self, o: i32) -> (r: i32) {
        self.wrapping_add(o)
    }

    fn times(self, o: i32) -> (r: i32) {
        self.wrapping_mul(o)
    }

    proof fn lemma_add_zero(a: i32) {
    }

    proof fn lemma_zero_add(a: i32) {
    }

    proof fn lemma_mul_zero(a: i32) {
    }

    proof fn lemma_mul_one(a: i32) {
    }
}

impl Number for usize {
    open spec fn zero() -> usize {
        0
    }

    open spec fn one() -> usize {
        1
    }

    open spec fn plus_spec(self, o: usize) -> usize {
        self.wrapping_add(o)
    }

    open spec fn times_spec(self, o: usize) -> usize {
        self.wrapping_mul(o)
    }

    fn zero_value() -> (r: usize) {
        0
    }

    fn one_value() -> (r: usize) {
        1
    }

    fn plus(self, o: usize) -> (r: usize) {
        self.wrapping_add(o)
    }

    fn times(self, o: usize) -> (r: usize) {
        self.wrapping_mul(o)
    }

    proof fn lemma_add_zero(a: usize) {
    }

    proof fn lemma_zero_add(a: usize) {
    }

    proof fn lemma_mul_zero(a: usize) {
    }

    proof fn lemma_mul_one(a: usize) {
        vstd::arithmetic::div_mod::lemma_small_mod(a as nat, (usize::MAX - usize::MIN + 1) as nat);
    }
}

impl Signed for i64 {
    open spec fn negate_spec(self) -> i64 {
        0i64.wrapping_sub(self)
    }

    fn negate(self) -> (r: i64) {
        0i64.wrapping_sub(self)
    }
}

impl Signed for i32 {
    open spec fn negate_spec(self) -> i32 {
        0i32.wrapping_sub(self)
    }

    fn negate(self) -> (r: i32) {
        0i32.wrapping_sub(self)
    }
}

} // verus!
