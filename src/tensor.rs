use vstd::prelude::*;
use crate::coordinate::{
    checked_size, expand_in, expand_of, flat_of, flatten_in, lemma_expand_flat, lemma_expand_valid,
    lemma_flat_bound, lemma_flat_concat, lemma_flat_expand, lemma_size_concat, lemma_size_pos, size_of, valid_index, valid_shape,
};
use crate::error::TensorError;
use crate::general_type::Number;
use crate::permutation::{odometer_follows_flat_order, tops, tuple_repeative_permutation_e, zeros};

verus! {

pub type Shape = Vec<usize>;

pub type ShapedIndex = Vec<usize>;

pub type Data<T> = Vec<T>;

/// A dense tensor: a shape and a buffer holding one element per shaped
/// index, laid out with dimension 0 varying fastest.
#[derive(Debug, Clone)]
pub struct Tensor<N: Number> {
    shape: Shape,
    data: Data<N>,
}

/// Every element of `s` plus `c`.
pub open spec fn add_all<N: Number>(s: Seq<N>, c: N) -> Seq<N> {
    Seq::new(s.len(), |i: int| s[i].plus_spec(c))
}

/// Every element of `s` times `c`.
pub open spec fn mul_all<N: Number>(s: Seq<N>, c: N) -> Seq<N> {
    Seq::new(s.len(), |i: int| s[i].times_spec(c))
}

/// Pairwise sums of `a` and `b`.
pub open spec fn add_pairs<N: Number>(a: Seq<N>, b: Seq<N>) -> Seq<N> {
    Seq::new(a.len(), |i: int| a[i].plus_spec(b[i]))
}

/// Pairwise products of `a` and `b`.
pub open spec fn mul_pairs<N: Number>(a: Seq<N>, b: Seq<N>) -> Seq<N> {
    Seq::new(a.len(), |i: int| a[i].times_spec(b[i]))
}

/// Sum of `s` from `zero`, adding in order.
pub open spec fn sum_of<N: Number>(s: Seq<N>) -> N
    decreases s.len(),
{
    if s.len() == 0 {
        N::zero()
    } else {
        sum_of(s.drop_last()).plus_spec(s.last())
    }
}

/// Product of `s` from `one`, multiplying in order.
pub open spec fn product_of<N: Number>(s: Seq<N>) -> N
    decreases s.len(),
{
    if s.len() == 0 {
        N::one()
    } else {
        product_of(s.drop_last()).times_spec(s.last())
    }
}

/// `values` holds one element per shaped index of the valid shape `dims`,
/// whose size fits in `usize`.
pub open spec fn laid_out<N>(dims: Seq<usize>, values: Seq<N>) -> bool {
    &&& valid_shape(dims)
    &&& values.len() == size_of(dims)
    &&& size_of(dims) <= usize::MAX
}

/// Validation of shaped and flat indices against a tensor.
pub trait IndedxConsistencyConfirmation {
    /// The shape.
    spec fn dims(&self) -> Seq<usize>;

    /// The shape is valid and the buffer holds exactly one element per index.
    spec fn well_formed(&self) -> bool;

    fn check_shaped_index(&self, index: &Vec<usize>) -> (r: bool)
        ensures
            r == valid_index(self.dims(), index@),
    ;

    fn check_flat_index(&self, index: usize) -> (r: bool)
        requires
            self.well_formed(),
        ensures
            r == (index < size_of(self.dims())),
    ;
}

/// Conversion between shaped and flat indices.
pub trait IndexConversion: IndedxConsistencyConfirmation {
    fn flatten(&self, shaped_index: &Vec<usize>) -> (r: Result<usize, TensorError>)
        requires
            self.well_formed(),
        ensures
            shaped_index@.len() != self.dims().len() ==> r == Err::<usize, TensorError>(
                TensorError::RankMismatch,
            ),
            shaped_index@.len() == self.dims().len() && !valid_index(self.dims(), shaped_index@)
                ==> r == Err::<usize, TensorError>(TensorError::IndexOutOfBounds),
            valid_index(self.dims(), shaped_index@) ==> r is Ok && r->Ok_0 == flat_of(
                self.dims(),
                shaped_index@,
            ) && r->Ok_0 < size_of(self.dims()) && expand_of(self.dims(), r->Ok_0 as int)
                == shaped_index@,
    ;

    fn shape(&self, flat_index: usize) -> (r: Result<Vec<usize>, TensorError>)
        requires
            self.well_formed(),
        ensures
            flat_index >= size_of(self.dims()) ==> r == Err::<Vec<usize>, TensorError>(
                TensorError::IndexOutOfBounds,
            ),
            flat_index < size_of(self.dims()) ==> r is Ok && r->Ok_0@ == expand_of(
                self.dims(),
                flat_index as int,
            ) && valid_index(self.dims(), r->Ok_0@) && flat_of(self.dims(), r->Ok_0@)
                == flat_index,
    ;
}

/// Access to single elements by flat index.
pub trait ElementalOperation<N: Number>: IndedxConsistencyConfirmation {
    /// The stored elements, in flat order.
    spec fn values(&self) -> Seq<N>;

    /// A well-formed tensor has a valid shape that fits in `usize`, and
    /// holds one element per shaped index.
    proof fn lemma_well_formed(&self)
        requires
            self.well_formed(),
        ensures
            laid_out(self.dims(), self.values()),
    ;

    fn get_value(&self, flat_index: usize) -> (r: &N)
        requires
            flat_index < self.values().len(),
        ensures
            *r == self.values()[flat_index as int],
    ;

    fn set_value(&mut self, flat_index: usize, value: N)
        requires
            flat_index < old(self).values().len(),
        ensures
            final(self).values() == old(self).values().update(flat_index as int, value),
            final(self).dims() == old(self).dims(),
            final(self).well_formed() == old(self).well_formed(),
    ;
}

impl<N: Number> IndedxConsistencyConfirmation for Tensor<N> {
    closed spec fn dims(&self) -> Seq<usize> {
        self.shape@
    }

    closed spec fn well_formed(&self) -> bool {
        &&& valid_shape(self.shape@)
        &&& self.data@.len() == size_of(self.shape@)
        &&& size_of(self.shape@) <= usize::MAX
    }

    fn check_shaped_index(&self, index: &Vec<usize>) -> (r: bool) {
        if self.shape.len() != index.len() {
            return false;
        }
        let mut i: usize = 0;
        while i < self.shape.len()
            invariant
                self.shape.len() == index.len(),
                0 <= i <= self.shape.len(),
                forall|j: int| 0 <= j < i ==> index@[j] < self.shape@[j],
            decreases self.shape.len() - i,
        {
            if self.shape[i] <= index[i] {
                return false;
            }
            i = i + 1;
        }
        true
    }

    fn check_flat_index(&self, index: usize) -> (r: bool) {
        index < self.data.len()
    }
}

impl<N: Number> IndexConversion for Tensor<N> {
    fn flatten(&self, shaped_index: &Vec<usize>) -> (r: Result<usize, TensorError>) {
        if shaped_index.len() != self.shape.len() {
            return Err(TensorError::RankMismatch);
        }
        if !self.check_shaped_index(shaped_index) {
            return Err(TensorError::IndexOutOfBounds);
        }
        proof {
            lemma_flat_bound(self.shape@, shaped_index@);
            lemma_expand_flat(self.shape@, shaped_index@);
        }
        Ok(flatten_in(&self.shape, shaped_index))
    }

    fn shape(&self, flat_index: usize) -> (r: Result<Vec<usize>, TensorError>) {
        if !self.check_flat_index(flat_index) {
            return Err(TensorError::IndexOutOfBounds);
        }
        proof {
            lemma_expand_valid(self.shape@, flat_index as int);
            lemma_flat_expand(self.shape@, flat_index as int);
        }
        Ok(expand_in(&self.shape, flat_index))
    }
}

impl<N: Number> ElementalOperation<N> for Tensor<N> {
    closed spec fn values(&self) -> Seq<N> {
        self.data@
    }

    proof fn lemma_well_formed(&self) {
    }

    fn get_value(&self, flat_index: usize) -> (r: &N) {
        &self.data[flat_index]
    }

    fn set_value(&mut self, flat_index: usize, value: N) {
        self.data.set(flat_index, value);
    }
}


/// The error that a contraction over `d` dimensions of operands shaped
/// `a` and `b` reports, if any.
pub open spec fn contraction_error(a: Seq<usize>, d: int, b: Seq<usize>) -> Option<TensorError> {
    if d > a.len() || d > b.len() || a.subrange(a.len() - d, a.len() as int) != b.subrange(0, d) {
        Some(TensorError::ContractionShapeMismatch)
    } else if size_of(a.subrange(0, a.len() - d) + b.subrange(d, b.len() as int)) > usize::MAX {
        Some(TensorError::InvalidShape)
    } else {
        None
    }
}

/// One term of a contraction: the left element at `l ++ k` times the right
/// element at `k ++ r`, where `k` is the `j`-th index of the contracted shape.
pub open spec fn contraction_term<N: Number>(
    a: Seq<N>,
    b: Seq<N>,
    left: Seq<usize>,
    mid: Seq<usize>,
    right: Seq<usize>,
    l: Seq<usize>,
    r: Seq<usize>,
    j: int,
) -> N {
    let k = expand_of(mid, j);
    a[flat_of(left + mid, l + k)].times_spec(b[flat_of(mid + right, k + r)])
}

/// Sum of the first `count` contraction terms, in enumeration order.
pub open spec fn contraction_sum<N: Number>(
    a: Seq<N>,
    b: Seq<N>,
    left: Seq<usize>,
    mid: Seq<usize>,
    right: Seq<usize>,
    l: Seq<usize>,
    r: Seq<usize>,
    count: int,
) -> N
    decreases count,
{
    if count <= 0 {
        N::zero()
    } else {
        contraction_sum(a, b, left, mid, right, l, r, count - 1).plus_spec(
            contraction_term(a, b, left, mid, right, l, r, count - 1),
        )
    }
}

/// `(rd, rv)` is the contraction over `d` dimensions of `(ad, av)` with `(bd, bv)`:
/// its shape is the free dimensions of both, and each element sums the
/// products along the contracted dimensions.
pub open spec fn is_contraction<N: Number>(
    ad: Seq<usize>,
    av: Seq<N>,
    d: int,
    bd: Seq<usize>,
    bv: Seq<N>,
    rd: Seq<usize>,
    rv: Seq<N>,
) -> bool {
    let left = ad.subrange(0, ad.len() - d);
    let mid = bd.subrange(0, d);
    let right = bd.subrange(d, bd.len() as int);
    &&& rd == left + right
    &&& forall|l: Seq<usize>, r: Seq<usize>|
        valid_index(left, l) && valid_index(right, r) ==> #[trigger] rv[flat_of(left + right, l + r)]
            == contraction_sum(av, bv, left, mid, right, l, r, size_of(mid))
}

/// Sum of `a[fl + nl * j] * b[j + nk * fr]` over `j < count`.
spec fn flat_dot<N: Number>(a: Seq<N>, b: Seq<N>, nl: int, nk: int, fl: int, fr: int, count: int) -> N
    decreases count,
{
    if count <= 0 {
        N::zero()
    } else {
        flat_dot(a, b, nl, nk, fl, fr, count - 1).plus_spec(
            a[fl + nl * (count - 1)].times_spec(b[(count - 1) + nk * fr]),
        )
    }
}

/// Elementwise arithmetic and contraction, each consuming the receiver.
pub trait MethodChain<N: Number>: IndexConversion + ElementalOperation<N> + Sized {
    fn scaler_add(self, operand: N) -> (r: Self)
        requires
            self.well_formed(),
        ensures
            r.well_formed(),
            laid_out(r.dims(), r.values()),
            r.dims() == self.dims(),
            r.values() == add_all(self.values(), operand),
    ;

    fn scaler_mul(self, operand: N) -> (r: Self)
        requires
            self.well_formed(),
        ensures
            r.well_formed(),
            laid_out(r.dims(), r.values()),
            r.dims() == self.dims(),
            r.values() == mul_all(self.values(), operand),
    ;

    fn inner(self, shape_degeneration: usize, operand: &Self) -> (r: Result<Self, TensorError>)
        requires
            self.well_formed(),
            operand.well_formed(),
        ensures
            match contraction_error(self.dims(), shape_degeneration as int, operand.dims()) {
                Some(e) => r is Err && r->Err_0 == e,
                None => r is Ok && r->Ok_0.well_formed() && laid_out(r->Ok_0.dims(), r->Ok_0.values()) && is_contraction(
                    self.dims(),
                    self.values(),
                    shape_degeneration as int,
                    operand.dims(),
                    operand.values(),
                    r->Ok_0.dims(),
                    r->Ok_0.values(),
                ),
            },
    ;

    fn marge(self, operand: &Self) -> (r: Result<Self, TensorError>)
        requires
            self.well_formed(),
            operand.well_formed(),
        ensures
            match contraction_error(self.dims(), operand.dims().len() as int, operand.dims()) {
                Some(e) => r is Err && r->Err_0 == e,
                None => r is Ok && r->Ok_0.well_formed() && laid_out(r->Ok_0.dims(), r->Ok_0.values()) && is_contraction(
                    self.dims(),
                    self.values(),
                    operand.dims().len() as int,
                    operand.dims(),
                    operand.values(),
                    r->Ok_0.dims(),
                    r->Ok_0.values(),
                ),
            },
    ;

    fn tensor_add(self, operand: &Self) -> (r: Result<Self, TensorError>)
        requires
            self.well_formed(),
            operand.well_formed(),
        ensures
            self.dims() != operand.dims() ==> r is Err && r->Err_0 == TensorError::ShapeMismatch,
            self.dims() == operand.dims() ==> r is Ok && r->Ok_0.well_formed() && laid_out(r->Ok_0.dims(), r->Ok_0.values()) && r->Ok_0.dims()
                == self.dims() && r->Ok_0.values() == add_pairs(self.values(), operand.values()),
    ;

    fn tensor_mul(self, operand: &Self) -> (r: Result<Self, TensorError>)
        requires
            self.well_formed(),
            operand.well_formed(),
        ensures
            self.dims() != operand.dims() ==> r is Err && r->Err_0 == TensorError::ShapeMismatch,
            self.dims() == operand.dims() ==> r is Ok && r->Ok_0.well_formed() && laid_out(r->Ok_0.dims(), r->Ok_0.values()) && r->Ok_0.dims()
                == self.dims() && r->Ok_0.values() == mul_pairs(self.values(), operand.values()),
    ;
}


/// The shape of the inclusive range `[start, end]`.
pub open spec fn part_shape(start: Seq<usize>, end: Seq<usize>) -> Seq<usize> {
    Seq::new(start.len(), |i: int| (end[i] - start[i] + 1) as usize)
}

/// `index` moved by `offset`, coordinate by coordinate.
pub open spec fn shifted(index: Seq<usize>, offset: Seq<usize>) -> Seq<usize> {
    Seq::new(index.len(), |i: int| (index[i] + offset[i]) as usize)
}

/// `index` moved back by `offset`, coordinate by coordinate.
pub open spec fn unshifted(index: Seq<usize>, offset: Seq<usize>) -> Seq<usize> {
    Seq::new(index.len(), |i: int| (index[i] - offset[i]) as usize)
}

/// The error that extracting `[start, end]` from a tensor shaped `dims` reports, if any.
pub open spec fn part_error(dims: Seq<usize>, start: Seq<usize>, end: Seq<usize>) -> Option<TensorError> {
    if start.len() != dims.len() || end.len() != dims.len() {
        Some(TensorError::RankMismatch)
    } else if !valid_index(dims, start) || !valid_index(dims, end) {
        Some(TensorError::IndexOutOfBounds)
    } else if exists|i: int| 0 <= i < dims.len() && start[i] > end[i] {
        Some(TensorError::InvalidShape)
    } else {
        None
    }
}

/// `index` lies in the block of shape `block` placed at `at`.
pub open spec fn in_block(index: Seq<usize>, at: Seq<usize>, block: Seq<usize>) -> bool {
    forall|i: int| 0 <= i < index.len() ==> at[i] <= #[trigger] index[i] < at[i] + block[i]
}

/// The elements of a tensor shaped `dims` holding `vals` after the block
/// shaped `bdims` holding `bvals` is written over it at `at`.
pub open spec fn pasted<N: Number>(
    dims: Seq<usize>,
    vals: Seq<N>,
    at: Seq<usize>,
    bdims: Seq<usize>,
    bvals: Seq<N>,
) -> Seq<N> {
    Seq::new(
        vals.len(),
        |p: int|
            {
                let s = expand_of(dims, p);
                if in_block(s, at, bdims) {
                    bvals[flat_of(bdims, unshifted(s, at))]
                } else {
                    vals[p]
                }
            },
    )
}

/// The error that pasting a block shaped `bdims` at `at` into a tensor shaped `dims` reports, if any.
pub open spec fn paste_error(dims: Seq<usize>, at: Seq<usize>, bdims: Seq<usize>) -> Option<TensorError> {
    if at.len() != dims.len() || bdims.len() != dims.len() {
        Some(TensorError::RankMismatch)
    } else if exists|i: int| 0 <= i < dims.len() && at[i] + bdims[i] > dims[i] {
        Some(TensorError::IndexOutOfBounds)
    } else {
        None
    }
}

/// Extraction of an axis-aligned block.
pub trait GetPart<N: Number>: IndexConversion + ElementalOperation<N> + Sized {
    /// The block of elements whose shaped indices lie in `[start, end]`.
    fn get_part(&self, start: &ShapedIndex, end: &ShapedIndex) -> (r: Result<Self, TensorError>)
        requires
            self.well_formed(),
        ensures
            match part_error(self.dims(), start@, end@) {
                Some(e) => r is Err && r->Err_0 == e,
                None => r is Ok && r->Ok_0.well_formed() && laid_out(r->Ok_0.dims(), r->Ok_0.values()) && r->Ok_0.dims() == part_shape(
                    start@,
                    end@,
                ) && forall|idx: Seq<usize>|
                    valid_index(part_shape(start@, end@), idx) ==> #[trigger] r->Ok_0.values()[flat_of(
                        part_shape(start@, end@),
                        idx,
                    )] == self.values()[flat_of(self.dims(), shifted(idx, start@))],
            },
    ;
}

/// Insertion of an axis-aligned block.
pub trait Paste<N: Number>: IndexConversion + ElementalOperation<N> + Sized {
    /// Overwrites the block at `at` with the elements of `board`.
    fn paste(self, at: ShapedIndex, board: &Self) -> (r: Result<Self, TensorError>)
        requires
            self.well_formed(),
            board.well_formed(),
        ensures
            match paste_error(self.dims(), at@, board.dims()) {
                Some(e) => r is Err && r->Err_0 == e,
                None => r is Ok && r->Ok_0.well_formed() && laid_out(r->Ok_0.dims(), r->Ok_0.values()) && r->Ok_0.dims() == self.dims()
                    && r->Ok_0.values() == pasted(
                    self.dims(),
                    self.values(),
                    at@,
                    board.dims(),
                    board.values(),
                ),
            },
    ;
}

/// Reductions over all elements.
pub trait GrossCalculation<N: Number>: ElementalOperation<N> {
    /// The sum of all elements, starting from `zero`.
    fn gross_sum(&self) -> (r: N)
        ensures
            r == sum_of(self.values()),
    ;

    /// The product of all elements, starting from `one`.
    fn gross_product(&self) -> (r: N)
        ensures
            r == product_of(self.values()),
    ;
}

/// Whether two shapes are equal.
fn same_shape(a: &Vec<usize>, b: &Vec<usize>) -> (r: bool)
    ensures
        r == (a@ == b@),
{
    if a.len() != b.len() {
        return false;
    }
    let mut i: usize = 0;
    while i < a.len()
        invariant
            a.len() == b.len(),
            0 <= i <= a.len(),
            forall|j: int| 0 <= j < i ==> a@[j] == b@[j],
        decreases a.len() - i,
    {
        if a[i] != b[i] {
            return false;
        }
        i = i + 1;
    }
    proof {
        assert(a@ =~= b@);
    }
    true
}

/// The entries of `v` in `[lo, hi)`.
fn slice_of(v: &Vec<usize>, lo: usize, hi: usize) -> (r: Vec<usize>)
    requires
        lo <= hi <= v.len(),
    ensures
        r@ == v@.subrange(lo as int, hi as int),
{
    let mut r: Vec<usize> = Vec::new();
    let mut i: usize = lo;
    while i < hi
        invariant
            lo <= i <= hi <= v.len(),
            r@ == v@.subrange(lo as int, i as int),
        decreases hi - i,
    {
        r.push(v[i]);
        i = i + 1;
        proof {
            assert(r@ =~= v@.subrange(lo as int, i as int));
        }
    }
    r
}

/// The entries of `a` followed by those of `b`.
fn concat_of(a: &Vec<usize>, b: &Vec<usize>) -> (r: Vec<usize>)
    ensures
        r@ == a@ + b@,
{
    let mut r: Vec<usize> = Vec::new();
    let mut i: usize = 0;
    while i < a.len()
        invariant
            0 <= i <= a.len(),
            r@ == a@.subrange(0, i as int),
        decreases a.len() - i,
    {
        r.push(a[i]);
        i = i + 1;
        proof {
            assert(r@ =~= a@.subrange(0, i as int));
        }
    }
    let mut i: usize = 0;
    while i < b.len()
        invariant
            0 <= i <= b.len(),
            r@ == a@ + b@.subrange(0, i as int),
        decreases b.len() - i,
    {
        r.push(b[i]);
        i = i + 1;
        proof {
            assert(r@ =~= a@ + b@.subrange(0, i as int));
        }
    }
    proof {
        assert(a@ =~= a@.subrange(0, a@.len() as int));
        assert(b@ =~= b@.subrange(0, b@.len() as int));
    }
    r
}

/// The contraction sum over shaped indices equals the sum over flat offsets.
proof fn lemma_contraction_flat<N: Number>(
    a: Seq<N>,
    b: Seq<N>,
    left: Seq<usize>,
    mid: Seq<usize>,
    right: Seq<usize>,
    l: Seq<usize>,
    r: Seq<usize>,
    count: int,
)
    requires
        valid_shape(mid),
        valid_index(left, l),
        valid_index(right, r),
        count <= size_of(mid),
    ensures
        contraction_sum(a, b, left, mid, right, l, r, count) == flat_dot(
            a,
            b,
            size_of(left),
            size_of(mid),
            flat_of(left, l),
            flat_of(right, r),
            count,
        ),
    decreases count,
{
    if count > 0 {
        lemma_contraction_flat(a, b, left, mid, right, l, r, count - 1);
        let j = count - 1;
        let k = expand_of(mid, j);
        lemma_expand_valid(mid, j);
        lemma_flat_expand(mid, j);
        lemma_flat_concat(left, mid, l, k);
        lemma_flat_concat(mid, right, k, r);
    }
}

impl<N: Number> MethodChain<N> for Tensor<N> {
    fn scaler_add(self, operand: N) -> (r: Self) {
        let mut t = self;
        let ghost orig = t.data@;
        let ghost dims = t.shape@;
        let mut i: usize = 0;
        while i < t.data.len()
            invariant
                t.shape@ == dims,
                orig.len() == t.data@.len(),
                0 <= i <= t.data.len(),
                forall|j: int| 0 <= j < i ==> t.data@[j] == orig[j].plus_spec(operand),
                forall|j: int| i <= j < t.data@.len() ==> t.data@[j] == orig[j],
            decreases t.data.len() - i,
        {
            let v = t.data[i].plus(operand);
            t.data.set(i, v);
            i = i + 1;
        }
        proof {
            assert(t.data@ =~= add_all(orig, operand));
        }
        t
    }

    fn scaler_mul(self, operand: N) -> (r: Self) {
        let mut t = self;
        let ghost orig = t.data@;
        let ghost dims = t.shape@;
        let mut i: usize = 0;
        while i < t.data.len()
            invariant
                t.shape@ == dims,
                orig.len() == t.data@.len(),
                0 <= i <= t.data.len(),
                forall|j: int| 0 <= j < i ==> t.data@[j] == orig[j].times_spec(operand),
                forall|j: int| i <= j < t.data@.len() ==> t.data@[j] == orig[j],
            decreases t.data.len() - i,
        {
            let v = t.data[i].times(operand);
            t.data.set(i, v);
            i = i + 1;
        }
        proof {
            assert(t.data@ =~= mul_all(orig, operand));
        }
        t
    }

    fn tensor_add(self, operand: &Self) -> (r: Result<Self, TensorError>) {
        if !same_shape(&self.shape, &operand.shape) {
            return Err(TensorError::ShapeMismatch);
        }
        let mut t = self;
        let ghost orig = t.data@;
        let ghost dims = t.shape@;
        let mut i: usize = 0;
        while i < t.data.len()
            invariant
                t.shape@ == dims,
                orig.len() == t.data@.len(),
                orig.len() == operand.data@.len(),
                0 <= i <= t.data.len(),
                forall|j: int| 0 <= j < i ==> t.data@[j] == orig[j].plus_spec(operand.data@[j]),
                forall|j: int| i <= j < t.data@.len() ==> t.data@[j] == orig[j],
            decreases t.data.len() - i,
        {
            let v = t.data[i].plus(operand.data[i]);
            t.data.set(i, v);
            i = i + 1;
        }
        proof {
            assert(t.data@ =~= add_pairs(orig, operand.data@));
        }
        Ok(t)
    }

    fn tensor_mul(self, operand: &Self) -> (r: Result<Self, TensorError>) {
        if !same_shape(&self.shape, &operand.shape) {
            return Err(TensorError::ShapeMismatch);
        }
        let mut t = self;
        let ghost orig = t.data@;
        let ghost dims = t.shape@;
        let mut i: usize = 0;
        while i < t.data.len()
            invariant
                t.shape@ == dims,
                orig.len() == t.data@.len(),
                orig.len() == operand.data@.len(),
                0 <= i <= t.data.len(),
                forall|j: int| 0 <= j < i ==> t.data@[j] == orig[j].times_spec(operand.data@[j]),
                forall|j: int| i <= j < t.data@.len() ==> t.data@[j] == orig[j],
            decreases t.data.len() - i,
        {
            let v = t.data[i].times(operand.data[i]);
            t.data.set(i, v);
            i = i + 1;
        }
        proof {
            assert(t.data@ =~= mul_pairs(orig, operand.data@));
        }
        Ok(t)
    }

    fn inner(self, shape_degeneration: usize, operand: &Self) -> (r: Result<Self, TensorError>) {
        let d = shape_degeneration;
        let n = self.shape.len();
        let m = operand.shape.len();
        if d > n || d > m {
            return Err(TensorError::ContractionShapeMismatch);
        }
        let mid = slice_of(&operand.shape, 0, d);
        let tail = slice_of(&self.shape, n - d, n);
        if !same_shape(&tail, &mid) {
            return Err(TensorError::ContractionShapeMismatch);
        }
        let left = slice_of(&self.shape, 0, n - d);
        let right = slice_of(&operand.shape, d, m);
        let result_shape = concat_of(&left, &right);
        proof {
            assert(self.shape@ =~= left@ + mid@);
            assert(operand.shape@ =~= mid@ + right@);
            assert(valid_shape(left@));
            assert(valid_shape(mid@));
            assert(valid_shape(right@));
            assert(valid_shape(result_shape@));
            lemma_size_concat(left@, mid@);
            lemma_size_concat(mid@, right@);
            lemma_size_concat(left@, right@);
            lemma_size_pos(left@);
            lemma_size_pos(mid@);
            lemma_size_pos(right@);
            let (sl, sk, sr) = (size_of(left@), size_of(mid@), size_of(right@));
            assert(sl <= sl * sk && sk <= sl * sk && sk <= sk * sr && sr <= sk * sr)
                by (nonlinear_arith)
                requires
                    sl >= 1,
                    sk >= 1,
                    sr >= 1,
            ;
        }
        let total = match checked_size(&result_shape) {
            Some(v) => v,
            None => {
                return Err(TensorError::InvalidShape);
            },
        };
        let nl = match checked_size(&left) {
            Some(v) => v,
            None => {
                return Err(TensorError::InvalidShape);
            },
        };
        let nk = match checked_size(&mid) {
            Some(v) => v,
            None => {
                return Err(TensorError::InvalidShape);
            },
        };
        let nr = match checked_size(&right) {
            Some(v) => v,
            None => {
                return Err(TensorError::InvalidShape);
            },
        };
        let ghost av = self.data@;
        let ghost bv = operand.data@;
        let mut data: Vec<N> = Vec::new();
        let mut fr: usize = 0;
        while fr < nr
            invariant
                av == self.data@,
                bv == operand.data@,
                av.len() == nl * nk,
                bv.len() == nk * nr,
                nl * nk <= usize::MAX,
                nk * nr <= usize::MAX,
                total == nl * nr,
                nl >= 1,
                0 <= fr <= nr,
                data@.len() == nl * fr,
                forall|p: int|
                    0 <= p < data@.len() ==> #[trigger] data@[p] == flat_dot(
                        av,
                        bv,
                        nl as int,
                        nk as int,
                        p % (nl as int),
                        p / (nl as int),
                        nk as int,
                    ),
            decreases nr - fr,
        {
            let mut fl: usize = 0;
            while fl < nl
                invariant
                    av == self.data@,
                    bv == operand.data@,
                    av.len() == nl * nk,
                    bv.len() == nk * nr,
                    nl * nk <= usize::MAX,
                    nk * nr <= usize::MAX,
                    total == nl * nr,
                    nl >= 1,
                    0 <= fr < nr,
                    0 <= fl <= nl,
                    data@.len() == nl * fr + fl,
                    forall|p: int|
                        0 <= p < data@.len() ==> #[trigger] data@[p] == flat_dot(
                            av,
                            bv,
                            nl as int,
                            nk as int,
                            p % (nl as int),
                            p / (nl as int),
                            nk as int,
                        ),
                decreases nl - fl,
            {
                let mut acc = N::zero_value();
                let mut j: usize = 0;
                while j < nk
                    invariant
                        av == self.data@,
                        bv == operand.data@,
                        av.len() == nl * nk,
                        bv.len() == nk * nr,
                        nl * nk <= usize::MAX,
                        nk * nr <= usize::MAX,
                        0 <= fr < nr,
                        0 <= fl < nl,
                        0 <= j <= nk,
                        acc == flat_dot(av, bv, nl as int, nk as int, fl as int, fr as int, j as int),
                    decreases nk - j,
                {
                    proof {
                        assert(fl + nl * j < nl * nk) by (nonlinear_arith)
                            requires
                                fl < nl,
                                j < nk,
                        ;
                        assert(j + nk * fr < nk * nr) by (nonlinear_arith)
                            requires
                                j < nk,
                                fr < nr,
                        ;
                    }
                    let x = self.data[fl + nl * j];
                    let y = operand.data[j + nk * fr];
                    acc = acc.plus(x.times(y));
                    j = j + 1;
                }
                proof {
                    let p: int = (nl as int) * (fr as int) + (fl as int);
                    assert(p == (fr as int) * (nl as int) + (fl as int)) by (nonlinear_arith)
                        requires
                            p == (nl as int) * (fr as int) + (fl as int),
                    ;
                    vstd::arithmetic::div_mod::lemma_fundamental_div_mod_converse(
                        p,
                        nl as int,
                        fr as int,
                        fl as int,
                    );
                }
                data.push(acc);
                fl = fl + 1;
            }
            proof {
                assert(nl * fr + nl == nl * (fr + 1)) by (nonlinear_arith);
            }
            fr = fr + 1;
        }
        proof {
            let ghost rv = data@;
            assert forall|l: Seq<usize>, r: Seq<usize>|
                valid_index(left@, l) && valid_index(right@, r) implies #[trigger] rv[flat_of(
                left@ + right@,
                l + r,
            )] == contraction_sum(av, bv, left@, mid@, right@, l, r, size_of(mid@)) by {
                lemma_flat_concat(left@, right@, l, r);
                lemma_flat_bound(left@, l);
                lemma_flat_bound(right@, r);
                lemma_contraction_flat(av, bv, left@, mid@, right@, l, r, size_of(mid@));
                let fl = flat_of(left@, l);
                let fr = flat_of(right@, r);
                let p = fl + nl * fr;
                assert(p < nl * nr && p == fr * nl + fl) by (nonlinear_arith)
                    requires
                        p == fl + nl * fr,
                        0 <= fl < nl,
                        0 <= fr < nr,
                ;
                vstd::arithmetic::div_mod::lemma_fundamental_div_mod_converse(p, nl as int, fr, fl);
            }
            assert(self.shape@.subrange(0, n - d) == left@);
            assert(operand.shape@.subrange(0, d as int) == mid@);
            assert(operand.shape@.subrange(d as int, m as int) == right@);
            assert(self.shape@.subrange(n - d, n as int) == tail@);
        }
        Ok(Tensor { shape: result_shape, data })
    }

    fn marge(self, operand: &Self) -> (r: Result<Self, TensorError>) {
        self.inner(operand.shape.len(), operand)
    }
}


/// Whether some coordinate of `start` exceeds that of `end`.
fn any_reversed(start: &Vec<usize>, end: &Vec<usize>) -> (r: bool)
    requires
        start.len() == end.len(),
    ensures
        r == exists|i: int| 0 <= i < start@.len() && start@[i] > end@[i],
{
    let mut i: usize = 0;
    while i < start.len()
        invariant
            start.len() == end.len(),
            0 <= i <= start.len(),
            forall|j: int| 0 <= j < i ==> start@[j] <= end@[j],
        decreases start.len() - i,
    {
        if start[i] > end[i] {
            return true;
        }
        i = i + 1;
    }
    false
}

/// `size_of` is monotone in each dimension.
proof fn lemma_size_mono(a: Seq<usize>, b: Seq<usize>)
    requires
        a.len() == b.len(),
        valid_shape(a),
        forall|i: int| 0 <= i < a.len() ==> a[i] <= b[i],
    ensures
        size_of(a) <= size_of(b),
    decreases a.len(),
{
    if a.len() > 0 {
        lemma_size_mono(a.drop_first(), b.drop_first());
        lemma_size_pos(a.drop_first());
        let (x, y, p, q) = (a[0] as int, b[0] as int, size_of(a.drop_first()), size_of(b.drop_first()));
        assert(x * p <= y * q) by (nonlinear_arith)
            requires
                0 <= x <= y,
                1 <= p <= q,
        ;
    }
}

impl<N: Number> GetPart<N> for Tensor<N> {
    fn get_part(&self, start: &ShapedIndex, end: &ShapedIndex) -> (r: Result<Self, TensorError>) {
        let n = self.shape.len();
        if start.len() != n || end.len() != n {
            return Err(TensorError::RankMismatch);
        }
        if !self.check_shaped_index(start) || !self.check_shaped_index(end) {
            return Err(TensorError::IndexOutOfBounds);
        }
        if any_reversed(start, end) {
            return Err(TensorError::InvalidShape);
        }
        let mut new_shape: Vec<usize> = Vec::new();
        let mut i: usize = 0;
        while i < n
            invariant
                n == self.shape.len(),
                start.len() == n,
                end.len() == n,
                valid_index(self.shape@, end@),
                forall|j: int| 0 <= j < n ==> start@[j] <= end@[j],
                0 <= i <= n,
                new_shape@ == part_shape(start@, end@).subrange(0, i as int),
            decreases n - i,
        {
            new_shape.push(end[i] - start[i] + 1);
            i = i + 1;
            proof {
                assert(new_shape@ =~= part_shape(start@, end@).subrange(0, i as int));
            }
        }
        proof {
            assert(new_shape@ =~= part_shape(start@, end@));
            assert(valid_shape(new_shape@));
            lemma_size_mono(new_shape@, self.shape@);
            lemma_size_pos(new_shape@);
        }
        let size = match checked_size(&new_shape) {
            Some(v) => v,
            None => {
                return Err(TensorError::InvalidShape);
            },
        };
        let ghost part = new_shape@;
        let mut it = tuple_repeative_permutation_e(new_shape.clone());
        proof {
            lemma_size_pos(part);
            odometer_follows_flat_order(part, 0);
            assert(it.lower() =~= zeros(n as nat));
            assert(it.upper() =~= tops(part));
        }
        let mut data: Vec<N> = Vec::new();
        let mut f: usize = 0;
        loop
            invariant
                self.well_formed(),
                n == self.shape.len(),
                start.len() == n,
                valid_index(self.shape@, end@),
                forall|j: int| 0 <= j < n ==> start@[j] <= end@[j],
                part == part_shape(start@, end@),
                new_shape@ == part,
                valid_shape(part),
                size == size_of(part),
                it.well_formed(),
                it.lower() == zeros(n as nat),
                it.upper() == tops(part),
                f < size <==> !it.done(),
                !it.done() ==> it.position() == expand_of(part, f as int),
                0 <= f <= size,
                data@.len() == f,
                forall|p: int|
                    0 <= p < f ==> #[trigger] data@[p] == self.data@[flat_of(
                        self.shape@,
                        shifted(expand_of(part, p), start@),
                    )],
            ensures
                f == size,
                data@.len() == f,
                forall|p: int|
                    0 <= p < f ==> #[trigger] data@[p] == self.data@[flat_of(
                        self.shape@,
                        shifted(expand_of(part, p), start@),
                    )],
            decreases size - f,
        {
            let idx = match it.next() {
                Some(v) => v,
                None => {
                    break ;
                },
            };
            proof {
                lemma_expand_valid(part, f as int);
                odometer_follows_flat_order(part, f as int);
            }
            let mut src: Vec<usize> = Vec::new();
            let mut k: usize = 0;
            while k < n
                invariant
                    n == self.shape.len(),
                    start.len() == n,
                    idx@.len() == n,
                    valid_index(self.shape@, end@),
                    forall|j: int| 0 <= j < n ==> start@[j] <= end@[j],
                    part == part_shape(start@, end@),
                    valid_index(part, idx@),
                    0 <= k <= n,
                    src@ == shifted(idx@, start@).subrange(0, k as int),
                decreases n - k,
            {
                src.push(idx[k] + start[k]);
                k = k + 1;
                proof {
                    assert(src@ =~= shifted(idx@, start@).subrange(0, k as int));
                }
            }
            proof {
                assert(src@ =~= shifted(idx@, start@));
                assert(valid_index(self.shape@, src@));
                lemma_flat_bound(self.shape@, src@);
            }
            let at = flatten_in(&self.shape, &src);
            data.push(self.data[at]);
            f = f + 1;
        }
        proof {
            assert forall|idx: Seq<usize>| valid_index(part, idx) implies #[trigger] data@[flat_of(
                part,
                idx,
            )] == self.data@[flat_of(self.shape@, shifted(idx, start@))] by {
                lemma_flat_bound(part, idx);
                lemma_expand_flat(part, idx);
            }
        }
        Ok(Tensor { shape: new_shape, data })
    }
}

/// The elements of `vals` after the block holding `bvals` at `at` has been
/// written for its first `count` flat offsets.
spec fn pasted_upto<N: Number>(
    dims: Seq<usize>,
    vals: Seq<N>,
    at: Seq<usize>,
    bdims: Seq<usize>,
    bvals: Seq<N>,
    count: int,
) -> Seq<N> {
    Seq::new(
        vals.len(),
        |q: int|
            {
                let s = expand_of(dims, q);
                if in_block(s, at, bdims) && flat_of(bdims, unshifted(s, at)) < count {
                    bvals[flat_of(bdims, unshifted(s, at))]
                } else {
                    vals[q]
                }
            },
    )
}

impl<N: Number> Paste<N> for Tensor<N> {
    fn paste(self, at: ShapedIndex, board: &Self) -> (r: Result<Self, TensorError>) {
        let n = self.shape.len();
        if at.len() != n || board.shape.len() != n {
            return Err(TensorError::RankMismatch);
        }
        let mut i: usize = 0;
        while i < n
            invariant
                n == self.shape.len(),
                at.len() == n,
                board.shape.len() == n,
                0 <= i <= n,
                forall|j: int| 0 <= j < i ==> at@[j] + board.shape@[j] <= self.shape@[j],
            decreases n - i,
        {
            if at[i] > self.shape[i] || board.shape[i] > self.shape[i] - at[i] {
                return Err(TensorError::IndexOutOfBounds);
            }
            i = i + 1;
        }
        let mut t = self;
        let ghost dims = t.shape@;
        let ghost orig = t.data@;
        let ghost bdims = board.shape@;
        let ghost bvals = board.data@;
        let bsize = board.data.len();
        let mut it = tuple_repeative_permutation_e(board.shape.clone());
        proof {
            lemma_size_pos(bdims);
            odometer_follows_flat_order(bdims, 0);
            assert(it.lower() =~= zeros(n as nat));
            assert(it.upper() =~= tops(bdims));
            assert forall|q: int| 0 <= q < orig.len() implies #[trigger] t.data@[q]
                == pasted_upto(dims, orig, at@, bdims, bvals, 0)[q] by {
                let e = expand_of(dims, q);
                if in_block(e, at@, bdims) {
                    lemma_expand_valid(dims, q);
                    assert(valid_index(bdims, unshifted(e, at@)));
                    lemma_flat_bound(bdims, unshifted(e, at@));
                }
            }
            assert(t.data@ =~= pasted_upto(dims, orig, at@, bdims, bvals, 0));
        }
        let mut f: usize = 0;
        loop
            invariant
                t.well_formed(),
                board.well_formed(),
                t.shape@ == dims,
                orig.len() == t.data@.len(),
                bdims == board.shape@,
                bvals == board.data@,
                n == dims.len(),
                at.len() == n,
                bdims.len() == n,
                forall|j: int| 0 <= j < n ==> at@[j] + bdims[j] <= dims[j],
                bsize == size_of(bdims),
                it.well_formed(),
                it.lower() == zeros(n as nat),
                it.upper() == tops(bdims),
                f < bsize <==> !it.done(),
                !it.done() ==> it.position() == expand_of(bdims, f as int),
                0 <= f <= bsize,
                t.data@ == pasted_upto(dims, orig, at@, bdims, bvals, f as int),
            ensures
                f == bsize,
                t.well_formed(),
                t.shape@ == dims,
                t.data@ == pasted_upto(dims, orig, at@, bdims, bvals, f as int),
            decreases bsize - f,
        {
            let idx = match it.next() {
                Some(v) => v,
                None => {
                    break ;
                },
            };
            proof {
                lemma_expand_valid(bdims, f as int);
                lemma_flat_expand(bdims, f as int);
                odometer_follows_flat_order(bdims, f as int);
            }
            let mut dst: Vec<usize> = Vec::new();
            let mut k: usize = 0;
            while k < n
                invariant
                    n == dims.len(),
                    dims == t.shape@,
                    at.len() == n,
                    bdims.len() == n,
                    forall|j: int| 0 <= j < n ==> at@[j] + bdims[j] <= dims[j],
                    valid_index(bdims, idx@),
                    0 <= k <= n,
                    dst@ == shifted(idx@, at@).subrange(0, k as int),
                decreases n - k,
            {
                dst.push(idx[k] + at[k]);
                k = k + 1;
                proof {
                    assert(dst@ =~= shifted(idx@, at@).subrange(0, k as int));
                }
            }
            let ghost s = shifted(idx@, at@);
            proof {
                assert(dst@ =~= s);
                assert(valid_index(dims, s));
                lemma_flat_bound(dims, s);
                lemma_expand_flat(dims, s);
                assert(unshifted(s, at@) =~= idx@);
            }
            let p = flatten_in(&t.shape, &dst);
            let v = board.data[f];
            let ghost before = t.data@;
            t.data.set(p, v);
            proof {
                let pp = p as int;
                assert forall|q: int| 0 <= q < orig.len() implies #[trigger] t.data@[q]
                    == pasted_upto(dims, orig, at@, bdims, bvals, f + 1)[q] by {
                    let e = expand_of(dims, q);
                    if q != pp && in_block(e, at@, bdims) && flat_of(bdims, unshifted(e, at@))
                        == f {
                        let u = unshifted(e, at@);
                        lemma_expand_valid(dims, q);
                        assert(valid_index(bdims, u));
                        lemma_expand_flat(bdims, u);
                        assert(shifted(u, at@) =~= e);
                        lemma_flat_expand(dims, q);
                    }
                }
                assert(t.data@ =~= pasted_upto(dims, orig, at@, bdims, bvals, f + 1));
            }
            f = f + 1;
        }
        proof {
            assert forall|q: int| 0 <= q < orig.len() implies #[trigger] t.data@[q] == pasted(
                dims,
                orig,
                at@,
                bdims,
                bvals,
            )[q] by {
                let e = expand_of(dims, q);
                if in_block(e, at@, bdims) {
                    let u = unshifted(e, at@);
                    lemma_expand_valid(dims, q);
                    assert(valid_index(bdims, u));
                    lemma_flat_bound(bdims, u);
                }
            }
            assert(t.data@ =~= pasted(dims, orig, at@, bdims, bvals));
        }
        Ok(t)
    }
}

impl<N: Number> GrossCalculation<N> for Tensor<N> {
    fn gross_sum(&self) -> (r: N) {
        let mut acc = N::zero_value();
        let mut i: usize = 0;
        while i < self.data.len()
            invariant
                0 <= i <= self.data.len(),
                acc == sum_of(self.data@.subrange(0, i as int)),
            decreases self.data.len() - i,
        {
            proof {
                assert(self.data@.subrange(0, i + 1).drop_last() =~= self.data@.subrange(0, i as int));
            }
            acc = acc.plus(self.data[i]);
            i = i + 1;
        }
        proof {
            assert(self.data@.subrange(0, self.data@.len() as int) =~= self.data@);
        }
        acc
    }

    fn gross_product(&self) -> (r: N) {
        let mut acc = N::one_value();
        let mut i: usize = 0;
        while i < self.data.len()
            invariant
                0 <= i <= self.data.len(),
                acc == product_of(self.data@.subrange(0, i as int)),
            decreases self.data.len() - i,
        {
            proof {
                assert(self.data@.subrange(0, i + 1).drop_last() =~= self.data@.subrange(0, i as int));
            }
            acc = acc.times(self.data[i]);
            i = i + 1;
        }
        proof {
            assert(self.data@.subrange(0, self.data@.len() as int) =~= self.data@);
        }
        acc
    }
}

impl<N: Number> Tensor<N> {
    /// The shape.
    pub fn get_shape(&self) -> (r: &Shape)
        ensures
            r@ == self.dims(),
    {
        &self.shape
    }

    /// The elements, in flat order.
    pub fn get_data(&self) -> (r: &Data<N>)
        ensures
            r@ == self.values(),
    {
        &self.data
    }
}

/// A tensor with the given shape and elements.
pub fn tensor<N: Number>(shape: Shape, data: Data<N>) -> (r: Result<Tensor<N>, TensorError>)
    ensures
        !valid_shape(shape@) ==> r == Err::<Tensor<N>, TensorError>(TensorError::InvalidShape),
        valid_shape(shape@) && data@.len() != size_of(shape@) ==> r == Err::<
            Tensor<N>,
            TensorError,
        >(TensorError::ShapeMismatch),
        valid_shape(shape@) && data@.len() == size_of(shape@) ==> r is Ok && r->Ok_0.well_formed() && laid_out(r->Ok_0.dims(), r->Ok_0.values())
            && r->Ok_0.dims() == shape@ && r->Ok_0.values() == data@,
{
    let mut i: usize = 0;
    while i < shape.len()
        invariant
            0 <= i <= shape.len(),
            forall|j: int| 0 <= j < i ==> shape@[j] > 0,
        decreases shape.len() - i,
    {
        if shape[i] == 0 {
            return Err(TensorError::InvalidShape);
        }
        i = i + 1;
    }
    proof {
        lemma_size_pos(shape@);
    }
    let n = data.len();
    match checked_size(&shape) {
        Some(size) => {
            if size != n {
                return Err(TensorError::ShapeMismatch);
            }
        },
        None => {
            return Err(TensorError::ShapeMismatch);
        },
    }
    Ok(Tensor { shape, data })
}

/// A tensor of the given shape with every element `zero`.
pub fn zero_tensor<N: Number>(shape: Shape) -> (r: Result<Tensor<N>, TensorError>)
    ensures
        !valid_shape(shape@) || size_of(shape@) > usize::MAX ==> r == Err::<Tensor<N>, TensorError>(
            TensorError::InvalidShape,
        ),
        valid_shape(shape@) && size_of(shape@) <= usize::MAX ==> r is Ok && r->Ok_0.well_formed() && laid_out(r->Ok_0.dims(), r->Ok_0.values())
            && r->Ok_0.dims() == shape@ && r->Ok_0.values() == Seq::new(
            size_of(shape@) as nat,
            |i: int| N::zero(),
        ),
{
    let mut i: usize = 0;
    while i < shape.len()
        invariant
            0 <= i <= shape.len(),
            forall|j: int| 0 <= j < i ==> shape@[j] > 0,
        decreases shape.len() - i,
    {
        if shape[i] == 0 {
            return Err(TensorError::InvalidShape);
        }
        i = i + 1;
    }
    proof {
        lemma_size_pos(shape@);
    }
    let size = match checked_size(&shape) {
        Some(size) => size,
        None => {
            return Err(TensorError::InvalidShape);
        },
    };
    let z = N::zero_value();
    let mut data: Vec<N> = Vec::new();
    let mut k: usize = 0;
    while k < size
        invariant
            0 <= k <= size,
            z == N::zero(),
            data@ == Seq::new(k as nat, |i: int| N::zero()),
        decreases size - k,
    {
        data.push(z);
        k = k + 1;
        proof {
            assert(data@ =~= Seq::new(k as nat, |i: int| N::zero()));
        }
    }
    Ok(Tensor { shape, data })
}

} // verus!
