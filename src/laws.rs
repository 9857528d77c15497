use vstd::prelude::*;
use crate::coordinate::{
    expand_of, flat_of, lemma_expand_flat, lemma_expand_valid, lemma_flat_expand, size_of,
    valid_index, valid_shape,
};
use crate::general_type::Number;
use crate::tensor::{add_all, is_contraction, laid_out, mul_all};

verus! {

/// Every flat offset in `[0, size)` expands to a valid shaped index, and
/// flattening that index gives the offset back.
pub proof fn flat_round_trip(shape: Seq<usize>, flat: int)
    requires
        valid_shape(shape),
        0 <= flat < size_of(shape),
    ensures
        valid_index(shape, expand_of(shape, flat)),
        flat_of(shape, expand_of(shape, flat)) == flat,
{
    lemma_expand_valid(shape, flat);
    lemma_flat_expand(shape, flat);
}

/// Every valid shaped index flattens to an offset that expands back to it.
pub proof fn shaped_round_trip(shape: Seq<usize>, index: Seq<usize>)
    requires
        valid_index(shape, index),
    ensures
        expand_of(shape, flat_of(shape, index)) == index,
{
    lemma_expand_flat(shape, index);
}

/// Adding `zero` to every element, or multiplying every element by `one`,
/// leaves the elements unchanged.
pub proof fn scaler_identities<N: Number>(values: Seq<N>)
    ensures
        add_all(values, N::zero()) == values,
        mul_all(values, N::one()) == values,
{
    assert forall|i: int| 0 <= i < values.len() implies #[trigger] add_all(values, N::zero())[i]
        == values[i] by {
        N::lemma_add_zero(values[i]);
    }
    assert forall|i: int| 0 <= i < values.len() implies #[trigger] mul_all(values, N::one())[i]
        == values[i] by {
        N::lemma_mul_one(values[i]);
    }
    assert(add_all(values, N::zero()) =~= values);
    assert(mul_all(values, N::one()) =~= values);
}

/// Two results that both meet the contraction contract over `d`
/// dimensions of the same operands, each holding one element per index of
/// its shape, are the same tensor: the contraction is fully determined.
pub proof fn contraction_determined<N: Number>(
    ad: Seq<usize>,
    av: Seq<N>,
    d: int,
    bd: Seq<usize>,
    bv: Seq<N>,
    rd1: Seq<usize>,
    rv1: Seq<N>,
    rd2: Seq<usize>,
    rv2: Seq<N>,
)
    requires
        0 <= d <= ad.len(),
        d <= bd.len(),
        laid_out(rd1, rv1),
        laid_out(rd2, rv2),
        is_contraction(ad, av, d, bd, bv, rd1, rv1),
        is_contraction(ad, av, d, bd, bv, rd2, rv2),
    ensures
        rd1 == rd2,
        rv1 == rv2,
{
    let left = ad.subrange(0, ad.len() - d);
    let right = bd.subrange(d, bd.len() as int);
    let whole = left + right;
    assert forall|p: int| 0 <= p < rv1.len() implies rv1[p] == rv2[p] by {
        lemma_expand_valid(whole, p);
        lemma_flat_expand(whole, p);
        let e = expand_of(whole, p);
        let l = e.subrange(0, left.len() as int);
        let r = e.subrange(left.len() as int, e.len() as int);
        assert(l + r =~= e);
        assert(valid_index(left, l));
        assert forall|i: int| 0 <= i < right.len() implies r[i] < right[i] by {
            assert(r[i] == e[i + left.len()]);
            assert(whole[i + left.len()] == right[i]);
        }
        assert(rv1[flat_of(left + right, l + r)] == rv1[p]);
        assert(rv2[flat_of(left + right, l + r)] == rv2[p]);
    }
    assert(rv1 =~= rv2);
}

} // verus!
