use vstd::prelude::*;

verus! {

/// Number of elements of a shape: the product of its dimensions (1 when empty).
pub open spec fn size_of(shape: Seq<usize>) -> int
    decreases shape.len(),
{
    if shape.len() == 0 {
        1
    } else {
        shape[0] * size_of(shape.drop_first())
    }
}

/// Every dimension is positive.
pub open spec fn valid_shape(shape: Seq<usize>) -> bool {
    forall|i: int| 0 <= i < shape.len() ==> shape[i] > 0
}

/// One coordinate per dimension, each below its dimension's size.
pub open spec fn valid_index(shape: Seq<usize>, index: Seq<usize>) -> bool {
    &&& index.len() == shape.len()
    &&& forall|i: int| 0 <= i < shape.len() ==> index[i] < shape[i]
}

/// Flat offset of a shaped index: dimension 0 varies fastest, so the weight
/// of dimension `i` is the product of the dimensions before it.
pub open spec fn flat_of(shape: Seq<usize>, index: Seq<usize>) -> int
    decreases shape.len(),
{
    if shape.len() == 0 {
        0
    } else {
        index[0] + shape[0] * flat_of(shape.drop_first(), index.drop_first())
    }
}

/// Shaped index of a flat offset: the inverse of `flat_of`.
pub open spec fn expand_of(shape: Seq<usize>, flat: int) -> Seq<usize>
    decreases shape.len(),
{
    if shape.len() == 0 {
        Seq::empty()
    } else {
        seq![(flat % (shape[0] as int)) as usize] + expand_of(
            shape.drop_first(),
            flat / (shape[0] as int),
        )
    }
}

pub proof fn lemma_size_pos(shape: Seq<usize>)
    requires
        valid_shape(shape),
    ensures
        size_of(shape) >= 1,
    decreases shape.len(),
{
    if shape.len() > 0 {
        lemma_size_pos(shape.drop_first());
        let p = size_of(shape.drop_first());
        let s0 = shape[0] as int;
        assert(s0 * p >= 1) by (nonlinear_arith)
            requires
                s0 >= 1,
                p >= 1,
        ;
    }
}

pub proof fn lemma_size_concat(a: Seq<usize>, b: Seq<usize>)
    ensures
        size_of(a + b) == size_of(a) * size_of(b),
    decreases a.len(),
{
    if a.len() == 0 {
        assert(a + b =~= b);
    } else {
        assert((a + b).drop_first() =~= a.drop_first() + b);
        lemma_size_concat(a.drop_first(), b);
        vstd::arithmetic::mul::lemma_mul_is_associative(
            a[0] as int,
            size_of(a.drop_first()),
            size_of(b),
        );
    }
}

/// A valid index has a flat offset in `[0, size)`.
pub proof fn lemma_flat_bound(shape: Seq<usize>, index: Seq<usize>)
    requires
        valid_index(shape, index),
    ensures
        0 <= flat_of(shape, index) < size_of(shape),
    decreases shape.len(),
{
    if shape.len() > 0 {
        lemma_flat_bound(shape.drop_first(), index.drop_first());
        let f = flat_of(shape.drop_first(), index.drop_first());
        let p = size_of(shape.drop_first());
        let s0 = shape[0] as int;
        let i0 = index[0] as int;
        assert(0 <= i0 + s0 * f < s0 * p) by (nonlinear_arith)
            requires
                0 <= f < p,
                0 <= i0 < s0,
        ;
    }
}

/// Expanding an offset in `[0, size)` gives a valid index.
pub proof fn lemma_expand_valid(shape: Seq<usize>, flat: int)
    requires
        valid_shape(shape),
        0 <= flat < size_of(shape),
    ensures
        valid_index(shape, expand_of(shape, flat)),
    decreases shape.len(),
{
    if shape.len() > 0 {
        let s0 = shape[0] as int;
        let p = size_of(shape.drop_first());
        let q = flat / s0;
        assert(0 <= q < p && 0 <= flat % s0 < s0) by (nonlinear_arith)
            requires
                s0 > 0,
                0 <= flat < s0 * p,
                q == flat / s0,
        ;
        lemma_expand_valid(shape.drop_first(), q);
        let e = expand_of(shape, flat);
        assert(e.drop_first() =~= expand_of(shape.drop_first(), q));
        assert forall|i: int| 0 <= i < shape.len() implies e[i] < shape[i] by {
            if i > 0 {
                assert(e[i] == e.drop_first()[i - 1]);
            }
        }
    }
}

/// Flattening undoes expanding.
pub proof fn lemma_flat_expand(shape: Seq<usize>, flat: int)
    requires
        valid_shape(shape),
        0 <= flat < size_of(shape),
    ensures
        flat_of(shape, expand_of(shape, flat)) == flat,
    decreases shape.len(),
{
    if shape.len() > 0 {
        let s0 = shape[0] as int;
        let p = size_of(shape.drop_first());
        let q = flat / s0;
        assert(0 <= q < p && 0 <= flat % s0 < s0 && flat == flat % s0 + s0 * q)
            by (nonlinear_arith)
            requires
                s0 > 0,
                0 <= flat < s0 * p,
                q == flat / s0,
        ;
        lemma_flat_expand(shape.drop_first(), q);
        let e = expand_of(shape, flat);
        assert(e.drop_first() =~= expand_of(shape.drop_first(), q));
    }
}

/// Expanding undoes flattening.
pub proof fn lemma_expand_flat(shape: Seq<usize>, index: Seq<usize>)
    requires
        valid_index(shape, index),
    ensures
        expand_of(shape, flat_of(shape, index)) == index,
    decreases shape.len(),
{
    if shape.len() > 0 {
        let s0 = shape[0] as int;
        let i0 = index[0] as int;
        let f = flat_of(shape.drop_first(), index.drop_first());
        lemma_flat_bound(shape.drop_first(), index.drop_first());
        vstd::arithmetic::div_mod::lemma_fundamental_div_mod_converse(i0 + s0 * f, s0, f, i0);
        lemma_expand_flat(shape.drop_first(), index.drop_first());
        let e = expand_of(shape, flat_of(shape, index));
        assert(e =~= index);
    } else {
        assert(index =~= Seq::<usize>::empty());
    }
}

/// The offset of a concatenated index splits into the offsets of its parts.
pub proof fn lemma_flat_concat(a: Seq<usize>, b: Seq<usize>, x: Seq<usize>, y: Seq<usize>)
    requires
        x.len() == a.len(),
        y.len() == b.len(),
    ensures
        flat_of(a + b, x + y) == flat_of(a, x) + size_of(a) * flat_of(b, y),
    decreases a.len(),
{
    if a.len() == 0 {
        assert(a + b =~= b);
        assert(x + y =~= y);
    } else {
        assert((a + b).drop_first() =~= a.drop_first() + b);
        assert((x + y).drop_first() =~= x.drop_first() + y);
        lemma_flat_concat(a.drop_first(), b, x.drop_first(), y);
        let s0 = a[0] as int;
        let p = size_of(a.drop_first());
        let fx = flat_of(a.drop_first(), x.drop_first());
        let fy = flat_of(b, y);
        assert(s0 * (fx + p * fy) == s0 * fx + (s0 * p) * fy) by (nonlinear_arith);
    }
}


/// Splitting a shape off at `i` relates the sizes of the pieces.
proof fn lemma_size_split(shape: Seq<usize>, i: int)
    requires
        valid_shape(shape),
        0 <= i <= shape.len(),
    ensures
        size_of(shape.subrange(i, shape.len() as int)) <= size_of(shape),
        size_of(shape.subrange(0, i)) <= size_of(shape),
        size_of(shape) == size_of(shape.subrange(0, i)) * size_of(
            shape.subrange(i, shape.len() as int),
        ),
{
    let a = shape.subrange(0, i);
    let b = shape.subrange(i, shape.len() as int);
    assert(shape =~= a + b);
    lemma_size_concat(a, b);
    lemma_size_pos(a);
    lemma_size_pos(b);
    let pa = size_of(a);
    let pb = size_of(b);
    assert(pb <= pa * pb && pa <= pa * pb) by (nonlinear_arith)
        requires
            pa >= 1,
            pb >= 1,
    ;
}

/// The flat offset of `index` within `shape`.
pub fn flatten_in(shape: &Vec<usize>, index: &Vec<usize>) -> (r: usize)
    requires
        valid_index(shape@, index@),
        size_of(shape@) <= usize::MAX,
    ensures
        r == flat_of(shape@, index@),
{
    let n = shape.len();
    let mut res: usize = 0;
    let mut i: usize = n;
    proof {
        assert(shape@.subrange(n as int, n as int) =~= Seq::<usize>::empty());
        assert(index@.subrange(n as int, n as int) =~= Seq::<usize>::empty());
    }
    while i > 0
        invariant
            n == shape.len(),
            valid_index(shape@, index@),
            size_of(shape@) <= usize::MAX,
            0 <= i <= n,
            res == flat_of(shape@.subrange(i as int, n as int), index@.subrange(i as int, n as int)),
        decreases i,
    {
        let ghost sub = shape@.subrange(i - 1, n as int);
        let ghost isub = index@.subrange(i - 1, n as int);
        proof {
            assert(sub.drop_first() =~= shape@.subrange(i as int, n as int));
            assert(isub.drop_first() =~= index@.subrange(i as int, n as int));
            assert(valid_shape(shape@));
            lemma_size_split(shape@, i - 1);
            assert(valid_index(sub, isub));
            lemma_flat_bound(sub, isub);
        }
        res = index[i - 1] + shape[i - 1] * res;
        i = i - 1;
    }
    proof {
        assert(shape@.subrange(0, n as int) =~= shape@);
        assert(index@.subrange(0, n as int) =~= index@);
    }
    res
}

/// The shaped index of offset `flat` within `shape`.
pub fn expand_in(shape: &Vec<usize>, flat: usize) -> (r: Vec<usize>)
    requires
        valid_shape(shape@),
        flat < size_of(shape@),
    ensures
        r@ == expand_of(shape@, flat as int),
{
    let n = shape.len();
    let mut res: Vec<usize> = Vec::new();
    let mut buf: usize = flat;
    let mut i: usize = 0;
    proof {
        assert(shape@.subrange(0, n as int) =~= shape@);
        assert(res@ + expand_of(shape@, flat as int) =~= expand_of(shape@, flat as int));
    }
    while i < n
        invariant
            n == shape.len(),
            valid_shape(shape@),
            0 <= i <= n,
            res@ + expand_of(shape@.subrange(i as int, n as int), buf as int) == expand_of(
                shape@,
                flat as int,
            ),
        decreases n - i,
    {
        let ghost sub = shape@.subrange(i as int, n as int);
        let ghost old_res = res@;
        let ghost old_buf = buf;
        proof {
            assert(sub.drop_first() =~= shape@.subrange(i + 1, n as int));
        }
        res.push(buf % shape[i]);
        buf = buf / shape[i];
        i = i + 1;
        proof {
            assert(res@ + expand_of(shape@.subrange(i as int, n as int), buf as int) =~= old_res
                + expand_of(sub, old_buf as int));
        }
    }
    proof {
        assert(shape@.subrange(n as int, n as int) =~= Seq::<usize>::empty());
        assert(res@ + Seq::<usize>::empty() =~= res@);
    }
    res
}


/// The number of elements of `shape`, or `None` where it exceeds `usize::MAX`.
pub fn checked_size(shape: &Vec<usize>) -> (r: Option<usize>)
    requires
        valid_shape(shape@),
    ensures
        size_of(shape@) <= usize::MAX ==> r == Some(size_of(shape@) as usize),
        size_of(shape@) > usize::MAX ==> r is None,
{
    let n = shape.len();
    let mut acc: usize = 1;
    let mut i: usize = 0;
    proof {
        assert(shape@.subrange(0, 0) =~= Seq::<usize>::empty());
    }
    while i < n
        invariant
            n == shape.len(),
            valid_shape(shape@),
            0 <= i <= n,
            acc == size_of(shape@.subrange(0, i as int)),
        decreases n - i,
    {
        let ghost pre = shape@.subrange(0, i as int);
        let ghost one = seq![shape@[i as int]];
        proof {
            assert(shape@.subrange(0, i + 1) =~= pre + one);
            lemma_size_concat(pre, one);
            assert(one.drop_first() =~= Seq::<usize>::empty());
            assert(size_of(one.drop_first()) == 1);
            assert(size_of(one) == shape@[i as int]);
            lemma_size_split(shape@, i + 1);
        }
        match acc.checked_mul(shape[i]) {
            Some(v) => {
                acc = v;
            },
            None => {
                return None;
            },
        }
        i = i + 1;
    }
    proof {
        assert(shape@.subrange(0, n as int) =~= shape@);
    }
    Some(acc)
}

} // verus!
