use vstd::prelude::*;
use crate::coordinate::{expand_of, lemma_expand_valid, lemma_size_pos, size_of, valid_shape};
use crate::tensor::ShapedIndex;

verus! {

/// The index after `cur` when counting with dimension `i` fastest and
/// carrying into later dimensions, each ranging over `[lo[j], hi[j]]`;
/// `None` when every dimension from `i` on wraps around.
pub open spec fn step_from(lo: Seq<usize>, hi: Seq<usize>, cur: Seq<usize>, i: int) -> Option<
    Seq<usize>,
>
    decreases cur.len() - i,
{
    if i < 0 || i >= cur.len() {
        None
    } else if cur[i] < hi[i] {
        Some(cur.update(i, (cur[i] + 1) as usize))
    } else {
        step_from(lo, hi, cur.update(i, lo[i]), i + 1)
    }
}

/// Enumerates every shaped index between two inclusive bounds, dimension 0
/// varying fastest (mixed-radix counting).  With no dimensions it yields the
/// empty index once.
pub struct TupleRepeativePermutation {
    no_less_than: ShapedIndex,
    no_more_than: ShapedIndex,
    current: ShapedIndex,
    finished: bool,
}

impl TupleRepeativePermutation {
    /// Lower bounds.
    pub closed spec fn lower(&self) -> Seq<usize> {
        self.no_less_than@
    }

    /// Upper bounds.
    pub closed spec fn upper(&self) -> Seq<usize> {
        self.no_more_than@
    }

    /// The index that the next call yields, unless `done`.
    pub closed spec fn position(&self) -> Seq<usize> {
        self.current@
    }

    /// Whether every index has been yielded.
    pub closed spec fn done(&self) -> bool {
        self.finished
    }

    /// Until done, the position lies within the bounds, coordinate by coordinate.
    pub open spec fn well_formed(&self) -> bool {
        &&& self.lower().len() == self.upper().len()
        &&& self.position().len() == self.lower().len()
        &&& !self.done() ==> forall|i: int|
            0 <= i < self.lower().len() ==> self.lower()[i] <= #[trigger] self.position()[i]
                <= self.upper()[i]
    }

    /// An enumeration of `[no_less_than, no_more_than]`; empty when some
    /// lower bound exceeds its upper bound.
    pub fn new(no_less_than: ShapedIndex, no_more_than: ShapedIndex) -> (r: Self)
        requires
            no_less_than.len() == no_more_than.len(),
        ensures
            r.well_formed(),
            r.lower() == no_less_than@,
            r.upper() == no_more_than@,
            r.done() == exists|i: int|
                0 <= i < no_less_than@.len() && no_less_than@[i] > no_more_than@[i],
            !r.done() ==> r.position() == no_less_than@,
    {
        let mut empty = false;
        let mut i: usize = 0;
        while i < no_less_than.len()
            invariant
                no_less_than.len() == no_more_than.len(),
                0 <= i <= no_less_than.len(),
                empty == exists|j: int| 0 <= j < i && no_less_than@[j] > no_more_than@[j],
            decreases no_less_than.len() - i,
        {
            if no_less_than[i] > no_more_than[i] {
                empty = true;
            }
            i = i + 1;
        }
        let current = if empty {
            no_more_than.clone()
        } else {
            no_less_than.clone()
        };
        TupleRepeativePermutation { no_less_than, no_more_than, current, finished: empty }
    }

    /// Yields the current index and advances, or `None` once every index
    /// has been yielded.
    pub fn next(&mut self) -> (r: Option<ShapedIndex>)
        requires
            old(self).well_formed(),
        ensures
            final(self).well_formed(),
            final(self).lower() == old(self).lower(),
            final(self).upper() == old(self).upper(),
            old(self).done() ==> r is None && final(self).done(),
            !old(self).done() ==> r is Some && r->Some_0@ == old(self).position() && match step_from(
                old(self).lower(),
                old(self).upper(),
                old(self).position(),
                0,
            ) {
                Some(p) => !final(self).done() && final(self).position() == p,
                None => final(self).done(),
            },
    {
        if self.finished {
            return None;
        }
        let res = self.current.clone();
        let ghost start = self.current@;
        let n = self.current.len();
        let mut i: usize = 0;
        let mut carry = true;
        while carry && i < n
            invariant
                self.well_formed(),
                self.lower() == old(self).lower(),
                self.upper() == old(self).upper(),
                n == self.current.len(),
                !self.finished,
                0 <= i <= n,
                carry ==> step_from(self.lower(), self.upper(), start, 0) == step_from(
                    self.lower(),
                    self.upper(),
                    self.current@,
                    i as int,
                ),
                !carry ==> step_from(self.lower(), self.upper(), start, 0) == Some(self.current@),
            decreases n - i + (if carry {
                1int
            } else {
                0int
            }),
        {
            if self.current[i] < self.no_more_than[i] {
                let v = self.current[i] + 1;
                self.current.set(i, v);
                carry = false;
            } else {
                let v = self.no_less_than[i];
                self.current.set(i, v);
                i = i + 1;
            }
        }
        if carry {
            self.finished = true;
        }
        Some(res)
    }
}

/// The largest coordinate of a dimension of size `s` (0 when `s` is 0).
pub open spec fn dim_top(s: usize) -> usize {
    if s == 0 {
        0
    } else {
        (s - 1) as usize
    }
}

/// An enumeration of every shaped index of a tensor shaped `less_than`:
/// coordinate `i` runs over `[0, less_than[i])`.
pub fn tuple_repeative_permutation_e(less_than: ShapedIndex) -> (r: TupleRepeativePermutation)
    ensures
        r.well_formed(),
        r.lower() == Seq::new(less_than@.len(), |i: int| 0usize),
        r.upper() == Seq::new(less_than@.len(), |i: int| dim_top(less_than@[i])),
        r.done() == exists|i: int| 0 <= i < less_than@.len() && less_than@[i] == 0,
        !r.done() ==> r.position() == r.lower(),
{
    let n = less_than.len();
    let mut lo: Vec<usize> = Vec::new();
    let mut hi: Vec<usize> = Vec::new();
    let mut empty = false;
    let mut i: usize = 0;
    while i < n
        invariant
            n == less_than.len(),
            0 <= i <= n,
            lo@ == Seq::new(i as nat, |j: int| 0usize),
            hi@ == Seq::new(i as nat, |j: int| dim_top(less_than@[j])),
            empty == exists|j: int| 0 <= j < i && less_than@[j] == 0,
        decreases n - i,
    {
        lo.push(0);
        if less_than[i] == 0 {
            empty = true;
            hi.push(0);
        } else {
            hi.push(less_than[i] - 1);
        }
        i = i + 1;
        proof {
            assert(lo@ =~= Seq::new(i as nat, |j: int| 0usize));
            assert(hi@ =~= Seq::new(i as nat, |j: int| dim_top(less_than@[j])));
        }
    }
    let current = lo.clone();
    TupleRepeativePermutation { no_less_than: lo, no_more_than: hi, current, finished: empty }
}

/// Lower bounds of a full enumeration of `n` dimensions.
pub open spec fn zeros(n: nat) -> Seq<usize> {
    Seq::new(n, |i: int| 0usize)
}

/// Upper bounds of a full enumeration of a tensor shaped `shape`.
pub open spec fn tops(shape: Seq<usize>) -> Seq<usize> {
    Seq::new(shape.len(), |i: int| dim_top(shape[i]))
}

/// Counting from position `i + 1` acts on everything after the first
/// coordinate and keeps that coordinate.
proof fn lemma_step_tail(lo: Seq<usize>, hi: Seq<usize>, x: Seq<usize>, i: int)
    requires
        x.len() >= 1,
        lo.len() == x.len(),
        hi.len() == x.len(),
        i >= 0,
    ensures
        step_from(lo, hi, x, i + 1) == match step_from(
            lo.drop_first(),
            hi.drop_first(),
            x.drop_first(),
            i,
        ) {
            Some(p) => Some(seq![x[0]] + p),
            None => None::<Seq<usize>>,
        },
    decreases x.len() - i,
{
    let (lo1, hi1, x1) = (lo.drop_first(), hi.drop_first(), x.drop_first());
    if i + 1 >= x.len() {
    } else if x[i + 1] < hi[i + 1] {
        assert(seq![x[0]] + x1.update(i, (x1[i] + 1) as usize) =~= x.update(
            i + 1,
            (x[i + 1] + 1) as usize,
        ));
    } else {
        let x2 = x.update(i + 1, lo[i + 1]);
        lemma_step_tail(lo, hi, x2, i + 1);
        assert(x2.drop_first() =~= x1.update(i, lo1[i]));
    }
}

/// Counting on from the index of offset `f` of a tensor shaped `shape`
/// gives the index of offset `f + 1`, and ends after the last offset: a full
/// enumeration visits the indices in flat order.  It starts at offset 0.
pub proof fn odometer_follows_flat_order(shape: Seq<usize>, f: int)
    requires
        valid_shape(shape),
        0 <= f < size_of(shape),
    ensures
        expand_of(shape, 0) == zeros(shape.len()),
        step_from(zeros(shape.len()), tops(shape), expand_of(shape, f), 0) == if f + 1 < size_of(
            shape,
        ) {
            Some(expand_of(shape, f + 1))
        } else {
            None::<Seq<usize>>
        },
    decreases shape.len(),
{
    if shape.len() == 0 {
        assert(expand_of(shape, 0) =~= zeros(0));
    } else {
        let rest = shape.drop_first();
        let s0 = shape[0] as int;
        let p = size_of(rest);
        let q = f / s0;
        let r = f % s0;
        vstd::arithmetic::div_mod::lemma_fundamental_div_mod(f, s0);
        assert(0 <= q < p && 0 <= r < s0) by (nonlinear_arith)
            requires
                s0 > 0,
                0 <= f < s0 * p,
                q == f / s0,
                r == f % s0,
                f == s0 * q + r,
        ;
        assert(valid_shape(rest));
        vstd::arithmetic::div_mod::lemma_fundamental_div_mod_converse(0, s0, 0, 0);
        lemma_size_pos(rest);
        lemma_expand_valid(shape, f);
        odometer_follows_flat_order(rest, q);
        assert(expand_of(shape, 0) =~= zeros(shape.len()));
        let lo = zeros(shape.len());
        let hi = tops(shape);
        let cur = expand_of(shape, f);
        if r < s0 - 1 {
            vstd::arithmetic::div_mod::lemma_fundamental_div_mod_converse(f + 1, s0, q, r + 1);
            assert(f + 1 < s0 * p) by (nonlinear_arith)
                requires
                    f + 1 == q * s0 + r + 1,
                    s0 > 0,
                    r + 1 < s0,
                    q + 1 <= p,
            ;
            assert(expand_of(shape, f + 1) =~= cur.update(0, (cur[0] + 1) as usize));
        } else {
            assert(f + 1 == (q + 1) * s0) by (nonlinear_arith)
                requires
                    f == s0 * q + r,
                    r == s0 - 1,
            ;
            vstd::arithmetic::div_mod::lemma_fundamental_div_mod_converse(f + 1, s0, q + 1, 0);
            assert(f + 1 < s0 * p <==> q + 1 < p) by (nonlinear_arith)
                requires
                    f + 1 == (q + 1) * s0,
                    s0 > 0,
            ;
            let c2 = cur.update(0, 0usize);
            lemma_step_tail(lo, hi, c2, 0);
            assert(lo.drop_first() =~= zeros(rest.len()));
            assert(hi.drop_first() =~= tops(rest));
            assert(c2.drop_first() =~= expand_of(rest, q));
            if q + 1 < p {
                assert(seq![c2[0]] + expand_of(rest, q + 1) =~= expand_of(shape, f + 1));
            }
        }
    }
}

} // verus!
