use vstd::prelude::*;
use crate::coordinate::size_of;
use crate::error::TensorError;
use crate::general_type::Signed;
use crate::tensor::{zero_tensor, ElementalOperation, IndedxConsistencyConfirmation, Tensor};

verus! {

/// A linear layer: a weight matrix of shape `[input, output]`, a bias of
/// shape `[output]`, and the last input seen, if any.
pub struct MultipleLinerRegression<F: Signed> {
    input: Option<Tensor<F>>,
    weight: Tensor<F>,
    bias: Tensor<F>,
}

impl<F: Signed> MultipleLinerRegression<F> {
    pub closed spec fn spec_input(&self) -> Option<Tensor<F>> {
        self.input
    }

    pub closed spec fn spec_weight(&self) -> Tensor<F> {
        self.weight
    }

    pub closed spec fn spec_bias(&self) -> Tensor<F> {
        self.bias
    }

    pub fn weight(&self) -> (r: &Tensor<F>)
        ensures
            *r == self.spec_weight(),
    {
        &self.weight
    }

    pub fn bias(&self) -> (r: &Tensor<F>)
        ensures
            *r == self.spec_bias(),
    {
        &self.bias
    }

    pub fn has_input(&self) -> (r: bool)
        ensures
            r == self.spec_input() is Some,
    {
        self.input.is_some()
    }
}

/// A layer mapping `input` features to `output` features with every weight
/// and bias zero and no input seen yet.
pub fn multiple_liner_regression<F: Signed>(input: usize, output: usize) -> (r: Result<
    MultipleLinerRegression<F>,
    TensorError,
>)
    ensures
        input == 0 || output == 0 || input * output > usize::MAX ==> r == Err::<
            MultipleLinerRegression<F>,
            TensorError,
        >(TensorError::InvalidShape),
        input > 0 && output > 0 && input * output <= usize::MAX ==> r is Ok && ({
            let m = r->Ok_0;
            &&& m.spec_input() is None
            &&& m.spec_weight().well_formed()
            &&& m.spec_weight().dims() == seq![input, output]
            &&& m.spec_weight().values() == Seq::new((input * output) as nat, |i: int| F::zero())
            &&& m.spec_bias().well_formed()
            &&& m.spec_bias().dims() == seq![output]
            &&& m.spec_bias().values() == Seq::new(output as nat, |i: int| F::zero())
        }),
{
    let ghost ws = seq![input, output];
    let ghost bs = seq![output];
    proof {
        assert(ws.drop_first() =~= seq![output]);
        assert(bs.drop_first() =~= Seq::<usize>::empty());
        assert(size_of(Seq::<usize>::empty()) == 1);
        assert(size_of(bs) == output);
        assert(size_of(ws) == input * output);
        assert(input > 0 ==> output <= input * output) by (nonlinear_arith);
    }
    let mut wshape: Vec<usize> = Vec::new();
    wshape.push(input);
    wshape.push(output);
    let mut bshape: Vec<usize> = Vec::new();
    bshape.push(output);
    proof {
        assert(wshape@ =~= ws);
        assert(bshape@ =~= bs);
    }
    let weight = match zero_tensor::<F>(wshape) {
        Ok(t) => t,
        Err(e) => {
            return Err(e);
        },
    };
    let bias = match zero_tensor::<F>(bshape) {
        Ok(t) => t,
        Err(e) => {
            return Err(e);
        },
    };
    Ok(MultipleLinerRegression { input: None, weight, bias })
}

} // verus!
