use vstd::prelude::*;
use crate::error::ShapeError;
use crate::shape::{dims_product, lemma_product_pair};
use crate::tensor::{filled, Tensor, TensorView};

verus! {

/// Builds tensors that track gradients from the start.
pub struct Parameter {}

impl Parameter {
    /// Wraps `data`, read in row-major order, as a tensor of extents `dims`
    /// that tracks gradients, with a gradient buffer filled with `zero`.
    /// Fails when the extents do not span exactly `data.len()` elements.
    pub fn new<T: Copy>(dims: &[usize], data: Vec<T>, zero: T) -> (r: Result<
        Tensor<T>,
        ShapeError,
    >)
        ensures
            r is Ok <==> dims_product(dims@) == data@.len(),
            r matches Ok(t) ==> t@ == (TensorView {
                shape: dims@,
                data: data@,
                grad: Some(filled(data@.len(), zero)),
                requires_grad: true,
                parents: Seq::<usize>::empty(),
            }),
            r matches Ok(t) ==> t@.wf(),
            r matches Err(e) ==> e == ShapeError::ElementCount,
    {
        match Tensor::new(dims, data) {
            Ok(t) => {
                let mut t = t;
                t.set_requires_grad(true, zero);
                Ok(t)
            },
            Err(e) => Err(e),
        }
    }
}

/// The parameters of one affine transform: a weight matrix and a bias column.
pub struct Module<T> {
    parameters: Vec<Tensor<T>>,
}

impl<T> View for Module<T> {
    type V = Seq<TensorView<T>>;

    closed spec fn view(&self) -> Seq<TensorView<T>> {
        Seq::new(self.parameters@.len(), |i: int| self.parameters@[i]@)
    }
}

impl<T: Copy> Module<T> {
    /// An affine transform from `fan_in` to `fan_out` features: a weight
    /// parameter of extents `(fan_in, fan_out)` holding `weights`, then a bias
    /// parameter of extents `(fan_out, 1)` holding `bias`. Fails when either
    /// vector has the wrong number of elements.
    pub fn affine(fan_in: usize, fan_out: usize, weights: Vec<T>, bias: Vec<T>, zero: T) -> (r:
        Result<Module<T>, ShapeError>)
        ensures
            r is Ok <==> (weights@.len() == fan_in * fan_out && bias@.len() == fan_out),
            r matches Ok(md) ==> md@ == seq![
                TensorView {
                    shape: seq![fan_in, fan_out],
                    data: weights@,
                    grad: Some(filled(weights@.len(), zero)),
                    requires_grad: true,
                    parents: Seq::<usize>::empty(),
                },
                TensorView {
                    shape: seq![fan_out, 1usize],
                    data: bias@,
                    grad: Some(filled(bias@.len(), zero)),
                    requires_grad: true,
                    parents: Seq::<usize>::empty(),
                },
            ],
            r matches Ok(md) ==> md@[0].wf() && md@[1].wf(),
            r matches Err(e) ==> e == ShapeError::ElementCount,
    {
        let wdims = vec![fan_in, fan_out];
        let bdims = vec![fan_out, 1];
        proof {
            lemma_product_pair(fan_in, fan_out);
            lemma_product_pair(fan_out, 1);
            assert(wdims@ =~= seq![fan_in, fan_out]);
            assert(bdims@ =~= seq![fan_out, 1usize]);
        }
        let w = match Parameter::new(wdims.as_slice(), weights, zero) {
            Ok(w) => w,
            Err(e) => {
                return Err(e);
            },
        };
        let b = match Parameter::new(bdims.as_slice(), bias, zero) {
            Ok(b) => b,
            Err(e) => {
                return Err(e);
            },
        };
        let parameters = vec![w, b];
        proof {
            assert(Seq::new(parameters@.len(), |i: int| parameters@[i]@) =~= seq![w@, b@]);
        }
        Ok(Module { parameters })
    }

    pub fn parameters(&self) -> (r: &Vec<Tensor<T>>)
        ensures
            r@.len() == self@.len(),
            forall|i: int| 0 <= i < r@.len() ==> (#[trigger] r@[i])@ == self@[i],
    {
        &self.parameters
    }
}

} // verus!
