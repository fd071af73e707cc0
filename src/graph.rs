use vstd::prelude::*;
use crate::error::ShapeError;
use crate::broadcast::{
    broadcast_extents, broadcast_index, broadcast_shape, lemma_broadcast_operands,
    lemma_padded_product, lemma_padded_same_rank, pad_extents, padded, source_position,
};
use crate::shape::{checked_dims_product, dims_product, lemma_product_pair, Shape};
use crate::tensor::{
    filled, grad_tracking_set, is_matmul, matmul_elements, Tensor, TensorView,
};

verus! {

/// An arena of tensors addressed by handle. A tensor computed from others
/// records their handles as its parents; handles only ever point back to
/// earlier tensors, so the record has no cycle. `zero` fills new gradient
/// buffers.
pub struct Graph<T> {
    nodes: Vec<Tensor<T>>,
    zero: T,
}

impl<T> View for Graph<T> {
    type V = Seq<TensorView<T>>;

    closed spec fn view(&self) -> Seq<TensorView<T>> {
        Seq::new(self.nodes@.len(), |i: int| self.nodes@[i]@)
    }
}

/// What an elementwise operation on `a` and `b` appends to the arena: the
/// broadcast of the two, each element `op` of the operand elements that its
/// position reads.
pub open spec fn binary_result<T, F: Fn(T, T) -> T>(
    a: TensorView<T>,
    b: TensorView<T>,
    ia: usize,
    ib: usize,
    op: F,
    zero: T,
    v: TensorView<T>,
) -> bool {
    let rg = a.requires_grad || b.requires_grad;
    &&& broadcast_shape(a.shape, b.shape) == Some(v.shape)
    &&& v.data.len() == dims_product(v.shape)
    &&& forall|i: int|
        0 <= i < v.data.len() ==> op.ensures(
            (
                a.data[broadcast_index(a.shape, v.shape, i)],
                b.data[broadcast_index(b.shape, v.shape, i)],
            ),
            #[trigger] v.data[i],
        )
    &&& v.parents == seq![ia, ib]
    &&& v.requires_grad == rg
    &&& v.grad == if rg {
        Some(filled(v.data.len(), zero))
    } else {
        None
    }
}

/// Combining a tensor with itself by an operation that sends every pair of
/// equal elements to `zero` (as subtraction does on finite numbers) gives a
/// tensor of the same shape holding only `zero`.
pub proof fn self_combination_is_zero<T, F: Fn(T, T) -> T>(
    a: TensorView<T>,
    ia: usize,
    op: F,
    zero: T,
    v: TensorView<T>,
)
    requires
        binary_result(a, a, ia, ia, op, zero, v),
        forall|x: T, y: T| #[trigger] op.ensures((x, x), y) ==> y == zero,
    ensures
        v.shape == a.shape,
        forall|i: int| 0 <= i < v.data.len() ==> v.data[i] == zero,
{
    lemma_padded_same_rank(a.shape);
    assert(broadcast_shape(a.shape, a.shape)->Some_0 =~= a.shape);
    assert forall|i: int| 0 <= i < v.data.len() implies v.data[i] == zero by {
        let k = broadcast_index(a.shape, v.shape, i);
        assert(op.ensures((a.data[k], a.data[k]), v.data[i]));
    }
}

/// The extents allow a matrix product: two matrices whose inner sizes agree.
pub open spec fn matmul_compatible(sa: Seq<usize>, sb: Seq<usize>) -> bool {
    sa.len() == 2 && sb.len() == 2 && sa[1] == sb[0]
}

/// What a matrix product of `a` and `b` appends to the arena.
pub open spec fn matmul_result<T, M: Fn(T, T) -> T, A: Fn(T, T) -> T>(
    a: TensorView<T>,
    b: TensorView<T>,
    ia: usize,
    ib: usize,
    mul: M,
    add: A,
    zero: T,
    v: TensorView<T>,
) -> bool {
    let rg = a.requires_grad || b.requires_grad;
    &&& v.shape == seq![a.shape[0], b.shape[1]]
    &&& is_matmul(
        mul,
        add,
        zero,
        a.data,
        b.data,
        a.shape[0] as nat,
        a.shape[1] as nat,
        b.shape[1] as nat,
        v.data,
    )
    &&& v.parents == seq![ia, ib]
    &&& v.requires_grad == rg
    &&& v.grad == if rg {
        Some(filled(v.data.len(), zero))
    } else {
        None
    }
}

impl<T: Copy> Graph<T> {
    proof fn lemma_push_wf(&self, old_graph: &Graph<T>, v: TensorView<T>)
        requires
            old_graph.wf(),
            self@ == old_graph@.push(v),
            v.wf(),
            forall|q: int| 0 <= q < v.parents.len() ==> v.parents[q] < old_graph@.len(),
        ensures
            self.wf(),
    {
        assert forall|i: int| 0 <= i < self@.len() implies {
            &&& (#[trigger] self@[i]).wf()
            &&& forall|q: int| 0 <= q < self@[i].parents.len() ==> self@[i].parents[q] < i
        } by {
            if i < old_graph@.len() {
                assert(self@[i] == old_graph@[i]);
                assert(old_graph@[i].wf());
            }
        }
    }

    pub closed spec fn zero_value(&self) -> T {
        self.zero
    }

    /// Every tensor is well formed and names only earlier tensors as parents.
    pub open spec fn wf(&self) -> bool {
        forall|i: int|
            0 <= i < self@.len() ==> {
                &&& (#[trigger] self@[i]).wf()
                &&& forall|q: int|
                    0 <= q < self@[i].parents.len() ==> self@[i].parents[q] < i
            }
    }

    /// An empty arena whose gradient buffers start out filled with `zero`.
    pub fn new(zero: T) -> (r: Graph<T>)
        ensures
            r@.len() == 0,
            r.zero_value() == zero,
            r.wf(),
    {
        Graph { nodes: Vec::new(), zero }
    }

    pub fn len(&self) -> (r: usize)
        ensures
            r == self@.len(),
    {
        self.nodes.len()
    }

    /// Whether `id` names a tensor of this arena.
    pub fn contains(&self, id: usize) -> (r: bool)
        ensures
            r == (id < self@.len()),
    {
        id < self.nodes.len()
    }

    pub fn get(&self, id: usize) -> (r: &Tensor<T>)
        requires
            id < self@.len(),
        ensures
            r@ == self@[id as int],
    {
        &self.nodes[id]
    }

    /// Adds a tensor built directly, with no parents, and returns its handle.
    pub fn insert(&mut self, t: Tensor<T>) -> (r: usize)
        requires
            old(self).wf(),
            t@.wf(),
            t@.parents.len() == 0,
        ensures
            final(self).wf(),
            r == old(self)@.len(),
            final(self)@ == old(self)@.push(t@),
            final(self).zero_value() == old(self).zero_value(),
    {
        let id = self.nodes.len();
        self.nodes.push(t);
        assert(self@ =~= old(self)@.push(t@));
        id
    }

    /// Turns gradient tracking of tensor `id` on or off, as
    /// `Tensor::set_requires_grad` does, with this arena's zero.
    pub fn set_requires_grad(&mut self, id: usize, requires_grad: bool)
        requires
            old(self).wf(),
            id < old(self)@.len(),
        ensures
            final(self).wf(),
            final(self).zero_value() == old(self).zero_value(),
            final(self)@.len() == old(self)@.len(),
            forall|i: int|
                0 <= i < old(self)@.len() && i != id ==> final(self)@[i] == old(self)@[i],
            grad_tracking_set(
                old(self)@[id as int],
                final(self)@[id as int],
                requires_grad,
                old(self).zero_value(),
            ),
    {
        let zero = self.zero;
        proof {
            assert(self@[id as int].wf());
        }
        self.nodes[id].set_requires_grad(requires_grad, zero);
        assert forall|i: int| 0 <= i < self@.len() implies {
            &&& (#[trigger] self@[i]).wf()
            &&& forall|q: int| 0 <= q < self@[i].parents.len() ==> self@[i].parents[q] < i
        } by {
            assert(old(self)@[i].wf());
        }
    }
    /// Combines tensors `a` and `b` element by element with `op`, after
    /// broadcasting them to a common shape, and appends the result, whose
    /// parents are `a` then `b` and which tracks gradients when either operand
    /// does. Extents are aligned from the right; a pair must agree, or one of
    /// them be one, which stretches along that axis.
    pub fn binary<F: Fn(T, T) -> T>(&mut self, a: usize, b: usize, op: F) -> (r: Result<
        usize,
        ShapeError,
    >)
        requires
            old(self).wf(),
            forall|x: T, y: T| op.requires((x, y)),
        ensures
            final(self).wf(),
            final(self).zero_value() == old(self).zero_value(),
            (a >= old(self)@.len() || b >= old(self)@.len()) ==> r == Err::<usize, ShapeError>(
                ShapeError::UnknownTensor,
            ),
            (a < old(self)@.len() && b < old(self)@.len() && broadcast_shape(
                old(self)@[a as int].shape,
                old(self)@[b as int].shape,
            ) is None) ==> r == Err::<usize, ShapeError>(ShapeError::Mismatch),
            (a < old(self)@.len() && b < old(self)@.len() && broadcast_shape(
                old(self)@[a as int].shape,
                old(self)@[b as int].shape,
            ) is Some && dims_product(
                broadcast_shape(old(self)@[a as int].shape, old(self)@[b as int].shape)->Some_0,
            ) > usize::MAX) ==> r == Err::<
                usize,
                ShapeError,
            >(ShapeError::ElementCount),
            r is Err ==> final(self)@ == old(self)@,
            (a < old(self)@.len() && b < old(self)@.len() && broadcast_shape(
                old(self)@[a as int].shape,
                old(self)@[b as int].shape,
            ) is Some && dims_product(
                broadcast_shape(old(self)@[a as int].shape, old(self)@[b as int].shape)->Some_0,
            ) <= usize::MAX) ==> {
                &&& r == Ok::<usize, ShapeError>(old(self)@.len() as usize)
                &&& final(self)@.len() == old(self)@.len() + 1
                &&& final(self)@.drop_last() == old(self)@
                &&& binary_result(
                    old(self)@[a as int],
                    old(self)@[b as int],
                    a,
                    b,
                    op,
                    old(self).zero_value(),
                    final(self)@.last(),
                )
            },
    {
        if a >= self.nodes.len() || b >= self.nodes.len() {
            return Err(ShapeError::UnknownTensor);
        }
        let ta = &self.nodes[a];
        let tb = &self.nodes[b];
        let da = ta.shape().dims();
        let db = tb.shape().dims();
        let out = match broadcast_extents(da, db) {
            Some(out) => out,
            None => {
                return Err(ShapeError::Mismatch);
            },
        };
        let total = match checked_dims_product(out.as_slice()) {
            Some(t) => t,
            None => {
                return Err(ShapeError::ElementCount);
            },
        };
        let n = out.len();
        let pa = pad_extents(da, n);
        let pb = pad_extents(db, n);
        let xs = ta.data();
        let ys = tb.data();
        let x_len = xs.len();
        let y_len = ys.len();
        proof {
            assert(self@[a as int].wf());
            assert(self@[b as int].wf());
            lemma_padded_product(da@, n as nat);
            lemma_padded_product(db@, n as nat);
            if total > 0 {
                lemma_broadcast_operands(da@, db@, out@);
            }
        }
        let mut data: Vec<T> = Vec::with_capacity(total);
        let mut i: usize = 0;
        while i < total
            invariant
                total == dims_product(out@),
                n == out@.len(),
                broadcast_shape(da@, db@) == Some(out@),
                pa@ == padded(da@, n as nat),
                pb@ == padded(db@, n as nat),
                xs@.len() == dims_product(pa@),
                x_len == xs@.len(),
                y_len == ys@.len(),
                ys@.len() == dims_product(pb@),
                total > 0 ==> {
                    &&& forall|d: int|
                        0 <= d < n ==> #[trigger] pa@[d] >= 1 && out@[d] >= 1
                    &&& forall|d: int|
                        0 <= d < n ==> #[trigger] pa@[d] == out@[d] || pa@[d] == 1
                    &&& forall|d: int|
                        0 <= d < n ==> #[trigger] pb@[d] >= 1 && out@[d] >= 1
                    &&& forall|d: int|
                        0 <= d < n ==> #[trigger] pb@[d] == out@[d] || pb@[d] == 1
                },
                pa@.len() == n,
                pb@.len() == n,
                i <= total,
                data@.len() == i,
                forall|x: T, y: T| op.requires((x, y)),
                forall|j: int|
                    0 <= j < i ==> op.ensures(
                        (
                            xs@[broadcast_index(da@, out@, j)],
                            ys@[broadcast_index(db@, out@, j)],
                        ),
                        #[trigger] data@[j],
                    ),
            decreases total - i,
        {
            let ia = source_position(&pa, &out, i);
            let ib = source_position(&pb, &out, i);
            let v = op(xs[ia], ys[ib]);
            data.push(v);
            i = i + 1;
        }
        let shape = Shape::new(out.as_slice());
        let requires_grad = ta.requires_grad() || tb.requires_grad();
        let parents = vec![a, b];
        let ghost parents_view = parents@;
        let t = Tensor::derived(shape, data, parents, requires_grad, self.zero);
        let id = self.nodes.len();
        self.nodes.push(t);
        proof {
            assert(self@ =~= old(self)@.push(t@));
            assert(self@.drop_last() =~= old(self)@);
            assert(parents_view =~= seq![a, b]);
            self.lemma_push_wf(old(self), t@);
        }
        Ok(id)
    }

    /// The matrix product of tensors `a` and `b`, appended with parents `a`
    /// then `b`. Each entry accumulates with `add`, from this arena's zero,
    /// the products that `mul` gives of a row of `a` and a column of `b`.
    pub fn matmul<M: Fn(T, T) -> T, A: Fn(T, T) -> T>(
        &mut self,
        a: usize,
        b: usize,
        mul: M,
        add: A,
    ) -> (r: Result<usize, ShapeError>)
        requires
            old(self).wf(),
            forall|x: T, y: T| mul.requires((x, y)),
            forall|x: T, y: T| add.requires((x, y)),
        ensures
            final(self).wf(),
            final(self).zero_value() == old(self).zero_value(),
            (a >= old(self)@.len() || b >= old(self)@.len()) ==> r == Err::<usize, ShapeError>(
                ShapeError::UnknownTensor,
            ),
            (a < old(self)@.len() && b < old(self)@.len() && !matmul_compatible(
                old(self)@[a as int].shape,
                old(self)@[b as int].shape,
            )) ==> r == Err::<usize, ShapeError>(ShapeError::MatmulShape),
            (a < old(self)@.len() && b < old(self)@.len() && matmul_compatible(
                old(self)@[a as int].shape,
                old(self)@[b as int].shape,
            ) && old(self)@[a as int].shape[0] * old(self)@[b as int].shape[1] > usize::MAX)
                ==> r == Err::<usize, ShapeError>(ShapeError::ElementCount),
            r is Err ==> final(self)@ == old(self)@,
            (a < old(self)@.len() && b < old(self)@.len() && matmul_compatible(
                old(self)@[a as int].shape,
                old(self)@[b as int].shape,
            ) && old(self)@[a as int].shape[0] * old(self)@[b as int].shape[1] <= usize::MAX)
                ==> {
                &&& r == Ok::<usize, ShapeError>(old(self)@.len() as usize)
                &&& final(self)@.len() == old(self)@.len() + 1
                &&& final(self)@.drop_last() == old(self)@
                &&& matmul_result(
                    old(self)@[a as int],
                    old(self)@[b as int],
                    a,
                    b,
                    mul,
                    add,
                    old(self).zero_value(),
                    final(self)@.last(),
                )
            },
    {
        if a >= self.nodes.len() || b >= self.nodes.len() {
            return Err(ShapeError::UnknownTensor);
        }
        let ta = &self.nodes[a];
        let tb = &self.nodes[b];
        let da = ta.shape().dims();
        let db = tb.shape().dims();
        if da.len() != 2 || db.len() != 2 || da[1] != db[0] {
            return Err(ShapeError::MatmulShape);
        }
        let m = da[0];
        let k = da[1];
        let n = db[1];
        let mn = match m.checked_mul(n) {
            Some(v) => v,
            None => {
                return Err(ShapeError::ElementCount);
            },
        };
        proof {
            assert(self@[a as int].wf());
            assert(self@[b as int].wf());
            assert(da@ =~= seq![m, k]);
            assert(db@ =~= seq![k, n]);
            lemma_product_pair(m, k);
            lemma_product_pair(k, n);
            lemma_product_pair(m, n);
        }
        let data = matmul_elements(ta.data(), tb.data(), m, k, n, self.zero, &mul, &add);
        let dims = vec![m, n];
        let shape = Shape::new(dims.as_slice());
        let requires_grad = ta.requires_grad() || tb.requires_grad();
        let parents = vec![a, b];
        proof {
            assert(dims@ =~= seq![m, n]);
        }
        let ghost parents_view = parents@;
        let t = Tensor::derived(shape, data, parents, requires_grad, self.zero);
        let id = self.nodes.len();
        self.nodes.push(t);
        proof {
            assert(self@ =~= old(self)@.push(t@));
            assert(self@.drop_last() =~= old(self)@);
            assert(parents_view =~= seq![a, b]);
            self.lemma_push_wf(old(self), t@);
        }
        Ok(id)
    }
}

} // verus!
