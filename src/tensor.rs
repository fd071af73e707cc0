use vstd::prelude::*;
use crate::error::ShapeError;
use crate::shape::{checked_dims_product, dims_product, Shape};

verus! {

/// What a tensor holds, in mathematical terms.
pub ghost struct TensorView<T> {
    pub shape: Seq<usize>,
    pub data: Seq<T>,
    pub grad: Option<Seq<T>>,
    pub requires_grad: bool,
    pub parents: Seq<usize>,
}

impl<T> TensorView<T> {
    /// The data spans the shape, and a gradient buffer of the same size is
    /// present whenever gradients are tracked.
    pub open spec fn wf(self) -> bool {
        &&& self.data.len() == dims_product(self.shape)
        &&& self.requires_grad ==> self.grad is Some
        &&& self.grad matches Some(g) ==> g.len() == self.data.len()
    }
}

/// `n` copies of `v`.
pub open spec fn filled<T>(n: nat, v: T) -> Seq<T> {
    Seq::new(n, |i: int| v)
}

/// `after` is `before` with gradient tracking set to `requires_grad`: a
/// buffer filled with `zero` appears when tracking is turned on and none was
/// there; an existing buffer is kept either way.
pub open spec fn grad_tracking_set<T>(
    before: TensorView<T>,
    after: TensorView<T>,
    requires_grad: bool,
    zero: T,
) -> bool {
    &&& after.requires_grad == requires_grad
    &&& after.shape == before.shape
    &&& after.data == before.data
    &&& after.parents == before.parents
    &&& after.grad == if requires_grad && before.grad is None {
        Some(filled(before.data.len(), zero))
    } else {
        before.grad
    }
}

/// Turning gradient tracking on leaves a buffer of zeros the size of the
/// data, provided any buffer already there held only zeros.
pub proof fn enabled_gradient_is_zero<T>(before: TensorView<T>, after: TensorView<T>, zero: T)
    requires
        before.wf(),
        grad_tracking_set(before, after, true, zero),
        before.grad matches Some(g) ==> forall|i: int| 0 <= i < g.len() ==> g[i] == zero,
    ensures
        after.wf(),
        after.requires_grad,
        after.grad == Some(filled(after.data.len(), zero)),
        after.data.len() == dims_product(after.shape),
{
    if let Some(g) = before.grad {
        assert(g =~= filled(before.data.len(), zero));
    }
}

/// A dense row-major tensor. `parents` holds the handles, in an arena, of
/// the operands that produced it; it is empty for a tensor built directly.
#[derive(Debug, Clone)]
pub struct Tensor<T> {
    shape: Shape,
    data: Vec<T>,
    grad: Option<Vec<T>>,
    requires_grad: bool,
    parents: Vec<usize>,
}

impl<T> View for Tensor<T> {
    type V = TensorView<T>;

    closed spec fn view(&self) -> TensorView<T> {
        TensorView {
            shape: self.shape@,
            data: self.data@,
            grad: match self.grad {
                Some(g) => Some(g@),
                None => None,
            },
            requires_grad: self.requires_grad,
            parents: self.parents@,
        }
    }
}

/// A vector of `n` copies of `v`.
pub fn filled_vec<T: Copy>(n: usize, v: T) -> (r: Vec<T>)
    ensures
        r@ == filled(n as nat, v),
{
    let mut r: Vec<T> = Vec::with_capacity(n);
    let mut i: usize = 0;
    while i < n
        invariant
            i <= n,
            r@ == filled(i as nat, v),
        decreases n - i,
    {
        r.push(v);
        i = i + 1;
        assert(r@ =~= filled(i as nat, v));
    }
    r
}

/// Whether `r` is what folding `add` over the products `mul(xs[t], ys[t])`,
/// from `zero` and in order of `t`, may give.
pub open spec fn accumulates<T, M: Fn(T, T) -> T, A: Fn(T, T) -> T>(
    mul: M,
    add: A,
    zero: T,
    xs: Seq<T>,
    ys: Seq<T>,
    r: T,
) -> bool
    decreases xs.len(),
{
    if xs.len() == 0 {
        r == zero
    } else {
        exists|acc: T, p: T|
            accumulates(mul, add, zero, xs.drop_last(), ys.drop_last(), acc) && mul.ensures(
                (xs.last(), ys.last()),
                p,
            ) && add.ensures((acc, p), r)
    }
}

/// Row `i` of a row-major matrix with `k` columns.
pub open spec fn row_of<T>(a: Seq<T>, k: nat, i: int) -> Seq<T> {
    Seq::new(k, |t: int| a[i * k + t])
}

/// Column `j`, `k` entries long, of a row-major matrix with `n` columns.
pub open spec fn col_of<T>(b: Seq<T>, k: nat, n: nat, j: int) -> Seq<T> {
    Seq::new(k, |t: int| b[t * n + j])
}

/// `c` is the row-major `m` by `n` product of the `m` by `k` matrix `a` and
/// the `k` by `n` matrix `b`: each entry accumulates a row of `a` against a
/// column of `b`.
pub open spec fn is_matmul<T, M: Fn(T, T) -> T, A: Fn(T, T) -> T>(
    mul: M,
    add: A,
    zero: T,
    a: Seq<T>,
    b: Seq<T>,
    m: nat,
    k: nat,
    n: nat,
    c: Seq<T>,
) -> bool {
    &&& c.len() == m * n
    &&& forall|p: int|
        0 <= p < c.len() ==> accumulates(
            mul,
            add,
            zero,
            row_of(a, k, p / (n as int)),
            col_of(b, k, n, p % (n as int)),
            #[trigger] c[p],
        )
}

proof fn lemma_index_in_matrix(i: int, t: int, rows: int, cols: int)
    requires
        0 <= i < rows,
        0 <= t < cols,
    ensures
        0 <= i * cols + t < rows * cols,
{
    assert(0 <= i * cols + t < rows * cols) by (nonlinear_arith)
        requires
            0 <= i < rows,
            0 <= t < cols,
    ;
}

/// The matrix product of the row-major `m` by `k` matrix `a` and the `k` by
/// `n` matrix `b`, each entry accumulated with `add` from `zero` over the
/// products that `mul` gives.
pub fn matmul_elements<T: Copy, M: Fn(T, T) -> T, A: Fn(T, T) -> T>(
    a: &Vec<T>,
    b: &Vec<T>,
    m: usize,
    k: usize,
    n: usize,
    zero: T,
    times: &M,
    plus: &A,
) -> (r: Vec<T>)
    requires
        a@.len() == m * k,
        b@.len() == k * n,
        m * n <= usize::MAX,
        forall|x: T, y: T| times.requires((x, y)),
        forall|x: T, y: T| plus.requires((x, y)),
    ensures
        is_matmul(*times, *plus, zero, a@, b@, m as nat, k as nat, n as nat, r@),
{
    let a_len = a.len();
    let b_len = b.len();
    let mut c: Vec<T> = Vec::new();
    let mut i: usize = 0;
    while i < m
        invariant
            a@.len() == m * k,
            b@.len() == k * n,
            m * n <= usize::MAX,
            a_len == a@.len(),
            b_len == b@.len(),
            i <= m,
            c@.len() == i * n,
            forall|x: T, y: T| times.requires((x, y)),
            forall|x: T, y: T| plus.requires((x, y)),
            forall|p: int|
                0 <= p < c@.len() ==> accumulates(
                    *times,
                    *plus,
                    zero,
                    row_of(a@, k as nat, p / (n as int)),
                    col_of(b@, k as nat, n as nat, p % (n as int)),
                    #[trigger] c@[p],
                ),
        decreases m - i,
    {
        let mut j: usize = 0;
        while j < n
            invariant
                a@.len() == m * k,
                b@.len() == k * n,
                m * n <= usize::MAX,
                a_len == a@.len(),
                b_len == b@.len(),
                i < m,
                j <= n,
                c@.len() == i * n + j,
                forall|x: T, y: T| times.requires((x, y)),
                forall|x: T, y: T| plus.requires((x, y)),
                forall|p: int|
                    0 <= p < c@.len() ==> accumulates(
                        *times,
                        *plus,
                        zero,
                        row_of(a@, k as nat, p / (n as int)),
                        col_of(b@, k as nat, n as nat, p % (n as int)),
                        #[trigger] c@[p],
                    ),
            decreases n - j,
        {
            let ghost row = row_of(a@, k as nat, i as int);
            let ghost col = col_of(b@, k as nat, n as nat, j as int);
            let mut acc = zero;
            let mut t: usize = 0;
            assert(row.take(0) =~= Seq::<T>::empty());
            assert(col.take(0) =~= Seq::<T>::empty());
            while t < k
                invariant
                    a@.len() == m * k,
                    b@.len() == k * n,
                    a_len == a@.len(),
                    b_len == b@.len(),
                    i < m,
                    j < n,
                    t <= k,
                    row == row_of(a@, k as nat, i as int),
                    col == col_of(b@, k as nat, n as nat, j as int),
                    forall|x: T, y: T| times.requires((x, y)),
                    forall|x: T, y: T| plus.requires((x, y)),
                    accumulates(*times, *plus, zero, row.take(t as int), col.take(t as int), acc),
                decreases k - t,
            {
                proof {
                    lemma_index_in_matrix(i as int, t as int, m as int, k as int);
                    lemma_index_in_matrix(t as int, j as int, k as int, n as int);
                }
                let x = a[i * k + t];
                let y = b[t * n + j];
                let p = times(x, y);
                let s = plus(acc, p);
                proof {
                    let xs = row.take(t as int + 1);
                    let ys = col.take(t as int + 1);
                    assert(xs.drop_last() =~= row.take(t as int));
                    assert(ys.drop_last() =~= col.take(t as int));
                    assert(xs.last() == x);
                    assert(ys.last() == y);
                    assert(accumulates(*times, *plus, zero, xs.drop_last(), ys.drop_last(), acc));
                }
                acc = s;
                t = t + 1;
            }
            assert(row.take(k as int) =~= row);
            assert(col.take(k as int) =~= col);
            proof {
                lemma_index_in_matrix(i as int, j as int, m as int, n as int);
                vstd::arithmetic::div_mod::lemma_fundamental_div_mod_converse(
                    (i * n + j) as int,
                    n as int,
                    i as int,
                    j as int,
                );
            }
            c.push(acc);
            j = j + 1;
        }
        assert((i + 1) * n == i * n + n) by (nonlinear_arith);
        i = i + 1;
    }
    c
}

impl<T: Copy> Tensor<T> {
    /// Wraps `data`, read in row-major order, as a tensor of extents `dims`.
    /// Fails when the extents do not span exactly `data.len()` elements.
    pub fn new(dims: &[usize], data: Vec<T>) -> (r: Result<Tensor<T>, ShapeError>)
        ensures
            r is Ok <==> dims_product(dims@) == data@.len(),
            r matches Ok(t) ==> t@ == (TensorView {
                shape: dims@,
                data: data@,
                grad: None,
                requires_grad: false,
                parents: Seq::<usize>::empty(),
            }),
            r matches Ok(t) ==> t@.wf(),
            r matches Err(e) ==> e == ShapeError::ElementCount,
    {
        let len = data.len();
        match checked_dims_product(dims) {
            Some(n) => {
                if n == len {
                    Ok(Tensor {
                        shape: Shape::new(dims),
                        data,
                        grad: None,
                        requires_grad: false,
                        parents: Vec::new(),
                    })
                } else {
                    Err(ShapeError::ElementCount)
                }
            },
            None => Err(ShapeError::ElementCount),
        }
    }

    /// A tensor of extents `dims` whose every element is `value`.
    pub fn full(dims: &[usize], value: T) -> (r: Tensor<T>)
        requires
            dims_product(dims@) <= usize::MAX,
        ensures
            r@ == (TensorView {
                shape: dims@,
                data: filled(dims_product(dims@), value),
                grad: None,
                requires_grad: false,
                parents: Seq::<usize>::empty(),
            }),
            r@.wf(),
    {
        let n = match checked_dims_product(dims) {
            Some(n) => n,
            None => vstd::pervasive::unreached(),
        };
        Tensor {
            shape: Shape::new(dims),
            data: filled_vec(n, value),
            grad: None,
            requires_grad: false,
            parents: Vec::new(),
        }
    }

    /// A tensor computed from the tensors with handles `parents`. Its
    /// gradient buffer, when gradients are tracked, is filled with `zero`.
    pub fn derived(
        shape: Shape,
        data: Vec<T>,
        parents: Vec<usize>,
        requires_grad: bool,
        zero: T,
    ) -> (r: Tensor<T>)
        requires
            data@.len() == dims_product(shape@),
        ensures
            r@ == (TensorView {
                shape: shape@,
                data: data@,
                grad: if requires_grad {
                    Some(filled(data@.len(), zero))
                } else {
                    None
                },
                requires_grad,
                parents: parents@,
            }),
            r@.wf(),
    {
        let grad = if requires_grad {
            Some(filled_vec(data.len(), zero))
        } else {
            None
        };
        Tensor { shape, data, grad, requires_grad, parents }
    }

    pub fn shape(&self) -> (r: &Shape)
        ensures
            r@ == self@.shape,
    {
        &self.shape
    }

    pub fn data(&self) -> (r: &Vec<T>)
        ensures
            r@ == self@.data,
    {
        &self.data
    }

    /// The gradient buffer, if one has been allocated.
    pub fn grad(&self) -> (r: Option<&Vec<T>>)
        ensures
            r is Some <==> self@.grad is Some,
            r matches Some(g) ==> self@.grad == Some(g@),
    {
        match &self.grad {
            Some(g) => Some(g),
            None => None,
        }
    }

    pub fn requires_grad(&self) -> (r: bool)
        ensures
            r == self@.requires_grad,
    {
        self.requires_grad
    }

    /// The arena handles of the operands that produced this tensor.
    pub fn parents(&self) -> (r: &Vec<usize>)
        ensures
            r@ == self@.parents,
    {
        &self.parents
    }

    /// Turns gradient tracking on or off. Turning it on allocates a gradient
    /// buffer the size of the data, filled with `zero`, unless one is already
    /// there. Turning it off keeps the buffer that exists.
    pub fn set_requires_grad(&mut self, requires_grad: bool, zero: T)
        requires
            old(self)@.wf(),
        ensures
            final(self)@.wf(),
            grad_tracking_set(old(self)@, final(self)@, requires_grad, zero),
    {
        if requires_grad && self.grad.is_none() {
            self.grad = Some(filled_vec(self.data.len(), zero));
        }
        self.requires_grad = requires_grad;
    }
}

} // verus!
