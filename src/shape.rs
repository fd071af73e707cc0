use vstd::prelude::*;
use vstd::std_specs::cmp::PartialEqSpec;
use vstd::std_specs::iter::IteratorSpec;

verus! {

/// The number of elements of a dense array with the given extents.
pub open spec fn dims_product(dims: Seq<usize>) -> nat
    decreases dims.len(),
{
    if dims.len() == 0 {
        1
    } else {
        dims_product(dims.drop_last()) * (dims.last() as nat)
    }
}

/// A zero extent leaves no elements at all.
pub proof fn lemma_product_zero(dims: Seq<usize>, j: int)
    requires
        0 <= j < dims.len(),
        dims[j] == 0,
    ensures
        dims_product(dims) == 0,
    decreases dims.len(),
{
    if j < dims.len() - 1 {
        lemma_product_zero(dims.drop_last(), j);
    }
    let a = dims_product(dims.drop_last());
    let b = dims.last() as nat;
    assert(a * b == 0) by (nonlinear_arith)
        requires
            a == 0 || b == 0,
    ;
}

/// With no zero extent, a prefix never spans more elements than the whole.
pub proof fn lemma_product_prefix_le(dims: Seq<usize>, k: int)
    requires
        0 <= k <= dims.len(),
        forall|j: int| 0 <= j < dims.len() ==> dims[j] >= 1,
    ensures
        dims_product(dims.take(k)) <= dims_product(dims),
    decreases dims.len(),
{
    if k < dims.len() {
        let d = dims.drop_last();
        lemma_product_prefix_le(d, k);
        assert(d.take(k) =~= dims.take(k));
        let a = dims_product(d);
        let b = dims.last() as nat;
        assert(a <= a * b) by (nonlinear_arith)
            requires
                b >= 1,
        ;
    } else {
        assert(dims.take(k) =~= dims);
    }
}

/// One more extent multiplies the count of a prefix.
pub proof fn lemma_product_step(dims: Seq<usize>, i: int)
    requires
        0 <= i < dims.len(),
    ensures
        dims_product(dims.take(i + 1)) == dims_product(dims.take(i)) * (dims[i] as nat),
{
    assert(dims.take(i + 1).drop_last() =~= dims.take(i));
}

/// The number of elements that the extents span, or `None` where it does not
/// fit in `usize`.
pub fn checked_dims_product(dims: &[usize]) -> (r: Option<usize>)
    ensures
        r matches Some(n) ==> n == dims_product(dims@),
        r is None <==> dims_product(dims@) > usize::MAX,
{
    let n = dims.len();
    let mut k: usize = 0;
    while k < n
        invariant
            n == dims@.len(),
            k <= n,
            forall|j: int| 0 <= j < k ==> dims@[j] >= 1,
        decreases n - k,
    {
        if dims[k] == 0 {
            proof {
                lemma_product_zero(dims@, k as int);
            }
            return Some(0);
        }
        k = k + 1;
    }
    let mut acc: usize = 1;
    let mut i: usize = 0;
    assert(dims@.take(0) =~= Seq::<usize>::empty());
    while i < n
        invariant
            n == dims@.len(),
            i <= n,
            forall|j: int| 0 <= j < n ==> dims@[j] >= 1,
            acc == dims_product(dims@.take(i as int)),
        decreases n - i,
    {
        proof {
            lemma_product_step(dims@, i as int);
            lemma_product_prefix_le(dims@, i as int + 1);
        }
        match acc.checked_mul(dims[i]) {
            Some(v) => {
                acc = v;
            },
            None => {
                return None;
            },
        }
        i = i + 1;
    }
    assert(dims@.take(n as int) =~= dims@);
    Some(acc)
}

/// Two extents span their product.
pub proof fn lemma_product_pair(m: usize, k: usize)
    ensures
        dims_product(seq![m, k]) == m * k,
{
    let s = seq![m, k];
    assert(s.drop_last() =~= seq![m]);
    assert(seq![m].drop_last() =~= Seq::<usize>::empty());
    assert(dims_product(Seq::<usize>::empty()) == 1);
    assert(seq![m].last() == m);
    assert(dims_product(seq![m]) == dims_product(Seq::<usize>::empty()) * (m as nat));
    assert(dims_product(seq![m]) == m);
    assert(dims_product(s) == dims_product(seq![m]) * (k as nat));
}

/// A fresh vector holding the given extents.
pub fn copy_extents(dims: &[usize]) -> (r: Vec<usize>)
    ensures
        r@ == dims@,
{
    let mut r: Vec<usize> = Vec::with_capacity(dims.len());
    let mut i: usize = 0;
    while i < dims.len()
        invariant
            i <= dims@.len(),
            r@ == dims@.take(i as int),
        decreases dims@.len() - i,
    {
        r.push(dims[i]);
        i = i + 1;
        assert(r@ =~= dims@.take(i as int));
    }
    assert(dims@.take(i as int) =~= dims@);
    r
}

/// The ordered extents of a tensor. No dimensions at all describes a scalar.
#[derive(Clone, Debug)]
pub struct Shape {
    dims: Vec<usize>,
}

impl View for Shape {
    type V = Seq<usize>;

    closed spec fn view(&self) -> Seq<usize> {
        self.dims@
    }
}

impl Shape {
    pub fn new(dims: &[usize]) -> (r: Shape)
        ensures
            r@ == dims@,
    {
        Shape { dims: copy_extents(dims) }
    }

    /// The shape of a scalar.
    pub fn none() -> (r: Shape)
        ensures
            r@ == Seq::<usize>::empty(),
    {
        Shape { dims: Vec::new() }
    }

    pub fn dims(&self) -> (r: &Vec<usize>)
        ensures
            r@ == self@,
    {
        &self.dims
    }

    /// Replaces the whole list of extents at once.
    pub fn set_dims(&mut self, dims: &[usize])
        ensures
            final(self)@ == dims@,
    {
        self.dims = copy_extents(dims);
    }

    /// The number of extents.
    pub fn rank(&self) -> (r: usize)
        ensures
            r == self@.len(),
    {
        self.dims.len()
    }

    /// A copy of this shape.
    pub fn duplicate(&self) -> (r: Shape)
        ensures
            r@ == self@,
    {
        Shape { dims: copy_extents(self.dims.as_slice()) }
    }
}

impl PartialEq for Shape {
    fn eq(&self, other: &Shape) -> (r: bool)
        ensures
            r == (self@ == other@),
    {
        let n = self.dims.len();
        if n != other.dims.len() {
            return false;
        }
        let mut i: usize = 0;
        while i < n
            invariant
                n == self@.len(),
                n == other@.len(),
                i <= n,
                forall|j: int| 0 <= j < i ==> self@[j] == other@[j],
            decreases n - i,
        {
            if self.dims[i] != other.dims[i] {
                return false;
            }
            i = i + 1;
        }
        assert(self@ =~= other@);
        true
    }
}

impl vstd::std_specs::cmp::PartialEqSpecImpl for Shape {
    open spec fn obeys_eq_spec() -> bool {
        true
    }

    open spec fn eq_spec(&self, other: &Shape) -> bool {
        self@ == other@
    }
}

impl Eq for Shape {
}

impl IntoIterator for Shape {
    type Item = usize;
    type IntoIter = std::vec::IntoIter<usize>;

    /// Hands the extents over, first to last.
    fn into_iter(self) -> (r: std::vec::IntoIter<usize>)
        ensures
            r.remaining() == self@,
    {
        self.dims.into_iter()
    }
}

/// Two shapes built from extent lists are equal exactly when the lists are.
pub proof fn shape_equality_is_structural(s: Seq<usize>, t: Seq<usize>, a: Shape, b: Shape)
    requires
        a@ == s,
        b@ == t,
    ensures
        a.eq_spec(&a),
        a.eq_spec(&b) <==> s == t,
{
}

} // verus!
