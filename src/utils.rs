use vstd::prelude::*;
use crate::error::ShapeError;
use crate::tensor::Tensor;

verus! {

/// Whether any of the tensors tracks gradients.
pub fn any_requires_grad<T: Copy>(tensors: Vec<&Tensor<T>>) -> (r: bool)
    ensures
        r == exists|i: int| 0 <= i < tensors@.len() && (#[trigger] tensors@[i])@.requires_grad,
{
    let mut i: usize = 0;
    while i < tensors.len()
        invariant
            i <= tensors@.len(),
            forall|j: int| 0 <= j < i ==> !(#[trigger] tensors@[j])@.requires_grad,
        decreases tensors@.len() - i,
    {
        if tensors[i].requires_grad() {
            return true;
        }
        i = i + 1;
    }
    false
}

/// The element kinds a tensor may hold: single and double precision.
#[derive(Debug, Clone, Copy, PartialEq, Eq, Structural)]
pub enum DataType {
    Single,
    Double,
}

/// The name under which Rust knows each element kind.
pub open spec fn dtype_name(d: DataType) -> Seq<char> {
    match d {
        DataType::Single => "f32"@,
        DataType::Double => "f64"@,
    }
}

/// The Rust name of an element kind.
pub fn type_of(dtype: DataType) -> (r: &'static str)
    ensures
        r@ == dtype_name(dtype),
{
    match dtype {
        DataType::Single => "f32",
        DataType::Double => "f64",
    }
}

/// Relies on `TryFrom<Vec<T>> for [T; N]`: it succeeds, keeping the elements
/// in order, exactly when the vector holds `N` elements, and hands the
/// vector back unchanged otherwise.
#[verifier::external_body]
fn try_into_array<T, const N: usize>(v: Vec<T>) -> (r: Result<[T; N], Vec<T>>)
    ensures
        r is Ok <==> v@.len() == N,
        r matches Ok(a) ==> a@ == v@,
        r matches Err(w) ==> w@ == v@,
{
    <[T; N] as std::convert::TryFrom<Vec<T>>>::try_from(v)
}

/// The elements of a vector as an array of `N` elements. Fails when the
/// vector holds another number of elements.
pub fn vec_to_array<T, const N: usize>(v: Vec<T>) -> (r: Result<[T; N], ShapeError>)
    ensures
        r is Ok <==> v@.len() == N,
        r matches Ok(a) ==> a@ == v@,
        r matches Err(e) ==> e == ShapeError::ElementCount,
{
    match try_into_array::<T, N>(v) {
        Ok(a) => Ok(a),
        Err(_) => Err(ShapeError::ElementCount),
    }
}

} // verus!
