use rune::error::ShapeError;
use rune::graph::Graph;
use rune::nn::{Module, Parameter};
use rune::shape::Shape;
use rune::tensor::Tensor;
use rune::utils::{any_requires_grad, type_of, vec_to_array, DataType};

#[test]
fn shapes() {
    let a = Tensor::<f32>::full(&[], 0.0);
    let b = Tensor::<f32>::full(&[3, 5, 19, 3], 1.0);
    let c = Tensor::<f64>::full(&[3, 5, 19, 3], 0.0);

    assert_eq!(b.shape(), c.shape());
    assert_eq!(*a.shape().dims(), Vec::<usize>::new());
}

#[test]
fn requires_grad() {
    let mut g = Graph::new(0.0f32);
    let a = Tensor::<f32>::full(&[], 0.0);
    let b = Tensor::<f32>::full(&[128, 3, 256, 256], 1.0);
    let c = Tensor::<f32>::full(&[128, 3, 256, 256], 1.0);

    assert_eq!(any_requires_grad(vec![&a, &b]), false);

    let b = g.insert(b);
    let c = g.insert(c);
    g.set_requires_grad(c, true);
    let d = g.binary(b, c, |x, y| x + y).unwrap();
    let parents: Vec<&Tensor<f32>> = g.get(d).parents().iter().map(|&p| g.get(p)).collect();
    assert_eq!(any_requires_grad(parents), true);
}

#[test]
fn dtypes() {
    assert_ne!(type_of(DataType::Single), type_of(DataType::Double));
    assert_eq!(type_of(DataType::Single), "f32");
    assert_eq!(type_of(DataType::Double), "f64");
}

#[test]
fn full_tensors_hold_one_value() {
    let z = Tensor::<f32>::full(&[2, 3], 0.0);
    let o = Tensor::<f64>::full(&[4], 1.0);
    assert_eq!(*z.data(), vec![0.0f32; 6]);
    assert_eq!(*o.data(), vec![1.0f64; 4]);
    assert_eq!(*z.shape(), Shape::new(&[2, 3]));
    assert_eq!(*o.shape(), Shape::new(&[4]));
    assert!(!z.requires_grad());
    assert!(z.parents().is_empty());
    assert!(z.grad().is_none());
    let s = Tensor::<f32>::full(&[], 0.0);
    assert_eq!(s.data().len(), 1);
}

#[test]
fn new_checks_element_count() {
    let t = Tensor::new(&[2, 2], vec![1.0f32, 2.0, 3.0, 4.0]).unwrap();
    assert_eq!(*t.data(), vec![1.0f32, 2.0, 3.0, 4.0]);
    assert_eq!(*t.shape(), Shape::new(&[2, 2]));
    assert_eq!(
        Tensor::new(&[2, 3], vec![1.0f32, 2.0, 3.0, 4.0]).unwrap_err(),
        ShapeError::ElementCount
    );
    assert_eq!(
        Tensor::new(&[usize::MAX, 3], vec![1.0f32]).unwrap_err(),
        ShapeError::ElementCount
    );
    assert!(Tensor::<f32>::new(&[usize::MAX, 3, 0], vec![]).is_ok());
}

#[test]
fn enabling_grad_allocates_a_buffer() {
    let mut t = Tensor::new(&[3, 2], vec![1.0f32; 6]).unwrap();
    assert!(t.grad().is_none());
    t.set_requires_grad(true, 0.0);
    assert!(t.requires_grad());
    assert_eq!(*t.grad().unwrap(), vec![0.0f32; 6]);
    t.set_requires_grad(false, 0.0);
    assert!(!t.requires_grad());
    assert_eq!(t.grad().unwrap().len(), 6);
}

#[test]
fn binary_records_parents_and_grad() {
    let mut g = Graph::new(0.0f32);
    let a = g.insert(Tensor::new(&[2], vec![1.0f32, 2.0]).unwrap());
    let b = g.insert(Tensor::new(&[2], vec![10.0f32, 20.0]).unwrap());
    let c = g.binary(a, b, |x, y| x + y).unwrap();
    assert_eq!(c, 2);
    assert_eq!(*g.get(c).data(), vec![11.0f32, 22.0]);
    assert_eq!(*g.get(c).parents(), vec![a, b]);
    assert!(!g.get(c).requires_grad());
    assert!(g.get(c).grad().is_none());

    g.set_requires_grad(b, true);
    let d = g.binary(b, a, |x, y| x * y).unwrap();
    assert_eq!(*g.get(d).data(), vec![10.0f32, 40.0]);
    assert_eq!(*g.get(d).parents(), vec![b, a]);
    assert!(g.get(d).requires_grad());
    assert_eq!(*g.get(d).grad().unwrap(), vec![0.0f32, 0.0]);
    assert_eq!(g.len(), 4);
}

#[test]
fn subtracting_a_tensor_from_itself_gives_zeros() {
    let mut g = Graph::new(0.0f64);
    let a = g.insert(Tensor::new(&[2, 2], vec![1.5f64, -3.0, 0.25, 1e6]).unwrap());
    let d = g.binary(a, a, |x, y| x - y).unwrap();
    assert_eq!(*g.get(d).data(), vec![0.0f64; 4]);
    assert_eq!(*g.get(d).parents(), vec![a, a]);
}

#[test]
fn division_and_errors() {
    let mut g = Graph::new(0.0f32);
    let a = g.insert(Tensor::new(&[2], vec![1.0f32, 9.0]).unwrap());
    let b = g.insert(Tensor::new(&[2], vec![2.0f32, 3.0]).unwrap());
    let c = g.insert(Tensor::new(&[3], vec![2.0f32, 3.0, 4.0]).unwrap());
    let q = g.binary(a, b, |x, y| x / y).unwrap();
    assert_eq!(*g.get(q).data(), vec![0.5f32, 3.0]);
    assert_eq!(g.binary(a, c, |x, y| x + y), Err(ShapeError::Mismatch));
    assert_eq!(g.binary(a, 99, |x, y| x + y), Err(ShapeError::UnknownTensor));
    assert_eq!(g.len(), 4);
    assert!(g.contains(3));
    assert!(!g.contains(4));
}

#[test]
fn matmul_of_ones() {
    let mut g = Graph::new(0.0f32);
    let a = g.insert(Tensor::<f32>::full(&[2, 3], 1.0));
    let b = g.insert(Tensor::<f32>::full(&[3, 2], 1.0));
    let c = g.matmul(a, b, |x, y| x * y, |x, y| x + y).unwrap();
    assert_eq!(*g.get(c).shape(), Shape::new(&[2, 2]));
    assert_eq!(*g.get(c).data(), vec![3.0f32; 4]);
    assert_eq!(*g.get(c).parents(), vec![a, b]);
}

#[test]
fn matmul_values_and_errors() {
    let mut g = Graph::new(0.0f64);
    let a = g.insert(Tensor::new(&[2, 2], vec![1.0f64, 2.0, 3.0, 4.0]).unwrap());
    let b = g.insert(Tensor::new(&[2, 1], vec![5.0f64, 6.0]).unwrap());
    let c = g.matmul(a, b, |x, y| x * y, |x, y| x + y).unwrap();
    assert_eq!(*g.get(c).data(), vec![17.0f64, 39.0]);
    assert_eq!(*g.get(c).shape(), Shape::new(&[2, 1]));
    assert_eq!(g.matmul(b, a, |x, y| x * y, |x, y| x + y), Err(ShapeError::MatmulShape));
    let v = g.insert(Tensor::new(&[2], vec![1.0f64, 1.0]).unwrap());
    assert_eq!(g.matmul(a, v, |x, y| x * y, |x, y| x + y), Err(ShapeError::MatmulShape));
    let wide = g.insert(Tensor::<f64>::new(&[usize::MAX, 0], vec![]).unwrap());
    let tall = g.insert(Tensor::<f64>::new(&[0, 2], vec![]).unwrap());
    assert_eq!(g.matmul(wide, tall, |x, y| x * y, |x, y| x + y), Err(ShapeError::ElementCount));
    assert_eq!(g.matmul(a, 42, |x, y| x * y, |x, y| x + y), Err(ShapeError::UnknownTensor));
}

#[test]
fn parameters_track_gradients() {
    let p = Parameter::new(&[2, 2], vec![0.5f32; 4], 0.0).unwrap();
    assert!(p.requires_grad());
    assert_eq!(*p.grad().unwrap(), vec![0.0f32; 4]);
    assert_eq!(Parameter::new(&[3], vec![0.5f32; 4], 0.0).unwrap_err(), ShapeError::ElementCount);
}

#[test]
fn affine_module_shapes() {
    let m = Module::affine(3, 2, vec![0.1f32; 6], vec![0.0f32; 2], 0.0).unwrap();
    let ps = m.parameters();
    assert_eq!(ps.len(), 2);
    assert_eq!(*ps[0].shape(), Shape::new(&[3, 2]));
    assert_eq!(*ps[1].shape(), Shape::new(&[2, 1]));
    assert!(ps[0].requires_grad() && ps[1].requires_grad());
    assert!(Module::affine(3, 2, vec![0.1f32; 5], vec![0.0f32; 2], 0.0).is_err());
    assert!(Module::affine(3, 2, vec![0.1f32; 6], vec![0.0f32; 3], 0.0).is_err());
}

#[test]
fn vectors_become_arrays() {
    let a: [u8; 3] = vec_to_array(vec![7u8, 8, 9]).unwrap();
    assert_eq!(a, [7, 8, 9]);
    let b: Result<[u8; 2], ShapeError> = vec_to_array(vec![7u8, 8, 9]);
    assert_eq!(b, Err(ShapeError::ElementCount));
}

fn all_equal(data: &[f32], v: f32) -> bool {
    data.iter().all(|&x| x == v)
}

#[test]
fn ops_add() {
    let mut g = Graph::new(0.0f32);
    let a = g.insert(Tensor::<f32>::full(&[128, 1024], 1.0));
    let b = g.insert(Tensor::<f32>::full(&[128, 1], 1.0));
    g.set_requires_grad(a, true);

    let c = g.binary(a, b, |x, y| x + y).unwrap();
    assert_eq!(*g.get(c).shape(), Shape::new(&[128, 1024]));
    assert!(all_equal(g.get(c).data(), 2.0));

    let d = g.insert(Tensor::<f32>::full(&[128, 1024], 2.0));
    let e = g.binary(c, d, |x, y| x + y).unwrap();
    assert_eq!(*g.get(e).shape(), Shape::new(&[128, 1024]));
    assert!(all_equal(g.get(e).data(), 4.0));
}

#[test]
fn ops_sub() {
    let mut g = Graph::new(0.0f32);
    let a = g.insert(Tensor::<f32>::full(&[32, 3, 256, 256], 1.0));
    let b = g.insert(Tensor::<f32>::full(&[32, 3, 256, 1], 1.0));

    let c = g.binary(a, b, |x, y| x - y).unwrap();
    let d = Tensor::<f32>::full(&[32, 3, 256, 256], 0.0);
    assert_eq!(*g.get(c).shape(), *d.shape());
    assert_eq!(*g.get(c).data(), *d.data());
}

#[test]
fn ops_mul() {
    let mut g = Graph::new(0.0f32);
    let a = g.insert(Tensor::<f32>::full(&[128, 1024], 1.0));
    let b = g.insert(Tensor::<f32>::full(&[128, 1024], 1.0));

    let c = g.binary(a, b, |x, y| x * y).unwrap();
    let d = Tensor::<f32>::full(&[128, 1024], 1.0);
    assert_eq!(*g.get(c).data(), *d.data());
}

#[test]
fn ops_div() {
    let mut g = Graph::new(0.0f32);
    let a = g.insert(Tensor::<f32>::full(&[128, 1024], 1.0));
    let b = g.insert(Tensor::<f32>::full(&[128, 1024], 1.0));
    g.set_requires_grad(a, true);

    let c = g.binary(a, b, |x, y| x / y).unwrap();
    assert_eq!(g.get(c).requires_grad(), true);
    assert!(all_equal(g.get(c).data(), 1.0));
}

#[test]
fn broadcasting_stretches_extents_of_one() {
    let mut g = Graph::new(0.0f32);
    let a = g.insert(Tensor::new(&[2, 3], vec![1.0f32, 2.0, 3.0, 4.0, 5.0, 6.0]).unwrap());
    let b = g.insert(Tensor::new(&[2, 1], vec![10.0f32, 20.0]).unwrap());
    let c = g.binary(a, b, |x, y| x + y).unwrap();
    assert_eq!(*g.get(c).shape(), Shape::new(&[2, 3]));
    assert_eq!(*g.get(c).data(), vec![11.0f32, 12.0, 13.0, 24.0, 25.0, 26.0]);

    let r = g.insert(Tensor::new(&[3], vec![1.0f32, 2.0, 3.0]).unwrap());
    let col = g.insert(Tensor::new(&[2, 1], vec![10.0f32, 20.0]).unwrap());
    let d = g.binary(col, r, |x, y| x - y).unwrap();
    assert_eq!(*g.get(d).shape(), Shape::new(&[2, 3]));
    assert_eq!(*g.get(d).data(), vec![9.0f32, 8.0, 7.0, 19.0, 18.0, 17.0]);
    assert_eq!(*g.get(d).parents(), vec![col, r]);

    let s = g.insert(Tensor::new(&[], vec![2.0f32]).unwrap());
    let e = g.binary(a, s, |x, y| x * y).unwrap();
    assert_eq!(*g.get(e).shape(), Shape::new(&[2, 3]));
    assert_eq!(*g.get(e).data(), vec![2.0f32, 4.0, 6.0, 8.0, 10.0, 12.0]);

    let z = g.insert(Tensor::<f32>::new(&[0, 1], vec![]).unwrap());
    let w = g.binary(z, r, |x, y| x + y).unwrap();
    assert_eq!(*g.get(w).shape(), Shape::new(&[0, 3]));
    assert!(g.get(w).data().is_empty());
}

#[test]
fn incompatible_extents_are_rejected() {
    let mut g = Graph::new(0.0f32);
    let a = g.insert(Tensor::<f32>::full(&[2, 3], 1.0));
    let b = g.insert(Tensor::<f32>::full(&[3, 2], 1.0));
    let c = g.insert(Tensor::<f32>::full(&[4, 2, 3], 1.0));
    assert_eq!(g.binary(a, b, |x, y| x + y), Err(ShapeError::Mismatch));
    assert_eq!(g.binary(b, c, |x, y| x + y), Err(ShapeError::Mismatch));
    let d = g.binary(a, c, |x, y| x + y).unwrap();
    assert_eq!(*g.get(d).shape(), Shape::new(&[4, 2, 3]));
    assert_eq!(g.len(), 4);
}
