use neural_net::{
    imax, Error, Scalar, Vector, VectorUtils, VectorUtilsCopy, VectorUtilsMut,
};

#[derive(Clone, Copy, Debug, PartialEq)]
struct Real(f64);

impl Scalar for Real {
    fn zero() -> Self {
        Real(0.0)
    }
    fn one() -> Self {
        Real(1.0)
    }
    fn from_count(n: usize) -> Self {
        Real(n as f64)
    }
    fn plus(self, rhs: Self) -> Self {
        Real(self.0 + rhs.0)
    }
    fn minus(self, rhs: Self) -> Self {
        Real(self.0 - rhs.0)
    }
    fn times(self, rhs: Self) -> Self {
        Real(self.0 * rhs.0)
    }
    fn over(self, rhs: Self) -> Self {
        Real(self.0 / rhs.0)
    }
    fn negated(self) -> Self {
        Real(-self.0)
    }
    fn exp(self) -> Self {
        Real(self.0.exp())
    }
    fn exceeds(self, rhs: Self) -> bool {
        self.0 > rhs.0
    }
}

fn reals(values: &[f64]) -> Vector<Real> {
    Vector::from_vec(values.iter().map(|&x| Real(x)).collect())
}

#[test]
fn new_vector_is_empty() {
    let v: Vector<i32> = Vector::new();
    assert!(v.is_empty());
    assert_eq!(v.len(), 0);
    assert_eq!(v, Vector::default());
    assert_eq!(v.index(0), Err(Error::IndexOutOfBounds));
    assert_eq!(v.index(-1), Err(Error::IndexOutOfBounds));
}

#[test]
fn from_fn_calls_f_on_each_place() {
    let v = Vector::from_fn(4, |i| i * i).unwrap();
    assert_eq!(v.into_vec(), vec![0, 1, 4, 9]);
    let empty = Vector::from_fn(0, |i| i).unwrap();
    assert!(empty.is_empty());
}

#[test]
fn negative_length_is_no_shape() {
    assert_eq!(Vector::from_fn(-1, |i| i), Err(Error::InvalidShape));
    assert_eq!(Vector::from_val(-3, 7), Err(Error::InvalidShape));
    assert_eq!(Vector::<Real>::zeros(-1), Err(Error::InvalidShape));
}

#[test]
fn from_val_repeats_the_value() {
    assert_eq!(Vector::from_val(3, 7).unwrap().into_vec(), vec![7, 7, 7]);
    assert_eq!(Vector::<Real>::zeros(2).unwrap(), reals(&[0.0, 0.0]));
}

#[test]
fn push_appends() {
    let mut v = Vector::from_vec(vec![1, 2]);
    v.push(3);
    assert_eq!(v.len(), 3);
    assert_eq!(v.index(-1), Ok(&3));
    assert_eq!(v.data(), &[1, 2, 3]);
}

#[test]
fn negative_index_counts_from_the_end() {
    let v = Vector::from_vec(vec![10, 20, 30]);
    assert_eq!(v.index(-1), v.index(2));
    assert_eq!(v.index(-1), Ok(&30));
    assert_eq!(v.index(-3), v.index(0));
    assert_eq!(v.index(-3), Ok(&10));
    assert_eq!(v.index(-4), Err(Error::IndexOutOfBounds));
    assert_eq!(v.index(3), Err(Error::IndexOutOfBounds));
}

#[test]
fn set_replaces_one_item() {
    let mut v = Vector::from_vec(vec![10, 20, 30]);
    assert_eq!(v.set(-2, 25), Ok(()));
    assert_eq!(v.set(0, 5), Ok(()));
    assert_eq!(v.data(), &[5, 25, 30]);
    assert_eq!(v.set(3, 1), Err(Error::IndexOutOfBounds));
    assert_eq!(v.set(-4, 1), Err(Error::IndexOutOfBounds));
    assert_eq!(v.data(), &[5, 25, 30]);
}

#[test]
fn ranges_take_signed_bounds() {
    let v = Vector::from_vec(vec![0, 1, 2, 3, 4]);
    assert_eq!(v.range(1, 3), Ok(&[1, 2][..]));
    assert_eq!(v.range(-3, -1), Ok(&[2, 3][..]));
    assert_eq!(v.range(0, 0), Ok(&[][..]));
    assert_eq!(v.range(3, 1), Err(Error::IndexOutOfBounds));
    assert_eq!(v.range(0, 6), Err(Error::IndexOutOfBounds));
    assert_eq!(v.range_from(-2), Ok(&[3, 4][..]));
    assert_eq!(v.range_from(5), Ok(&[][..]));
    assert_eq!(v.range_from(6), Err(Error::IndexOutOfBounds));
    assert_eq!(v.range_to(-2), Ok(&[0, 1, 2][..]));
    assert_eq!(v.range_to(0), Ok(&[][..]));
    assert_eq!(v.range_to(-6), Err(Error::IndexOutOfBounds));
    assert_eq!(v.range_full(), &[0, 1, 2, 3, 4]);
}

#[test]
fn fixed_bounds_are_offsets() {
    let v = Vector::from_vec(vec![0, 1, 2, 3, 4]);
    assert_eq!(v.fix_start(-1), Ok(4));
    assert_eq!(v.fix_start(2), Ok(2));
    assert_eq!(v.fix_end(-1), Ok(4));
    assert_eq!(v.fix_end(0), Ok(0));
    assert_eq!(v.fix_end(5), Ok(5));
    assert_eq!(v.fix_end(6), Err(Error::IndexOutOfBounds));
    assert_eq!(v.fix_range(-4, -1), Ok((1, 4)));
    assert_eq!(v.fix_range(4, 1), Err(Error::IndexOutOfBounds));
}

#[test]
fn map_and_zip_map_build_new_vectors() {
    let v = Vector::from_vec(vec![1, 2, 3]);
    assert_eq!(v.map(|x| x * 10).into_vec(), vec![10, 20, 30]);
    assert_eq!(v.zip_map(&[5, 6], |(a, b)| a + b).into_vec(), vec![6, 8]);
    assert_eq!(v.zip_map(&[5, 6, 7, 8], |(a, b)| a * b).into_vec(), vec![5, 12, 21]);
    assert_eq!(v.zip(&['a', 'b']), vec![(&1, &'a'), (&2, &'b')]);
}

#[test]
fn map_sum_adds_in_order() {
    let v = Vector::from_vec(vec![1, 2, 3, 4]);
    assert_eq!(v.map_sum(|x| Real(*x as f64 / 2.0)), Real(5.0));
    let empty: Vector<i32> = Vector::new();
    assert_eq!(empty.map_sum(|x| Real(*x as f64)), Real(0.0));
}

#[test]
fn apply_and_zip_apply_change_in_place() {
    let mut v = Vector::from_vec(vec![1, 2, 3]);
    v.apply(|x| x + 1);
    assert_eq!(v.data(), &[2, 3, 4]);
    let mut other = [10, 20];
    v.zip_apply(&mut other, |(a, b)| (a + b, a * b));
    assert_eq!(v.data(), &[12, 23, 4]);
    assert_eq!(other, [20, 60]);
    v.put(2, 9);
    assert_eq!(v.data(), &[12, 23, 9]);
}

#[test]
fn shuffle_keeps_the_items() {
    let mut v = Vector::from_vec((0..50).collect::<Vec<i32>>());
    let mut moved = false;
    for _ in 0..20 {
        let before = v.clone();
        v.shuffle();
        if v != before {
            moved = true;
        }
        let mut sorted = v.clone().into_vec();
        sorted.sort();
        assert_eq!(sorted, (0..50).collect::<Vec<i32>>());
    }
    assert!(moved);
    assert_eq!(v.len(), 50);
}

#[test]
fn free_shuffle_keeps_the_items() {
    let mut items: Vec<u8> = (0..100).collect();
    let mut moved = false;
    for _ in 0..20 {
        let before = items.clone();
        neural_net::shuffle(&mut items);
        if items != before {
            moved = true;
        }
        let mut sorted = items.clone();
        sorted.sort();
        assert_eq!(sorted, (0..100).collect::<Vec<u8>>());
    }
    assert!(moved);
    let mut none: Vec<u8> = Vec::new();
    neural_net::shuffle(&mut none);
    assert!(none.is_empty());
}

#[test]
fn clone_is_independent() {
    let v = Vector::from_vec(vec![1, 2, 3]);
    let mut w = v.clone();
    assert_eq!(w.set(0, 9), Ok(()));
    assert_eq!(v.data(), &[1, 2, 3]);
    assert_eq!(w.data(), &[9, 2, 3]);
}

#[test]
fn vector_sum_is_placewise() {
    let a = reals(&[1.0, 2.0, 3.0]);
    let b = reals(&[0.5, 0.25, -3.0]);
    assert_eq!(a.add(&b), Ok(reals(&[1.5, 2.25, 0.0])));
    assert_eq!(a.sub(&b), Ok(reals(&[0.5, 1.75, 6.0])));
    assert_eq!(a.hadamard(&b), Ok(reals(&[0.5, 0.5, -9.0])));
    assert_eq!(a.scale(Real(-2.0)), reals(&[-2.0, -4.0, -6.0]));
}

#[test]
fn vectors_of_different_lengths_do_not_combine() {
    let a = reals(&[1.0, 2.0, 3.0]);
    let b = reals(&[1.0]);
    assert_eq!(a.add(&b), Err(Error::ShapeMismatch));
    assert_eq!(a.sub(&b), Err(Error::ShapeMismatch));
    assert_eq!(a.hadamard(&b), Err(Error::ShapeMismatch));
    assert_eq!(b.add(&a), Err(Error::ShapeMismatch));
}

#[test]
fn vector_sum_commutes() {
    let a = reals(&[1.5, -2.0, 1e300, 0.1]);
    let b = reals(&[0.25, 7.0, -1e300, 0.2]);
    assert_eq!(a.add(&b), b.add(&a));
}

#[test]
fn vector_difference_adds_the_negative() {
    let a = reals(&[1.5, -2.0, 3.0, 0.1]);
    let b = reals(&[0.25, 7.0, -1.0, 0.2]);
    let minus_one = Real::one().negated();
    assert_eq!(a.sub(&b), a.add(&b.scale(minus_one)));
}

#[test]
fn argmax_takes_the_first_of_equal_maxima() {
    assert_eq!(imax(&reals(&[0.1, 0.9, 0.9, 0.2])), 1);
    assert_eq!(imax(&reals(&[3.0])), 0);
    assert_eq!(imax(&reals(&[-1.0, -2.0, -0.5])), 2);
    assert_eq!(imax(&reals(&[2.0, 2.0, 2.0])), 0);
    assert_eq!(imax(&reals(&[f64::NEG_INFINITY, f64::MIN])), 1);
}
