//! A dense vector with signed addressing.

use vstd::prelude::*;
use crate::error::Error;
use crate::index::{names_cut, names_item, names_run, resolve_cut, resolve_item, resolve_run, wrapped};
use crate::kernels::{
    difference_of, hadamard_of, is_difference_of, is_hadamard_of, is_scaled, is_sum_of,
    is_total, is_zeros, scaled, sum_of, total, zeros,
};
use crate::scalar::Scalar;
use crate::utils::shuffle;

verus! {

/// An ordered run of items, addressed from the front by `0, 1, ..` and from
/// the back by `-1, -2, ..`.
#[derive(Debug, PartialEq)]
pub struct Vector<T> {
    data: Vec<T>,
}

impl<T> View for Vector<T> {
    type V = Seq<T>;

    closed spec fn view(&self) -> Seq<T> {
        self.data@
    }
}

impl<T> Vector<T> {
    /// Every length fits a signed index.
    #[verifier::type_invariant]
    spec fn length_is_signed(self) -> bool {
        self.data.len() <= isize::MAX
    }

    /// The empty vector.
    pub fn new() -> (r: Self)
        ensures
            r@ == Seq::<T>::empty(),
    {
        Vector { data: Vec::new() }
    }

    /// The vector of `f(0), f(1), .., f(len - 1)`; a negative length is
    /// refused.
    pub fn from_fn<F: Fn(isize) -> T>(len: isize, f: F) -> (r: Result<Self, Error>)
        requires
            forall|i: isize| 0 <= i < len ==> f.requires((i,)),
        ensures
            len < 0 <==> r is Err,
            r is Err ==> r == Err::<Self, Error>(Error::InvalidShape),
            r is Ok ==> r.unwrap()@.len() == len && forall|i: isize|
                0 <= i < len ==> f.ensures((i,), #[trigger] r.unwrap()@[i as int]),
    {
        if len < 0 {
            return Err(Error::InvalidShape);
        }
        let mut data: Vec<T> = Vec::new();
        let mut i: isize = 0;
        while i < len
            invariant
                0 <= i <= len,
                data.len() == i,
                forall|k: isize| 0 <= k < len ==> f.requires((k,)),
                forall|k: isize| 0 <= k < i ==> f.ensures((k,), #[trigger] data@[k as int]),
            decreases len - i,
        {
            data.push(f(i));
            i += 1;
        }
        Ok(Vector { data })
    }

    /// The vector that holds the items of `data`, in their order.
    pub fn from_vec(data: Vec<T>) -> (r: Self)
        requires
            data.len() <= isize::MAX,
        ensures
            r@ == data@,
    {
        Vector { data }
    }

    /// Appends `val`.
    pub fn push(&mut self, val: T)
        requires
            old(self)@.len() < isize::MAX,
        ensures
            final(self)@ == old(self)@.push(val),
    {
        let mut data: Vec<T> = Vec::new();
        core::mem::swap(&mut self.data, &mut data);
        data.push(val);
        self.data = data;
    }

    /// Gives the items back as a plain `Vec`.
    pub fn into_vec(self) -> (r: Vec<T>)
        ensures
            r@ == self@,
    {
        self.data
    }

    /// The item that the signed index names.
    pub fn index(&self, index: isize) -> (r: Result<&T, Error>)
        ensures
            names_item(self@.len() as int, index as int) ==> r == Ok::<&T, Error>(
                &self@[wrapped(self@.len() as int, index as int)],
            ),
            !names_item(self@.len() as int, index as int) ==> r == Err::<&T, Error>(
                Error::IndexOutOfBounds,
            ),
    {
        proof {
            use_type_invariant(self);
        }
        match resolve_item(self.data.len(), index) {
            Ok(offset) => Ok(&self.data[offset]),
            Err(e) => Err(e),
        }
    }

    /// Puts `val` in the place that the signed index names.
    pub fn set(&mut self, index: isize, val: T) -> (r: Result<(), Error>)
        ensures
            names_item(old(self)@.len() as int, index as int) ==> r == Ok::<(), Error>(())
                && final(self)@ == old(self)@.update(
                wrapped(old(self)@.len() as int, index as int),
                val,
            ),
            !names_item(old(self)@.len() as int, index as int) ==> r == Err::<(), Error>(
                Error::IndexOutOfBounds,
            ) && final(self)@ == old(self)@,
    {
        proof {
            use_type_invariant(&*self);
        }
        match resolve_item(self.data.len(), index) {
            Ok(offset) => {
                self.data[offset] = val;
                Ok(())
            },
            Err(e) => Err(e),
        }
    }

    /// The items of the signed half-open range `start..end`.
    pub fn range(&self, start: isize, end: isize) -> (r: Result<&[T], Error>)
        ensures
            names_run(self@.len() as int, start as int, end as int) ==> r is Ok && r.unwrap()@
                == self@.subrange(
                wrapped(self@.len() as int, start as int),
                wrapped(self@.len() as int, end as int),
            ),
            !names_run(self@.len() as int, start as int, end as int) ==> r == Err::<&[T], Error>(
                Error::IndexOutOfBounds,
            ),
    {
        proof {
            use_type_invariant(self);
        }
        match resolve_run(self.data.len(), start, end) {
            Ok((from, to)) => Ok(&self.data.as_slice()[from..to]),
            Err(e) => Err(e),
        }
    }

    /// The items from the signed index `start` to the end.
    pub fn range_from(&self, start: isize) -> (r: Result<&[T], Error>)
        ensures
            names_cut(self@.len() as int, start as int) ==> r is Ok && r.unwrap()@
                == self@.subrange(wrapped(self@.len() as int, start as int), self@.len() as int),
            !names_cut(self@.len() as int, start as int) ==> r == Err::<&[T], Error>(
                Error::IndexOutOfBounds,
            ),
    {
        proof {
            use_type_invariant(self);
        }
        let len = self.data.len();
        match resolve_cut(len, start) {
            Ok(from) => Ok(&self.data.as_slice()[from..len]),
            Err(e) => Err(e),
        }
    }

    /// The items from the start to the signed index `end`.
    pub fn range_to(&self, end: isize) -> (r: Result<&[T], Error>)
        ensures
            names_cut(self@.len() as int, end as int) ==> r is Ok && r.unwrap()@
                == self@.subrange(0, wrapped(self@.len() as int, end as int)),
            !names_cut(self@.len() as int, end as int) ==> r == Err::<&[T], Error>(
                Error::IndexOutOfBounds,
            ),
    {
        proof {
            use_type_invariant(self);
        }
        match resolve_cut(self.data.len(), end) {
            Ok(to) => Ok(&self.data.as_slice()[0..to]),
            Err(e) => Err(e),
        }
    }

    /// All the items.
    pub fn range_full(&self) -> (r: &[T])
        ensures
            r@ == self@,
    {
        self.data.as_slice()
    }
}

impl<T: Copy> Vector<T> {
    /// The vector of `len` copies of `val`; a negative length is refused.
    pub fn from_val(len: isize, val: T) -> (r: Result<Self, Error>)
        ensures
            len < 0 <==> r is Err,
            r is Err ==> r == Err::<Self, Error>(Error::InvalidShape),
            r is Ok ==> r.unwrap()@ == Seq::new(len as nat, |i: int| val),
    {
        if len < 0 {
            return Err(Error::InvalidShape);
        }
        let mut data: Vec<T> = Vec::new();
        let mut i: isize = 0;
        while i < len
            invariant
                0 <= i <= len,
                data@ == Seq::new(i as nat, |k: int| val),
            decreases len - i,
        {
            data.push(val);
            i += 1;
        }
        Ok(Vector { data })
    }
}

/// The smaller of two lengths.
pub open spec fn shorter(a: nat, b: nat) -> nat {
    if a <= b {
        a
    } else {
        b
    }
}

/// What can be done with anything that shows its items as a slice.
pub trait VectorUtils<T>: View<V = Seq<T>> {
    /// The items, in their order.
    fn data(&self) -> (r: &[T])
        ensures
            r@ == self@,
            r@.len() <= isize::MAX,
    ;

    /// The number of items.
    fn len(&self) -> (r: isize)
        ensures
            r == self@.len(),
    {
        self.data().len() as isize
    }

    /// Whether there is no item.
    fn is_empty(&self) -> (r: bool)
        ensures
            r <==> self@.len() == 0,
    {
        self.data().len() == 0
    }

    /// The vector of what `f` makes of each item.
    fn map<U, F: Fn(&T) -> U>(&self, f: F) -> (r: Vector<U>)
        requires
            forall|i: int| 0 <= i < self@.len() ==> f.requires((&#[trigger] self@[i],)),
        ensures
            r@.len() == self@.len(),
            forall|i: int| 0 <= i < r@.len() ==> f.ensures((&self@[i],), #[trigger] r@[i]),
    {
        let data = self.data();
        let mut out: Vec<U> = Vec::new();
        let mut i: usize = 0;
        while i < data.len()
            invariant
                i <= data@.len(),
                data@ == self@,
                data@.len() <= isize::MAX,
                out@.len() == i,
                forall|k: int| 0 <= k < self@.len() ==> f.requires((&#[trigger] self@[k],)),
                forall|k: int| 0 <= k < i ==> f.ensures((&self@[k],), #[trigger] out@[k]),
            decreases data@.len() - i,
        {
            out.push(f(&data[i]));
            i += 1;
        }
        Vector::from_vec(out)
    }

    /// The vector of what `f` makes of each pair of items that stand at one
    /// place in `self` and in `other`; it ends where the shorter of them
    /// ends.
    fn zip_map<U, V, F: Fn((&T, &U)) -> V>(&self, other: &[U], f: F) -> (r: Vector<V>)
        requires
            forall|i: int|
                0 <= i < shorter(self@.len(), other@.len()) ==> f.requires(
                    ((&#[trigger] self@[i], &other@[i]),),
                ),
        ensures
            r@.len() == shorter(self@.len(), other@.len()),
            forall|i: int|
                0 <= i < r@.len() ==> f.ensures(((&self@[i], &other@[i]),), #[trigger] r@[i]),
    {
        let data = self.data();
        let mut out: Vec<V> = Vec::new();
        let mut i: usize = 0;
        while i < data.len() && i < other.len()
            invariant
                i <= data@.len(),
                i <= other@.len(),
                data@ == self@,
                data@.len() <= isize::MAX,
                out@.len() == i,
                forall|k: int|
                    0 <= k < shorter(self@.len(), other@.len()) ==> f.requires(
                        ((&#[trigger] self@[k], &other@[k]),),
                    ),
                forall|k: int|
                    0 <= k < i ==> f.ensures(((&self@[k], &other@[k]),), #[trigger] out@[k]),
            decreases data@.len() - i,
        {
            out.push(f((&data[i], &other[i])));
            i += 1;
        }
        Vector::from_vec(out)
    }

    /// The sum of what `f` makes of each item, added to a zero in the
    /// items' order.
    fn map_sum<U: Scalar, F: Fn(&T) -> U>(&self, f: F) -> (r: U)
        requires
            forall|i: int| 0 <= i < self@.len() ==> f.requires((&#[trigger] self@[i],)),
        ensures
            exists|terms: Seq<U>|
                {
                    &&& #[trigger] terms.len() == self@.len()
                    &&& forall|i: int|
                        0 <= i < terms.len() ==> f.ensures((&self@[i],), #[trigger] terms[i])
                    &&& is_total(terms, r)
                },
    {
        let terms = self.map(f);
        total(terms.range_full())
    }

    /// The pairs of items that stand at one place in `self` and in `other`,
    /// up to where the shorter of them ends.
    fn zip<'a, U>(&'a self, other: &'a [U]) -> (r: Vec<(&'a T, &'a U)>)
        ensures
            r@.len() == shorter(self@.len(), other@.len()),
            forall|i: int|
                0 <= i < r@.len() ==> *(#[trigger] r@[i]).0 == self@[i] && *r@[i].1 == other@[i],
    {
        let data = self.data();
        let mut out: Vec<(&'a T, &'a U)> = Vec::new();
        let mut i: usize = 0;
        while i < data.len() && i < other.len()
            invariant
                i <= data@.len(),
                i <= other@.len(),
                data@ == self@,
                out@.len() == i,
                forall|k: int|
                    0 <= k < i ==> *(#[trigger] out@[k]).0 == self@[k] && *out@[k].1 == other@[k],
            decreases data@.len() - i,
        {
            out.push((&data[i], &other[i]));
            i += 1;
        }
        out
    }

    /// The offset of the cut that a signed index names as the start of a
    /// range.
    fn fix_start(&self, start: isize) -> (r: Result<usize, Error>)
        ensures
            names_cut(self@.len() as int, start as int) ==> r == Ok::<usize, Error>(
                wrapped(self@.len() as int, start as int) as usize,
            ),
            !names_cut(self@.len() as int, start as int) ==> r == Err::<usize, Error>(
                Error::IndexOutOfBounds,
            ),
    {
        resolve_cut(self.data().len(), start)
    }

    /// The offset of the cut that a signed index names as the end of a
    /// range.
    fn fix_end(&self, end: isize) -> (r: Result<usize, Error>)
        ensures
            names_cut(self@.len() as int, end as int) ==> r == Ok::<usize, Error>(
                wrapped(self@.len() as int, end as int) as usize,
            ),
            !names_cut(self@.len() as int, end as int) ==> r == Err::<usize, Error>(
                Error::IndexOutOfBounds,
            ),
    {
        resolve_cut(self.data().len(), end)
    }

    /// The pair of offsets that a signed half-open range names.
    fn fix_range(&self, start: isize, end: isize) -> (r: Result<(usize, usize), Error>)
        ensures
            names_run(self@.len() as int, start as int, end as int) ==> r == Ok::<
                (usize, usize),
                Error,
            >(
                (
                    wrapped(self@.len() as int, start as int) as usize,
                    wrapped(self@.len() as int, end as int) as usize,
                ),
            ),
            !names_run(self@.len() as int, start as int, end as int) ==> r == Err::<
                (usize, usize),
                Error,
            >(Error::IndexOutOfBounds),
    {
        resolve_run(self.data().len(), start, end)
    }
}

impl<T> VectorUtils<T> for Vector<T> {
    fn data(&self) -> (r: &[T]) {
        proof {
            use_type_invariant(self);
        }
        self.data.as_slice()
    }
}

/// What can be done with anything whose items can be replaced one by one.
pub trait VectorUtilsMut<T>: VectorUtils<T> {
    /// Puts `val` at the plain offset `offset`.
    fn put(&mut self, offset: usize, val: T)
        requires
            offset < old(self)@.len(),
        ensures
            final(self)@ == old(self)@.update(offset as int, val),
    ;

    /// Replaces every item by what `f` makes of it.
    fn apply<F: Fn(&T) -> T>(&mut self, f: F)
        requires
            forall|i: int| 0 <= i < old(self)@.len() ==> f.requires((&#[trigger] old(self)@[i],)),
        ensures
            final(self)@.len() == old(self)@.len(),
            forall|i: int|
                0 <= i < old(self)@.len() ==> f.ensures(
                    (&old(self)@[i],),
                    #[trigger] final(self)@[i],
                ),
    {
        let ghost before = self@;
        let n = self.data().len();
        let mut i: usize = 0;
        while i < n
            invariant
                i <= n,
                n == before.len(),
                self@.len() == n,
                forall|k: int| 0 <= k < n ==> f.requires((&#[trigger] before[k],)),
                forall|k: int| 0 <= k < i ==> f.ensures((&before[k],), #[trigger] self@[k]),
                forall|k: int| i <= k < n ==> self@[k] == before[k],
            decreases n - i,
        {
            assert(self@[i as int] == before[i as int]);
            let val = f(&self.data()[i]);
            self.put(i, val);
            i += 1;
        }
    }

    /// Replaces every pair of items that stand at one place in `self` and
    /// in `other` by what `f` makes of the pair, up to where the shorter of
    /// them ends.
    fn zip_apply<U, F: Fn((&T, &U)) -> (T, U)>(&mut self, other: &mut [U], f: F)
        requires
            forall|i: int|
                0 <= i < shorter(old(self)@.len(), old(other)@.len()) ==> f.requires(
                    ((&#[trigger] old(self)@[i], &old(other)@[i]),),
                ),
        ensures
            final(self)@.len() == old(self)@.len(),
            final(other)@.len() == old(other)@.len(),
            forall|i: int|
                0 <= i < shorter(old(self)@.len(), old(other)@.len()) ==> f.ensures(
                    ((&old(self)@[i], &old(other)@[i]),),
                    (#[trigger] final(self)@[i], final(other)@[i]),
                ),
            forall|i: int|
                old(other)@.len() <= i < old(self)@.len() ==> #[trigger] final(self)@[i] == old(
                    self,
                )@[i],
            forall|i: int|
                old(self)@.len() <= i < old(other)@.len() ==> #[trigger] final(other)@[i] == old(
                    other,
                )@[i],
    {
        let ghost before = self@;
        let ghost partner = other@;
        let n = self.data().len();
        let m = other.len();
        let mut i: usize = 0;
        while i < n && i < m
            invariant
                i <= n,
                i <= m,
                n == before.len(),
                m == partner.len(),
                self@.len() == n,
                other@.len() == m,
                forall|k: int|
                    0 <= k < shorter(before.len(), partner.len()) ==> f.requires(
                        ((&#[trigger] before[k], &partner[k]),),
                    ),
                forall|k: int|
                    0 <= k < i ==> f.ensures(
                        ((&before[k], &partner[k]),),
                        (#[trigger] self@[k], other@[k]),
                    ),
                forall|k: int| i <= k < n ==> self@[k] == before[k],
                forall|k: int| i <= k < m ==> other@[k] == partner[k],
            decreases n - i,
        {
            assert(self@[i as int] == before[i as int] && other@[i as int] == partner[i as int]);
            let (a, b) = f((&self.data()[i], &other[i]));
            self.put(i, a);
            other[i] = b;
            i += 1;
        }
    }
}

/// What can be done with anything whose items can change places.
pub trait VectorUtilsCopy<T>: VectorUtilsMut<T> {
    /// Reorders the items at random: the same items are there afterwards,
    /// each as often as before.
    fn shuffle(&mut self)
        ensures
            final(self)@.len() == old(self)@.len(),
            final(self)@.to_multiset() == old(self)@.to_multiset(),
    ;
}

impl<T> VectorUtilsMut<T> for Vector<T> {
    fn put(&mut self, offset: usize, val: T) {
        proof {
            use_type_invariant(&*self);
        }
        self.data[offset] = val;
    }
}

impl<T> VectorUtilsCopy<T> for Vector<T> {
    fn shuffle(&mut self) {
        proof {
            use_type_invariant(&*self);
        }
        let mut data: Vec<T> = Vec::new();
        core::mem::swap(&mut self.data, &mut data);
        shuffle(data.as_mut_slice());
        self.data = data;
    }
}

impl<T> Default for Vector<T> {
    /// The empty vector.
    fn default() -> (r: Self)
        ensures
            r@ == Seq::<T>::empty(),
    {
        Vector { data: Vec::new() }
    }
}

impl<T: Copy> Clone for Vector<T> {
    /// An independent copy with the same items.
    fn clone(&self) -> (r: Self)
        ensures
            r@ == self@,
    {
        proof {
            use_type_invariant(self);
        }
        let n = self.data.len();
        let mut data: Vec<T> = Vec::new();
        let mut i: usize = 0;
        while i < n
            invariant
                i <= n,
                n == self.data@.len(),
                data@ == self.data@.subrange(0, i as int),
            decreases n - i,
        {
            data.push(self.data[i]);
            i += 1;
        }
        Vector { data }
    }
}

impl<T: Scalar> Vector<T> {
    /// The vector of `len` zeros; a negative length is refused.
    pub fn zeros(len: isize) -> (r: Result<Self, Error>)
        ensures
            len < 0 <==> r is Err,
            r is Err ==> r == Err::<Self, Error>(Error::InvalidShape),
            r is Ok ==> r.unwrap()@.len() == len && is_zeros(r.unwrap()@),
    {
        if len < 0 {
            return Err(Error::InvalidShape);
        }
        Ok(Vector { data: zeros(len as usize) })
    }

    /// The sum of two vectors of one length, place by place.
    pub fn add(&self, other: &Self) -> (r: Result<Self, Error>)
        ensures
            self@.len() != other@.len() <==> r is Err,
            r is Err ==> r == Err::<Self, Error>(Error::ShapeMismatch),
            r is Ok ==> is_sum_of(self@, other@, r.unwrap()@),
    {
        proof {
            use_type_invariant(self);
        }
        if self.data.len() != other.data.len() {
            return Err(Error::ShapeMismatch);
        }
        Ok(Vector { data: sum_of(self.data.as_slice(), other.data.as_slice()) })
    }

    /// The difference of two vectors of one length, place by place.
    pub fn sub(&self, other: &Self) -> (r: Result<Self, Error>)
        ensures
            self@.len() != other@.len() <==> r is Err,
            r is Err ==> r == Err::<Self, Error>(Error::ShapeMismatch),
            r is Ok ==> is_difference_of(self@, other@, r.unwrap()@),
    {
        proof {
            use_type_invariant(self);
        }
        if self.data.len() != other.data.len() {
            return Err(Error::ShapeMismatch);
        }
        Ok(Vector { data: difference_of(self.data.as_slice(), other.data.as_slice()) })
    }

    /// The Hadamard product of two vectors of one length.
    pub fn hadamard(&self, other: &Self) -> (r: Result<Self, Error>)
        ensures
            self@.len() != other@.len() <==> r is Err,
            r is Err ==> r == Err::<Self, Error>(Error::ShapeMismatch),
            r is Ok ==> is_hadamard_of(self@, other@, r.unwrap()@),
    {
        proof {
            use_type_invariant(self);
        }
        if self.data.len() != other.data.len() {
            return Err(Error::ShapeMismatch);
        }
        Ok(Vector { data: hadamard_of(self.data.as_slice(), other.data.as_slice()) })
    }

    /// The vector with every item multiplied by `k`.
    pub fn scale(&self, k: T) -> (r: Self)
        ensures
            is_scaled(self@, k, r@),
    {
        proof {
            use_type_invariant(self);
        }
        Vector { data: scaled(self.data.as_slice(), k) }
    }
}

} // verus!
