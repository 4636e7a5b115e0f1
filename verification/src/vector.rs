use crate::scalar::{AddOp, MulOp, SubOp, Zero};
use crate::sums::sum_upto;
use vstd::prelude::*;

verus! {

/// A fixed-length ordered sequence of `N` scalars. The length is part
/// of the type, so operand lengths are checked at compile time.
#[derive(Clone, Debug, PartialEq, Eq)]
pub struct Vector<T, const N: usize> {
    data: Vec<T>,
}

impl<T, const N: usize> View for Vector<T, N> {
    type V = Seq<T>;

    closed spec fn view(&self) -> Seq<T> {
        self.data@
    }
}

/// The dot product of two flat sequences taken over their first `n`
/// positions, folded from the additive identity.
pub open spec fn dot_of<T: AddOp + MulOp + Zero>(a: Seq<T>, b: Seq<T>, n: int) -> T {
    sum_upto((|k: int| a[k].mul_spec(b[k])), n)
}

impl<T, const N: usize> Vector<T, N> {
    /// The backing sequence holds exactly `N` elements.
    pub closed spec fn wf(self) -> bool {
        self.data@.len() == N as int
    }

    /// Wraps an ordered sequence of exactly `N` values.
    pub fn new(values: Vec<T>) -> (r: Self)
        requires
            values@.len() == N as int,
        ensures
            r.wf(),
            r@ == values@,
    {
        Vector { data: values }
    }
}

impl<T: Zero, const N: usize> Vector<T, N> {
    /// The vector whose every element is the additive identity.
    pub fn zero() -> (r: Self)
        ensures
            r.wf(),
            forall|k: int| 0 <= k < N as int ==> r@[k] == T::zero_spec(),
    {
        let mut data: Vec<T> = Vec::new();
        let mut k: usize = 0;
        while k < N
            invariant
                k <= N,
                data@.len() == k as int,
                forall|n: int| 0 <= n < k as int ==> data@[n] == T::zero_spec(),
            decreases N - k,
        {
            data.push(T::zero());
            k = k + 1;
        }
        Vector { data }
    }
}

impl<T: Copy, const N: usize> Vector<T, N> {
    /// The vector whose every element equals `value`.
    pub fn fill(value: T) -> (r: Self)
        ensures
            r.wf(),
            forall|k: int| 0 <= k < N as int ==> r@[k] == value,
    {
        let mut data: Vec<T> = Vec::new();
        let mut k: usize = 0;
        while k < N
            invariant
                k <= N,
                data@.len() == k as int,
                forall|n: int| 0 <= n < k as int ==> data@[n] == value,
            decreases N - k,
        {
            data.push(value);
            k = k + 1;
        }
        Vector { data }
    }

    /// The element at position `i`, zero-based.
    pub fn get(&self, i: usize) -> (r: T)
        requires
            self.wf(),
            i < N,
        ensures
            r == self@[i as int],
    {
        self.data[i]
    }
}

impl<T: AddOp, const N: usize> Vector<T, N> {
    /// Elementwise sum of two equally long vectors.
    pub fn add(&self, rhs: &Self) -> (r: Self)
        requires
            self.wf(),
            rhs.wf(),
        ensures
            r.wf(),
            forall|k: int| 0 <= k < N as int ==> r@[k] == self@[k].add_spec(rhs@[k]),
    {
        let mut data: Vec<T> = Vec::new();
        let mut k: usize = 0;
        while k < N
            invariant
                k <= N,
                self.wf(),
                rhs.wf(),
                data@.len() == k as int,
                forall|n: int| 0 <= n < k as int ==> data@[n] == self@[n].add_spec(rhs@[n]),
            decreases N - k,
        {
            data.push(self.data[k].add_val(rhs.data[k]));
            k = k + 1;
        }
        Vector { data }
    }
}

impl<T: SubOp, const N: usize> Vector<T, N> {
    /// Elementwise difference of two equally long vectors.
    pub fn sub(&self, rhs: &Self) -> (r: Self)
        requires
            self.wf(),
            rhs.wf(),
        ensures
            r.wf(),
            forall|k: int| 0 <= k < N as int ==> r@[k] == self@[k].sub_spec(rhs@[k]),
    {
        let mut data: Vec<T> = Vec::new();
        let mut k: usize = 0;
        while k < N
            invariant
                k <= N,
                self.wf(),
                rhs.wf(),
                data@.len() == k as int,
                forall|n: int| 0 <= n < k as int ==> data@[n] == self@[n].sub_spec(rhs@[n]),
            decreases N - k,
        {
            data.push(self.data[k].sub_val(rhs.data[k]));
            k = k + 1;
        }
        Vector { data }
    }
}

impl<T: MulOp, const N: usize> Vector<T, N> {
    /// Every element multiplied on the right by the same scalar.
    pub fn scale(&self, s: T) -> (r: Self)
        requires
            self.wf(),
        ensures
            r.wf(),
            forall|k: int| 0 <= k < N as int ==> r@[k] == self@[k].mul_spec(s),
    {
        let mut data: Vec<T> = Vec::new();
        let mut k: usize = 0;
        while k < N
            invariant
                k <= N,
                self.wf(),
                data@.len() == k as int,
                forall|n: int| 0 <= n < k as int ==> data@[n] == self@[n].mul_spec(s),
            decreases N - k,
        {
            data.push(self.data[k].mul_val(s));
            k = k + 1;
        }
        Vector { data }
    }
}

impl<T: AddOp + MulOp + Zero, const N: usize> Vector<T, N> {
    /// The dot product: the sum of the elementwise products of the two
    /// vectors, folded from the additive identity.
    pub fn dot(&self, other: &Self) -> (r: T)
        requires
            self.wf(),
            other.wf(),
        ensures
            r == dot_of(self@, other@, N as int),
    {
        let mut acc: T = T::zero();
        let mut k: usize = 0;
        while k < N
            invariant
                k <= N,
                self.wf(),
                other.wf(),
                acc == sum_upto((|x: int| self@[x].mul_spec(other@[x])), k as int),
            decreases N - k,
        {
            let term = self.data[k].mul_val(other.data[k]);
            acc = acc.add_val(term);
            k = k + 1;
        }
        acc
    }
}

} // verus!
