use crate::scalar::{AddOp, EqTest, MulOp, One, RingLaws, SubOp, Zero};
use crate::sums::{
    lemma_sum_congruence, lemma_sum_mul_left, lemma_sum_mul_right, lemma_sum_single,
    lemma_sum_swap, sum_upto,
};
use vstd::arithmetic::div_mod::{lemma_fundamental_div_mod, lemma_fundamental_div_mod_converse};
use vstd::prelude::*;

verus! {

/// A dense `R` by `C` grid over the scalar type `T`, held flat in
/// row-major order: the element at row `i`, column `j` sits at offset
/// `i * C + j`. The dimensions are part of the type, so operand shapes
/// are checked at compile time.
#[derive(Clone, Debug, PartialEq, Eq)]
pub struct Matrix<T, const R: usize, const C: usize> {
    data: Vec<T>,
}

impl<T, const R: usize, const C: usize> View for Matrix<T, R, C> {
    type V = Seq<T>;

    closed spec fn view(&self) -> Seq<T> {
        self.data@
    }
}

/// Row-major offset of row `i`, column `j` in a grid of `cols` columns.
pub open spec fn flat(cols: int, i: int, j: int) -> int {
    i * cols + j
}

/// A row-major offset determines its row and column, and lies below
/// `rows * cols`.
pub proof fn lemma_flat_index(i: int, j: int, rows: int, cols: int)
    requires
        0 <= i < rows,
        0 <= j < cols,
    ensures
        0 <= flat(cols, i, j) < rows * cols,
        flat(cols, i, j) / cols == i,
        flat(cols, i, j) % cols == j,
{
    lemma_fundamental_div_mod_converse(i * cols + j, cols, i, j);
    assert(0 <= i * cols + j < rows * cols) by (nonlinear_arith)
        requires
            0 <= i < rows,
            0 <= j < cols,
    ;
}

/// Elementwise sum of two equally long flat grids.
pub open spec fn add_of<T: AddOp>(a: Seq<T>, b: Seq<T>) -> Seq<T> {
    Seq::new(a.len(), (|k: int| a[k].add_spec(b[k])))
}

/// Elementwise difference of two equally long flat grids.
pub open spec fn sub_of<T: SubOp>(a: Seq<T>, b: Seq<T>) -> Seq<T> {
    Seq::new(a.len(), (|k: int| a[k].sub_spec(b[k])))
}

/// Every element multiplied on the right by the same scalar.
pub open spec fn scale_of<T: MulOp>(a: Seq<T>, c: T) -> Seq<T> {
    Seq::new(a.len(), (|k: int| a[k].mul_spec(c)))
}

/// The transpose of a `rows` by `cols` grid: a `cols` by `rows` grid
/// whose element at row `j`, column `i` is the input's element at row
/// `i`, column `j`.
pub open spec fn transpose_of<T>(a: Seq<T>, rows: int, cols: int) -> Seq<T> {
    Seq::new((cols * rows) as nat, (|k: int| a[flat(cols, k % rows, k / rows)]))
}

/// One entry of a matrix product: the inner-dimension sum
/// `a[i, 0] * b[0, j] + ... + a[i, inner - 1] * b[inner - 1, j]`,
/// folded from the additive identity.
pub open spec fn cell_of<T: AddOp + MulOp + Zero>(
    a: Seq<T>,
    b: Seq<T>,
    inner: int,
    bcols: int,
    i: int,
    j: int,
) -> T {
    sum_upto((|k: int| a[flat(inner, i, k)].mul_spec(b[flat(bcols, k, j)])), inner)
}

/// The product of a `rows` by `inner` grid and an `inner` by `bcols`
/// grid: a `rows` by `bcols` grid of inner-dimension sums.
pub open spec fn mul_of<T: AddOp + MulOp + Zero>(
    a: Seq<T>,
    b: Seq<T>,
    rows: int,
    inner: int,
    bcols: int,
) -> Seq<T> {
    Seq::new((rows * bcols) as nat, (|k: int| cell_of(a, b, inner, bcols, k / bcols, k % bcols)))
}

impl<T, const R: usize, const C: usize> Matrix<T, R, C> {
    /// The backing sequence holds exactly one element per grid cell.
    pub closed spec fn wf(self) -> bool {
        self.data@.len() == (R as int) * (C as int)
    }

    /// The element at row `i`, column `j`.
    pub closed spec fn at(self, i: int, j: int) -> T {
        self.data@[flat(C as int, i, j)]
    }

    /// Wraps a flat row-major sequence of exactly `R * C` values.
    pub fn new(vals: Vec<T>) -> (r: Self)
        requires
            vals@.len() == (R as int) * (C as int),
        ensures
            r.wf(),
            r@ == vals@,
    {
        Matrix { data: vals }
    }
}

impl<T: Zero, const R: usize, const C: usize> Matrix<T, R, C> {
    /// The matrix whose every element is the additive identity.
    pub fn zeroes() -> (r: Self)
        requires
            (R as int) * (C as int) <= usize::MAX,
        ensures
            r.wf(),
            forall|k: int| 0 <= k < r@.len() ==> r@[k] == T::zero_spec(),
    {
        let total: usize = R * C;
        let mut data: Vec<T> = Vec::new();
        let mut k: usize = 0;
        while k < total
            invariant
                k <= total,
                total == (R as int) * (C as int),
                data@.len() == k as int,
                forall|n: int| 0 <= n < k as int ==> data@[n] == T::zero_spec(),
            decreases total - k,
        {
            data.push(T::zero());
            k = k + 1;
        }
        Matrix { data }
    }
}

impl<T: One, const R: usize, const C: usize> Matrix<T, R, C> {
    /// The matrix whose every element is the multiplicative identity.
    pub fn ones() -> (r: Self)
        requires
            (R as int) * (C as int) <= usize::MAX,
        ensures
            r.wf(),
            forall|k: int| 0 <= k < r@.len() ==> r@[k] == T::one_spec(),
    {
        let total: usize = R * C;
        let mut data: Vec<T> = Vec::new();
        let mut k: usize = 0;
        while k < total
            invariant
                k <= total,
                total == (R as int) * (C as int),
                data@.len() == k as int,
                forall|n: int| 0 <= n < k as int ==> data@[n] == T::one_spec(),
            decreases total - k,
        {
            data.push(T::one());
            k = k + 1;
        }
        Matrix { data }
    }
}

impl<T: Zero + One, const N: usize> Matrix<T, N, N> {
    /// The square matrix with the multiplicative identity on the
    /// diagonal and the additive identity everywhere else.
    pub fn identity() -> (r: Self)
        requires
            (N as int) * (N as int) <= usize::MAX,
        ensures
            r.wf(),
            forall|i: int, j: int|
                0 <= i < N as int && 0 <= j < N as int ==> r.at(i, j) == (if i == j {
                    T::one_spec()
                } else {
                    T::zero_spec()
                }),
    {
        let mut data: Vec<T> = Vec::new();
        let mut row: usize = 0;
        while row < N
            invariant
                row <= N,
                (N as int) * (N as int) <= usize::MAX,
                data@.len() == row as int * (N as int),
                forall|n: int|
                    0 <= n < data@.len() ==> data@[n] == (if n / (N as int) == n % (N as int) {
                        T::one_spec()
                    } else {
                        T::zero_spec()
                    }),
            decreases N - row,
        {
            let mut col: usize = 0;
            while col < N
                invariant
                    col <= N,
                    row < N,
                    (N as int) * (N as int) <= usize::MAX,
                    data@.len() == row as int * (N as int) + col as int,
                    forall|n: int|
                        0 <= n < data@.len() ==> data@[n] == (if n / (N as int) == n % (N as int) {
                            T::one_spec()
                        } else {
                            T::zero_spec()
                        }),
                decreases N - col,
            {
                proof {
                    lemma_flat_index(row as int, col as int, N as int, N as int);
                }
                if row == col {
                    data.push(T::one());
                } else {
                    data.push(T::zero());
                }
                col = col + 1;
            }
            proof {
                assert((row as int + 1) * (N as int) == row as int * (N as int) + N as int)
                    by (nonlinear_arith);
            }
            row = row + 1;
        }
        let m = Matrix::<T, N, N> { data };
        proof {
            assert forall|i: int, j: int|
                0 <= i < N as int && 0 <= j < N as int implies m.at(i, j) == (if i == j {
                T::one_spec()
            } else {
                T::zero_spec()
            }) by {
                lemma_flat_index(i, j, N as int, N as int);
            }
        }
        m
    }
}

impl<T: Copy, const R: usize, const C: usize> Matrix<T, R, C> {
    /// The element at row `row`, column `col`, zero-based.
    pub fn get(&self, row: usize, col: usize) -> (r: T)
        requires
            self.wf(),
            row < R,
            col < C,
        ensures
            r == self.at(row as int, col as int),
            r == self@[flat(C as int, row as int, col as int)],
    {
        proof {
            lemma_flat_index(row as int, col as int, R as int, C as int);
        }
        let len = self.data.len();
        self.data[row * C + col]
    }

    /// Replaces the element at row `row`, column `col` with `v`.
    pub fn set(&mut self, row: usize, col: usize, v: T)
        requires
            old(self).wf(),
            row < R,
            col < C,
        ensures
            final(self).wf(),
            final(self)@ == old(self)@.update(flat(C as int, row as int, col as int), v),
            final(self).at(row as int, col as int) == v,
            forall|i: int, j: int|
                0 <= i < R as int && 0 <= j < C as int && !(i == row as int && j == col as int)
                    ==> final(self).at(i, j) == old(self).at(i, j),
    {
        proof {
            lemma_flat_index(row as int, col as int, R as int, C as int);
        }
        let len = self.data.len();
        self.data.set(row * C + col, v);
        proof {
            assert forall|i: int, j: int|
                0 <= i < R as int && 0 <= j < C as int && !(i == row as int && j == col as int)
                    implies self.at(i, j) == old(self).at(i, j) by {
                lemma_flat_index(i, j, R as int, C as int);
                if flat(C as int, i, j) == flat(C as int, row as int, col as int) {
                    assert(i == row as int && j == col as int);
                }
            }
        }
    }

    /// The `C` by `R` matrix whose element at row `j`, column `i` is
    /// this matrix's element at row `i`, column `j`.
    pub fn transpose(&self) -> (r: Matrix<T, C, R>)
        requires
            self.wf(),
        ensures
            r.wf(),
            r@ == transpose_of(self@, R as int, C as int),
            forall|i: int, j: int|
                0 <= i < R as int && 0 <= j < C as int ==> r.at(j, i) == self.at(i, j),
    {
        let len = self.data.len();
        let mut out: Vec<T> = Vec::new();
        let mut col: usize = 0;
        while col < C
            invariant
                col <= C,
                self.wf(),
                len == (R as int) * (C as int),
                self.data@.len() == len,
                out@.len() == col as int * (R as int),
                forall|n: int|
                    0 <= n < out@.len() ==> out@[n] == self.data@[flat(
                        C as int,
                        n % (R as int),
                        n / (R as int),
                    )],
            decreases C - col,
        {
            let mut row: usize = 0;
            while row < R
                invariant
                    row <= R,
                    col < C,
                    self.wf(),
                    len == (R as int) * (C as int),
                    self.data@.len() == len,
                    out@.len() == col as int * (R as int) + row as int,
                    forall|n: int|
                        0 <= n < out@.len() ==> out@[n] == self.data@[flat(
                            C as int,
                            n % (R as int),
                            n / (R as int),
                        )],
                decreases R - row,
            {
                proof {
                    lemma_flat_index(row as int, col as int, R as int, C as int);
                    lemma_flat_index(col as int, row as int, C as int, R as int);
                }
                out.push(self.data[row * C + col]);
                row = row + 1;
            }
            proof {
                assert((col as int + 1) * (R as int) == col as int * (R as int) + R as int)
                    by (nonlinear_arith);
            }
            col = col + 1;
        }
        let r = Matrix::<T, C, R> { data: out };
        proof {
            assert(r@ =~= transpose_of(self@, R as int, C as int));
            assert forall|i: int, j: int|
                0 <= i < R as int && 0 <= j < C as int implies r.at(j, i) == self.at(i, j) by {
                lemma_flat_index(j, i, C as int, R as int);
                assert(r@[flat(R as int, j, i)] == self.data@[flat(
                    C as int,
                    flat(R as int, j, i) % (R as int),
                    flat(R as int, j, i) / (R as int),
                )]);
            }
        }
        r
    }
}

impl<T: AddOp, const R: usize, const C: usize> Matrix<T, R, C> {
    /// Elementwise sum: a new matrix whose every element is the sum of
    /// the operands' elements at the same position.
    pub fn add(&self, rhs: &Self) -> (r: Self)
        requires
            self.wf(),
            rhs.wf(),
        ensures
            r.wf(),
            r@ == add_of(self@, rhs@),
    {
        let len = self.data.len();
        let rlen = rhs.data.len();
        let mut out: Vec<T> = Vec::new();
        let mut k: usize = 0;
        while k < len
            invariant
                k <= len,
                self.data@.len() == len,
                rhs.data@.len() == len,
                out@.len() == k as int,
                forall|n: int| 0 <= n < k as int ==> out@[n] == self@[n].add_spec(rhs@[n]),
            decreases len - k,
        {
            out.push(self.data[k].add_val(rhs.data[k]));
            k = k + 1;
        }
        let r = Matrix { data: out };
        proof {
            assert(r@ =~= add_of(self@, rhs@));
        }
        r
    }

    /// Elementwise sum in place: every element of `self` becomes the sum
    /// of its old value and the corresponding element of `rhs`.
    pub fn add_assign(&mut self, rhs: &Self)
        requires
            old(self).wf(),
            rhs.wf(),
        ensures
            final(self).wf(),
            final(self)@ == add_of(old(self)@, rhs@),
    {
        let len = self.data.len();
        let rlen = rhs.data.len();
        let ghost orig = self.data@;
        let mut k: usize = 0;
        while k < len
            invariant
                k <= len,
                self.data@.len() == len,
                rhs.data@.len() == len,
                orig.len() == len,
                forall|n: int| 0 <= n < k as int ==> self@[n] == orig[n].add_spec(rhs@[n]),
                forall|n: int| k as int <= n < len ==> self@[n] == orig[n],
            decreases len - k,
        {
            let ghost pre = self.data@;
            proof {
                assert(pre == self@);
                assert(forall|n: int| 0 <= n < k as int ==> self@[n] == orig[n].add_spec(rhs@[n]));
                assert(forall|n: int| 0 <= n < k as int ==> pre[n] == orig[n].add_spec(rhs@[n]));
            }
            let v = self.data[k].add_val(rhs.data[k]);
            self.data.set(k, v);
            proof {
                assert forall|n: int| 0 <= n < k as int + 1 implies self@[n] == orig[n].add_spec(
                    rhs@[n],
                ) by {
                    if n < k as int {
                        assert(pre[n] == orig[n].add_spec(rhs@[n]));
                    }
                }
            }
            k = k + 1;
        }
        proof {
            assert(self@ =~= add_of(orig, rhs@));
        }
    }
}

impl<T: SubOp, const R: usize, const C: usize> Matrix<T, R, C> {
    /// Elementwise difference: a new matrix whose every element is the
    /// left element minus the right element at the same position.
    pub fn sub(&self, rhs: &Self) -> (r: Self)
        requires
            self.wf(),
            rhs.wf(),
        ensures
            r.wf(),
            r@ == sub_of(self@, rhs@),
    {
        let len = self.data.len();
        let rlen = rhs.data.len();
        let mut out: Vec<T> = Vec::new();
        let mut k: usize = 0;
        while k < len
            invariant
                k <= len,
                self.data@.len() == len,
                rhs.data@.len() == len,
                out@.len() == k as int,
                forall|n: int| 0 <= n < k as int ==> out@[n] == self@[n].sub_spec(rhs@[n]),
            decreases len - k,
        {
            out.push(self.data[k].sub_val(rhs.data[k]));
            k = k + 1;
        }
        let r = Matrix { data: out };
        proof {
            assert(r@ =~= sub_of(self@, rhs@));
        }
        r
    }

    /// Elementwise difference in place.
    pub fn sub_assign(&mut self, rhs: &Self)
        requires
            old(self).wf(),
            rhs.wf(),
        ensures
            final(self).wf(),
            final(self)@ == sub_of(old(self)@, rhs@),
    {
        let len = self.data.len();
        let rlen = rhs.data.len();
        let ghost orig = self.data@;
        let mut k: usize = 0;
        while k < len
            invariant
                k <= len,
                self.data@.len() == len,
                rhs.data@.len() == len,
                orig.len() == len,
                forall|n: int| 0 <= n < k as int ==> self@[n] == orig[n].sub_spec(rhs@[n]),
                forall|n: int| k as int <= n < len ==> self@[n] == orig[n],
            decreases len - k,
        {
            let ghost pre = self.data@;
            proof {
                assert(pre == self@);
                assert(forall|n: int| 0 <= n < k as int ==> self@[n] == orig[n].sub_spec(rhs@[n]));
                assert(forall|n: int| 0 <= n < k as int ==> pre[n] == orig[n].sub_spec(rhs@[n]));
            }
            let v = self.data[k].sub_val(rhs.data[k]);
            self.data.set(k, v);
            proof {
                assert forall|n: int| 0 <= n < k as int + 1 implies self@[n] == orig[n].sub_spec(
                    rhs@[n],
                ) by {
                    if n < k as int {
                        assert(pre[n] == orig[n].sub_spec(rhs@[n]));
                    }
                }
            }
            k = k + 1;
        }
        proof {
            assert(self@ =~= sub_of(orig, rhs@));
        }
    }
}

impl<T: MulOp, const R: usize, const C: usize> Matrix<T, R, C> {
    /// Multiplies every element in place by the scalar `s`, keeping the
    /// dimensions.
    pub fn scale(&mut self, s: T)
        requires
            old(self).wf(),
        ensures
            final(self).wf(),
            final(self)@ == scale_of(old(self)@, s),
    {
        let len = self.data.len();
        let ghost orig = self.data@;
        let mut k: usize = 0;
        while k < len
            invariant
                k <= len,
                self.data@.len() == len,
                orig.len() == len,
                forall|n: int| 0 <= n < k as int ==> self@[n] == orig[n].mul_spec(s),
                forall|n: int| k as int <= n < len ==> self@[n] == orig[n],
            decreases len - k,
        {
            let ghost pre = self.data@;
            proof {
                assert(pre == self@);
                assert(forall|n: int| 0 <= n < k as int ==> self@[n] == orig[n].mul_spec(s));
                assert(forall|n: int| 0 <= n < k as int ==> pre[n] == orig[n].mul_spec(s));
            }
            let v = self.data[k].mul_val(s);
            self.data.set(k, v);
            proof {
                assert forall|n: int| 0 <= n < k as int + 1 implies self@[n] == orig[n].mul_spec(
                    s,
                ) by {
                    if n < k as int {
                        assert(pre[n] == orig[n].mul_spec(s));
                    }
                }
            }
            k = k + 1;
        }
        proof {
            assert(self@ =~= scale_of(orig, s));
        }
    }
}

impl<T: EqTest + Copy, const R: usize, const C: usize> Matrix<T, R, C> {
    /// Whether the two matrices hold equal elements at every position.
    pub fn equals(&self, rhs: &Self) -> (r: bool)
        requires
            self.wf(),
            rhs.wf(),
        ensures
            r == (self@ == rhs@),
    {
        let len = self.data.len();
        let rlen = rhs.data.len();
        let mut k: usize = 0;
        while k < len
            invariant
                k <= len,
                self.data@.len() == len,
                rhs.data@.len() == len,
                forall|n: int| 0 <= n < k as int ==> self@[n] == rhs@[n],
            decreases len - k,
        {
            if !self.data[k].eq_val(&rhs.data[k]) {
                return false;
            }
            k = k + 1;
        }
        proof {
            assert(self@ =~= rhs@);
        }
        true
    }
}

impl<T: AddOp + MulOp + Zero, const R: usize, const C: usize> Matrix<T, R, C> {
    /// Matrix product: the element at row `i`, column `j` of the result
    /// is the inner-dimension sum of `self`'s row `i` against `rhs`'s
    /// column `j`, folded from the additive identity.
    pub fn matmul<const P: usize>(&self, rhs: &Matrix<T, C, P>) -> (r: Matrix<T, R, P>)
        requires
            self.wf(),
            rhs.wf(),
            (R as int) * (P as int) <= usize::MAX,
        ensures
            r.wf(),
            r@ == mul_of(self@, rhs@, R as int, C as int, P as int),
            forall|i: int, j: int|
                0 <= i < R as int && 0 <= j < P as int ==> r.at(i, j) == cell_of(
                    self@,
                    rhs@,
                    C as int,
                    P as int,
                    i,
                    j,
                ),
    {
        let len = self.data.len();
        let rlen = rhs.data.len();
        let mut out: Vec<T> = Vec::new();
        let mut row: usize = 0;
        while row < R
            invariant
                row <= R,
                self.data@.len() == len,
                rhs.data@.len() == rlen,
                len == (R as int) * (C as int),
                rlen == (C as int) * (P as int),
                (R as int) * (P as int) <= usize::MAX,
                out@.len() == row as int * (P as int),
                forall|n: int|
                    0 <= n < out@.len() ==> out@[n] == cell_of(
                        self@,
                        rhs@,
                        C as int,
                        P as int,
                        n / (P as int),
                        n % (P as int),
                    ),
            decreases R - row,
        {
            let mut col: usize = 0;
            while col < P
                invariant
                    col <= P,
                    row < R,
                    self.data@.len() == len,
                    rhs.data@.len() == rlen,
                    len == (R as int) * (C as int),
                    rlen == (C as int) * (P as int),
                    (R as int) * (P as int) <= usize::MAX,
                    out@.len() == row as int * (P as int) + col as int,
                    forall|n: int|
                        0 <= n < out@.len() ==> out@[n] == cell_of(
                            self@,
                            rhs@,
                            C as int,
                            P as int,
                            n / (P as int),
                            n % (P as int),
                        ),
                decreases P - col,
            {
                let mut acc: T = T::zero();
                let mut k: usize = 0;
                while k < C
                    invariant
                        k <= C,
                        row < R,
                        col < P,
                        self.data@.len() == len,
                        rhs.data@.len() == rlen,
                        len == (R as int) * (C as int),
                        rlen == (C as int) * (P as int),
                        acc == sum_upto(
                            (|x: int| self@[flat(C as int, row as int, x)].mul_spec(
                                rhs@[flat(P as int, x, col as int)],
                            )),
                            k as int,
                        ),
                    decreases C - k,
                {
                    proof {
                        lemma_flat_index(row as int, k as int, R as int, C as int);
                        lemma_flat_index(k as int, col as int, C as int, P as int);
                    }
                    let term = self.data[row * C + k].mul_val(rhs.data[k * P + col]);
                    acc = acc.add_val(term);
                    k = k + 1;
                }
                proof {
                    lemma_flat_index(row as int, col as int, R as int, P as int);
                    assert(acc == cell_of(
                        self@,
                        rhs@,
                        C as int,
                        P as int,
                        row as int,
                        col as int,
                    ));
                }
                out.push(acc);
                col = col + 1;
            }
            proof {
                assert((row as int + 1) * (P as int) == row as int * (P as int) + P as int)
                    by (nonlinear_arith);
            }
            row = row + 1;
        }
        let r = Matrix::<T, R, P> { data: out };
        proof {
            assert(r@ =~= mul_of(self@, rhs@, R as int, C as int, P as int));
            assert forall|i: int, j: int|
                0 <= i < R as int && 0 <= j < P as int implies r.at(i, j) == cell_of(
                self@,
                rhs@,
                C as int,
                P as int,
                i,
                j,
            ) by {
                lemma_flat_index(i, j, R as int, P as int);
            }
        }
        r
    }
}

/// During the in-place transpose sweep that visits the strictly upper
/// positions row by row, whether the pair holding positions `(i, j)`
/// and `(j, i)` has already been swapped when the sweep stands at row
/// `row`, column `col`.
spec fn swept(i: int, j: int, row: int, col: int) -> bool {
    let lo = if i < j {
        i
    } else {
        j
    };
    let hi = if i < j {
        j
    } else {
        i
    };
    i != j && (lo < row || (lo == row && hi < col))
}

impl<T: Copy, const N: usize> Matrix<T, N, N> {
    /// Transposes a square matrix in place by swapping each strictly
    /// upper element with its mirror below the diagonal; no extra
    /// storage is allocated.
    pub fn transpose_in_place(&mut self)
        requires
            old(self).wf(),
        ensures
            final(self).wf(),
            forall|i: int, j: int|
                0 <= i < N as int && 0 <= j < N as int ==> final(self).at(i, j) == old(self).at(
                    j,
                    i,
                ),
    {
        let ghost orig = *old(self);
        let mut row: usize = 0;
        while row < N
            invariant
                row <= N,
                self.wf(),
                orig.wf(),
                forall|i: int, j: int|
                    0 <= i < N as int && 0 <= j < N as int ==> #[trigger] self.at(i, j) == (if swept(
                        i,
                        j,
                        row as int,
                        row as int + 1,
                    ) {
                        orig.at(j, i)
                    } else {
                        orig.at(i, j)
                    }),
            decreases N - row,
        {
            let mut col: usize = row + 1;
            while col < N
                invariant
                    row < N,
                    row + 1 <= col <= N,
                    self.wf(),
                    orig.wf(),
                    forall|i: int, j: int|
                        0 <= i < N as int && 0 <= j < N as int ==> #[trigger] self.at(i, j) == (
                        if swept(i, j, row as int, col as int) {
                            orig.at(j, i)
                        } else {
                            orig.at(i, j)
                        }),
                decreases N - col,
            {
                proof {
                    lemma_flat_index(row as int, col as int, N as int, N as int);
                    lemma_flat_index(col as int, row as int, N as int, N as int);
                }
                let ghost pre = *self;
                let len = self.data.len();
                let a = self.data[row * N + col];
                let b = self.data[col * N + row];
                self.data.set(row * N + col, b);
                self.data.set(col * N + row, a);
                proof {
                    assert(a == pre.at(row as int, col as int));
                    assert(b == pre.at(col as int, row as int));
                    assert(pre.at(row as int, col as int) == orig.at(row as int, col as int));
                    assert(pre.at(col as int, row as int) == orig.at(col as int, row as int));
                    assert forall|i: int, j: int|
                        0 <= i < N as int && 0 <= j < N as int implies #[trigger] self.at(i, j) == (
                    if swept(i, j, row as int, col as int + 1) {
                        orig.at(j, i)
                    } else {
                        orig.at(i, j)
                    }) by {
                        lemma_flat_index(i, j, N as int, N as int);
                        assert(pre.at(i, j) == (if swept(i, j, row as int, col as int) {
                            orig.at(j, i)
                        } else {
                            orig.at(i, j)
                        }));
                        if flat(N as int, i, j) == flat(N as int, row as int, col as int) {
                            assert(i == row as int && j == col as int);
                        }
                        if flat(N as int, i, j) == flat(N as int, col as int, row as int) {
                            assert(i == col as int && j == row as int);
                        }
                    }
                }
                col = col + 1;
            }
            row = row + 1;
        }
        proof {
            assert forall|i: int, j: int|
                0 <= i < N as int && 0 <= j < N as int implies self.at(i, j) == old(self).at(
                j,
                i,
            ) by {
                assert(self.at(i, j) == (if swept(i, j, N as int, N as int + 1) {
                    orig.at(j, i)
                } else {
                    orig.at(i, j)
                }));
            }
        }
    }
}

impl<T: AddOp + MulOp + Zero, const N: usize> Matrix<T, N, N> {
    /// Square matrix product in place: the product is accumulated into a
    /// scratch buffer first, because every output element reads several
    /// input elements, and only then moved over the old storage.
    pub fn mul_assign(&mut self, rhs: &Matrix<T, N, N>)
        requires
            old(self).wf(),
            rhs.wf(),
        ensures
            final(self).wf(),
            final(self)@ == mul_of(old(self)@, rhs@, N as int, N as int, N as int),
    {
        let len = self.data.len();
        let scratch = self.matmul(rhs);
        self.data = scratch.data;
    }
}

/// Adding a grid of additive identities changes nothing: with `z` the
/// all-zero grid, `add_of(a, z) == a`.
pub proof fn lemma_add_zeroes<T: RingLaws>(a: Seq<T>, z: Seq<T>)
    requires
        z.len() == a.len(),
        forall|k: int| 0 <= k < z.len() ==> z[k] == T::zero_spec(),
    ensures
        add_of(a, z) == a,
{
    assert forall|k: int| 0 <= k < a.len() implies add_of(a, z)[k] == a[k] by {
        T::law_add_zero(a[k]);
    }
    assert(add_of(a, z) =~= a);
}

/// Adding a grid and then subtracting it again gives the original back:
/// `sub_of(add_of(a, b), b) == a`.
pub proof fn lemma_add_sub_cancel<T: RingLaws>(a: Seq<T>, b: Seq<T>)
    requires
        b.len() == a.len(),
    ensures
        sub_of(add_of(a, b), b) == a,
{
    assert forall|k: int| 0 <= k < a.len() implies sub_of(add_of(a, b), b)[k] == a[k] by {
        T::law_add_sub_cancel(a[k], b[k]);
    }
    assert(sub_of(add_of(a, b), b) =~= a);
}

/// Transposing twice gives the original grid back.
pub proof fn lemma_transpose_involution<T>(a: Seq<T>, rows: int, cols: int)
    requires
        rows >= 0,
        cols >= 0,
        a.len() == rows * cols,
    ensures
        transpose_of(transpose_of(a, rows, cols), cols, rows) == a,
{
    let t1 = transpose_of(a, rows, cols);
    let t2 = transpose_of(t1, cols, rows);
    assert forall|n: int| 0 <= n < a.len() implies t2[n] == a[n] by {
        assert(rows > 0 && cols > 0) by (nonlinear_arith)
            requires
                0 <= n < rows * cols,
                rows >= 0,
                cols >= 0,
        ;
        let i = n / cols;
        let j = n % cols;
        lemma_fundamental_div_mod(n, cols);
        assert(0 <= j < cols);
        assert(i < rows) by (nonlinear_arith)
            requires
                n == cols * i + j,
                0 <= j < cols,
                n < rows * cols,
                cols > 0,
        ;
        assert(0 <= i) by (nonlinear_arith)
            requires
                n == cols * i + j,
                0 <= j < cols,
                0 <= n,
                cols > 0,
        ;
        lemma_flat_index(j, i, cols, rows);
        lemma_flat_index(i, j, rows, cols);
        assert(t2[n] == t1[flat(rows, n % cols, n / cols)]);
        assert(t1[flat(rows, j, i)] == a[flat(cols, i, j)]);
        assert(i * cols + j == n) by (nonlinear_arith)
            requires
                n == cols * i + j,
        ;
        assert(flat(cols, i, j) == n);
    }
    assert(t2 =~= a);
}

/// Multiplying on the right by the identity grid changes nothing: with
/// `e` the `n` by `n` grid holding the multiplicative identity on the
/// diagonal and the additive identity elsewhere, `mul_of(a, e) == a`.
pub proof fn lemma_mul_identity_right<T: RingLaws>(a: Seq<T>, e: Seq<T>, m: int, n: int)
    requires
        m >= 0,
        n >= 0,
        a.len() == m * n,
        e.len() == n * n,
        forall|i: int, j: int|
            0 <= i < n && 0 <= j < n ==> e[flat(n, i, j)] == (if i == j {
                T::one_spec()
            } else {
                T::zero_spec()
            }),
    ensures
        mul_of(a, e, m, n, n) == a,
{
    let r = mul_of(a, e, m, n, n);
    assert forall|idx: int| 0 <= idx < a.len() implies r[idx] == a[idx] by {
        assert(m > 0 && n > 0) by (nonlinear_arith)
            requires
                0 <= idx < m * n,
                m >= 0,
                n >= 0,
        ;
        let i = idx / n;
        let j = idx % n;
        lemma_fundamental_div_mod(idx, n);
        assert(0 <= j < n);
        assert(0 <= i < m) by (nonlinear_arith)
            requires
                idx == n * i + j,
                0 <= j < n,
                0 <= idx < m * n,
                n > 0,
        ;
        assert(r[idx] == cell_of(a, e, n, n, i, j));
        let f = (|k: int| a[flat(n, i, k)].mul_spec(e[flat(n, k, j)]));
        assert forall|x: int| 0 <= x < n implies #[trigger] f(x) == (if x == j {
            a[flat(n, i, j)]
        } else {
            T::zero_spec()
        }) by {
            lemma_flat_index(i, x, m, n);
            lemma_flat_index(x, j, n, n);
            if x == j {
                T::law_mul_one(a[flat(n, i, x)]);
            } else {
                T::law_mul_zero(a[flat(n, i, x)]);
            }
        }
        lemma_sum_single(f, j, a[flat(n, i, j)], n);
        assert(i * n + j == idx) by (nonlinear_arith)
            requires
                idx == n * i + j,
        ;
        assert(flat(n, i, j) == idx);
    }
    assert(r =~= a);
}

/// Multiplying on the left by the identity grid changes nothing.
pub proof fn lemma_mul_identity_left<T: RingLaws>(e: Seq<T>, a: Seq<T>, n: int, m: int)
    requires
        m >= 0,
        n >= 0,
        a.len() == n * m,
        e.len() == n * n,
        forall|i: int, j: int|
            0 <= i < n && 0 <= j < n ==> e[flat(n, i, j)] == (if i == j {
                T::one_spec()
            } else {
                T::zero_spec()
            }),
    ensures
        mul_of(e, a, n, n, m) == a,
{
    let r = mul_of(e, a, n, n, m);
    assert(r.len() == (n * m) as nat);
    assert forall|idx: int| 0 <= idx < a.len() implies r[idx] == a[idx] by {
        assert(m > 0 && n > 0) by (nonlinear_arith)
            requires
                0 <= idx < n * m,
                m >= 0,
                n >= 0,
        ;
        let i = idx / m;
        let j = idx % m;
        lemma_fundamental_div_mod(idx, m);
        assert(0 <= j < m);
        assert(0 <= i < n) by (nonlinear_arith)
            requires
                idx == m * i + j,
                0 <= j < m,
                0 <= idx < n * m,
                m > 0,
        ;
        assert(r[idx] == cell_of(e, a, n, m, i, j));
        let f = (|k: int| e[flat(n, i, k)].mul_spec(a[flat(m, k, j)]));
        assert forall|x: int| 0 <= x < n implies #[trigger] f(x) == (if x == i {
            a[flat(m, i, j)]
        } else {
            T::zero_spec()
        }) by {
            lemma_flat_index(i, x, n, n);
            lemma_flat_index(x, j, n, m);
            if x == i {
                T::law_mul_one(a[flat(m, x, j)]);
            } else {
                T::law_mul_zero(a[flat(m, x, j)]);
            }
        }
        lemma_sum_single(f, i, a[flat(m, i, j)], n);
        assert(i * m + j == idx) by (nonlinear_arith)
            requires
                idx == m * i + j,
        ;
        assert(flat(m, i, j) == idx);
    }
    assert(r =~= a);
}

/// One entry of the associativity law: row `i`, column `l` of
/// `(a b) c` equals row `i`, column `l` of `a (b c)`.
proof fn lemma_cell_assoc<T: RingLaws>(
    a: Seq<T>,
    b: Seq<T>,
    c: Seq<T>,
    m: int,
    n: int,
    p: int,
    q: int,
    i: int,
    l: int,
)
    requires
        n >= 0,
        p >= 0,
        a.len() == m * n,
        b.len() == n * p,
        c.len() == p * q,
        0 <= i < m,
        0 <= l < q,
    ensures
        cell_of(mul_of(a, b, m, n, p), c, p, q, i, l) == cell_of(
            a,
            mul_of(b, c, n, p, q),
            n,
            q,
            i,
            l,
        ),
{
    let ab = mul_of(a, b, m, n, p);
    let bc = mul_of(b, c, n, p, q);
    let f1 = (|k: int| ab[flat(p, i, k)].mul_spec(c[flat(q, k, l)]));
    let h = (|k: int, j: int| (a[flat(n, i, j)].mul_spec(b[flat(p, j, k)])).mul_spec(
        c[flat(q, k, l)],
    ));
    let g = (|k: int| sum_upto((|j: int| h(k, j)), n));
    assert forall|k: int| 0 <= k < p implies #[trigger] f1(k) == g(k) by {
        lemma_flat_index(i, k, m, p);
        assert(ab[flat(p, i, k)] == cell_of(a, b, n, p, i, k));
        let fab = (|j: int| a[flat(n, i, j)].mul_spec(b[flat(p, j, k)]));
        lemma_sum_mul_right(fab, c[flat(q, k, l)], n);
        let fabc = (|x: int| fab(x).mul_spec(c[flat(q, k, l)]));
        assert forall|x: int| 0 <= x < n implies #[trigger] fabc(x) == (|j: int| h(k, j))(x) by {
        }
        lemma_sum_congruence(fabc, (|j: int| h(k, j)), n);
    }
    lemma_sum_congruence(f1, g, p);
    lemma_sum_swap(h, p, n);
    let f2 = (|j: int| a[flat(n, i, j)].mul_spec(bc[flat(q, j, l)]));
    let g2 = (|j: int| sum_upto((|k: int| h(k, j)), p));
    assert forall|j: int| 0 <= j < n implies #[trigger] g2(j) == f2(j) by {
        lemma_flat_index(j, l, n, q);
        assert(bc[flat(q, j, l)] == cell_of(b, c, p, q, j, l));
        let fbc = (|k: int| b[flat(p, j, k)].mul_spec(c[flat(q, k, l)]));
        lemma_sum_mul_left(fbc, a[flat(n, i, j)], p);
        let fcb = (|x: int| a[flat(n, i, j)].mul_spec(fbc(x)));
        assert forall|x: int| 0 <= x < p implies #[trigger] fcb(x) == (|k: int| h(k, j))(x) by {
            T::law_mul_assoc(a[flat(n, i, j)], b[flat(p, j, x)], c[flat(q, x, l)]);
        }
        lemma_sum_congruence(fcb, (|k: int| h(k, j)), p);
    }
    lemma_sum_congruence(g2, f2, n);
}

/// Adding the all-zero matrix changes nothing: with `z` as `zeroes()`
/// returns it, `a.add(&z)` returns a matrix with the contents of `a`.
pub proof fn lemma_matrix_add_zeroes<T: RingLaws, const R: usize, const C: usize>(
    a: Matrix<T, R, C>,
    z: Matrix<T, R, C>,
)
    requires
        a.wf(),
        z.wf(),
        forall|k: int| 0 <= k < z@.len() ==> z@[k] == T::zero_spec(),
    ensures
        add_of(a@, z@) == a@,
{
    lemma_add_zeroes(a@, z@);
}

/// Adding a matrix and then subtracting it again gives the original
/// back: `a.add(&b).sub(&b)` returns a matrix with the contents of `a`.
pub proof fn lemma_matrix_add_sub_cancel<T: RingLaws, const R: usize, const C: usize>(
    a: Matrix<T, R, C>,
    b: Matrix<T, R, C>,
)
    requires
        a.wf(),
        b.wf(),
    ensures
        sub_of(add_of(a@, b@), b@) == a@,
{
    lemma_add_sub_cancel(a@, b@);
}

/// The identity matrix is neutral for the matrix product on both
/// sides: with `e` as `identity()` returns it, both `a.matmul(&e)` and
/// `e.matmul(&a)` return matrices with the contents of `a`.
pub proof fn lemma_matrix_mul_identity<T: RingLaws, const N: usize>(
    a: Matrix<T, N, N>,
    e: Matrix<T, N, N>,
)
    requires
        a.wf(),
        e.wf(),
        forall|i: int, j: int|
            0 <= i < N as int && 0 <= j < N as int ==> e.at(i, j) == (if i == j {
                T::one_spec()
            } else {
                T::zero_spec()
            }),
    ensures
        mul_of(a@, e@, N as int, N as int, N as int) == a@,
        mul_of(e@, a@, N as int, N as int, N as int) == a@,
{
    assert forall|i: int, j: int|
        0 <= i < N as int && 0 <= j < N as int implies #[trigger] e@[flat(N as int, i, j)] == (
    if i == j {
        T::one_spec()
    } else {
        T::zero_spec()
    }) by {
        assert(e.at(i, j) == e@[flat(N as int, i, j)]);
    }
    lemma_mul_identity_right(a@, e@, N as int, N as int);
    lemma_mul_identity_left(e@, a@, N as int, N as int);
}

/// Transposing a matrix twice gives the original back:
/// `a.transpose().transpose()` returns a matrix with the contents of
/// `a`.
pub proof fn lemma_matrix_transpose_involution<T, const R: usize, const C: usize>(
    a: Matrix<T, R, C>,
)
    requires
        a.wf(),
    ensures
        transpose_of(transpose_of(a@, R as int, C as int), C as int, R as int) == a@,
{
    lemma_transpose_involution(a@, R as int, C as int);
}

/// The matrix product is associative: for matrices of compatible
/// shapes, `a.matmul(&b).matmul(&c)` and `a.matmul(&b.matmul(&c))`
/// return matrices with the same contents.
pub proof fn lemma_matrix_matmul_assoc<
    T: RingLaws,
    const M: usize,
    const N: usize,
    const P: usize,
    const Q: usize,
>(a: Matrix<T, M, N>, b: Matrix<T, N, P>, c: Matrix<T, P, Q>)
    requires
        a.wf(),
        b.wf(),
        c.wf(),
    ensures
        mul_of(mul_of(a@, b@, M as int, N as int, P as int), c@, M as int, P as int, Q as int)
            == mul_of(a@, mul_of(b@, c@, N as int, P as int, Q as int), M as int, N as int, Q as int),
{
    lemma_matmul_assoc(a@, b@, c@, M as int, N as int, P as int, Q as int);
}

/// Matrix multiplication is associative: for grids of compatible shapes,
/// `(a b) c == a (b c)`.
pub proof fn lemma_matmul_assoc<T: RingLaws>(
    a: Seq<T>,
    b: Seq<T>,
    c: Seq<T>,
    m: int,
    n: int,
    p: int,
    q: int,
)
    requires
        m >= 0,
        n >= 0,
        p >= 0,
        q >= 0,
        a.len() == m * n,
        b.len() == n * p,
        c.len() == p * q,
    ensures
        mul_of(mul_of(a, b, m, n, p), c, m, p, q) == mul_of(a, mul_of(b, c, n, p, q), m, n, q),
{
    let ab = mul_of(a, b, m, n, p);
    let bc = mul_of(b, c, n, p, q);
    let lhs = mul_of(ab, c, m, p, q);
    let rhs = mul_of(a, bc, m, n, q);
    assert(lhs.len() == (m * q) as nat);
    assert(rhs.len() == (m * q) as nat);
    assert forall|idx: int| 0 <= idx < lhs.len() implies lhs[idx] == rhs[idx] by {
        assert(m > 0 && q > 0) by (nonlinear_arith)
            requires
                0 <= idx < m * q,
                m >= 0,
                q >= 0,
        ;
        let i = idx / q;
        let l = idx % q;
        lemma_fundamental_div_mod(idx, q);
        assert(0 <= l < q);
        assert(0 <= i < m) by (nonlinear_arith)
            requires
                idx == q * i + l,
                0 <= l < q,
                0 <= idx < m * q,
                q > 0,
        ;
        lemma_cell_assoc(a, b, c, m, n, p, q, i, l);
        assert(lhs[idx] == cell_of(ab, c, p, q, i, l));
        assert(rhs[idx] == cell_of(a, bc, n, q, i, l));
    }
    assert(lhs =~= rhs);
}

} // verus!
