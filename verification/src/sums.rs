use crate::scalar::{AddOp, RingLaws, Zero};
use vstd::prelude::*;

verus! {

/// The fold of `f(0), f(1), ..., f(k - 1)` under the type's addition,
/// starting from the additive identity.
pub open spec fn sum_upto<T: AddOp + Zero>(f: spec_fn(int) -> T, k: int) -> T
    decreases k,
{
    if k <= 0 {
        T::zero_spec()
    } else {
        sum_upto(f, k - 1).add_spec(f(k - 1))
    }
}

/// Two functions that agree below `k` have the same sum up to `k`.
pub proof fn lemma_sum_congruence<T: AddOp + Zero>(
    f: spec_fn(int) -> T,
    g: spec_fn(int) -> T,
    k: int,
)
    requires
        forall|x: int| 0 <= x < k ==> #[trigger] f(x) == g(x),
    ensures
        sum_upto(f, k) == sum_upto(g, k),
    decreases k,
{
    if k > 0 {
        lemma_sum_congruence(f, g, k - 1);
    }
}

/// A sum of additive identities is the additive identity.
pub proof fn lemma_sum_zero<T: RingLaws>(f: spec_fn(int) -> T, k: int)
    requires
        forall|x: int| 0 <= x < k ==> #[trigger] f(x) == T::zero_spec(),
    ensures
        sum_upto(f, k) == T::zero_spec(),
    decreases k,
{
    if k > 0 {
        lemma_sum_zero(f, k - 1);
        T::law_add_zero(T::zero_spec());
    }
}

/// Sums add termwise: the sum of `f` plus the sum of `g` equals the sum
/// of `x` maps-to `f(x) + g(x)`.
pub proof fn lemma_sum_add<T: RingLaws>(f: spec_fn(int) -> T, g: spec_fn(int) -> T, k: int)
    ensures
        sum_upto(f, k).add_spec(sum_upto(g, k)) == sum_upto((|x: int| f(x).add_spec(g(x))), k),
    decreases k,
{
    if k <= 0 {
        T::law_add_zero(T::zero_spec());
    } else {
        lemma_sum_add(f, g, k - 1);
        let sf = sum_upto(f, k - 1);
        let sg = sum_upto(g, k - 1);
        let fk = f(k - 1);
        let gk = g(k - 1);
        T::law_add_assoc(sf.add_spec(fk), sg, gk);
        T::law_add_assoc(sf, fk, sg);
        T::law_add_comm(fk, sg);
        T::law_add_assoc(sf, sg, fk);
        T::law_add_assoc(sf.add_spec(sg), fk, gk);
    }
}

/// A common right factor moves out of a sum.
pub proof fn lemma_sum_mul_right<T: RingLaws>(f: spec_fn(int) -> T, c: T, k: int)
    ensures
        sum_upto((|x: int| f(x).mul_spec(c)), k) == sum_upto(f, k).mul_spec(c),
    decreases k,
{
    if k <= 0 {
        T::law_mul_zero(c);
    } else {
        lemma_sum_mul_right(f, c, k - 1);
        T::law_mul_distrib_right(sum_upto(f, k - 1), f(k - 1), c);
    }
}

/// A common left factor moves out of a sum.
pub proof fn lemma_sum_mul_left<T: RingLaws>(f: spec_fn(int) -> T, c: T, k: int)
    ensures
        sum_upto((|x: int| c.mul_spec(f(x))), k) == c.mul_spec(sum_upto(f, k)),
    decreases k,
{
    if k <= 0 {
        T::law_mul_zero(c);
    } else {
        lemma_sum_mul_left(f, c, k - 1);
        T::law_mul_distrib_left(c, sum_upto(f, k - 1), f(k - 1));
    }
}

/// A sum whose only term other than the additive identity stands at
/// position `t` equals that term.
pub proof fn lemma_sum_single<T: RingLaws>(f: spec_fn(int) -> T, t: int, v: T, k: int)
    requires
        0 <= t < k,
        forall|x: int| 0 <= x < k ==> #[trigger] f(x) == (if x == t {
            v
        } else {
            T::zero_spec()
        }),
    ensures
        sum_upto(f, k) == v,
    decreases k,
{
    if t == k - 1 {
        lemma_sum_zero(f, k - 1);
        T::law_add_comm(T::zero_spec(), v);
        T::law_add_zero(v);
    } else {
        lemma_sum_single(f, t, v, k - 1);
        T::law_add_zero(v);
    }
}

/// A double sum does not depend on the order of summation.
pub proof fn lemma_sum_swap<T: RingLaws>(h: spec_fn(int, int) -> T, m: int, n: int)
    ensures
        sum_upto((|i: int| sum_upto((|j: int| h(i, j)), n)), m) == sum_upto(
            (|j: int| sum_upto((|i: int| h(i, j)), m)),
            n,
        ),
    decreases m,
{
    let rows = (|i: int| sum_upto((|j: int| h(i, j)), n));
    let cols_m = (|j: int| sum_upto((|i: int| h(i, j)), m));
    let cols_p = (|j: int| sum_upto((|i: int| h(i, j)), m - 1));
    let last = (|j: int| h(m - 1, j));
    if m <= 0 {
        assert forall|j: int| 0 <= j < n implies #[trigger] cols_m(j) == T::zero_spec() by {
            assert(sum_upto((|i: int| h(i, j)), m) == T::zero_spec());
        }
        lemma_sum_zero(cols_m, n);
    } else {
        lemma_sum_swap(h, m - 1, n);
        lemma_sum_add(cols_p, last, n);
        let summed = (|x: int| cols_p(x).add_spec(last(x)));
        assert forall|j: int| 0 <= j < n implies #[trigger] cols_m(j) == summed(j) by {
            assert(sum_upto((|i: int| h(i, j)), m) == sum_upto((|i: int| h(i, j)), m - 1).add_spec(
                h(m - 1, j),
            ));
        }
        lemma_sum_congruence(cols_m, summed, n);
        assert((|j: int| h(m - 1, j)) =~= last);
        assert(rows(m - 1) == sum_upto(last, n));
        assert(sum_upto(rows, m) == sum_upto(rows, m - 1).add_spec(rows(m - 1)));
    }
}

} // verus!
