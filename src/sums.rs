//! Integer sums over sequences, and the fact that the entries of an
//! antisymmetric square table sum to zero.

use vstd::prelude::*;

verus! {

/// The sum of a sequence of integers.
pub open spec fn int_sum(s: Seq<int>) -> int
    decreases s.len(),
{
    if s.len() == 0 {
        0
    } else {
        int_sum(s.drop_last()) + s.last()
    }
}

/// The sum of `f(a, b)` over `b < n`.
pub open spec fn row_total(f: spec_fn(int, int) -> int, a: int, n: nat) -> int {
    int_sum(Seq::new(n, |b: int| f(a, b)))
}

/// The sum of `f(a, b)` over `a, b < n`.
pub open spec fn table_total(f: spec_fn(int, int) -> int, n: nat) -> int {
    int_sum(Seq::new(n, |a: int| row_total(f, a, n)))
}

/// Whether `f(a, b) == -f(b, a)` for all `a, b < n`.
pub open spec fn antisymmetric(f: spec_fn(int, int) -> int, n: nat) -> bool {
    forall|a: int, b: int| 0 <= a < n && 0 <= b < n ==> #[trigger] f(a, b) == -f(b, a)
}

/// Sums add up term by term.
pub proof fn lemma_sum_add(g: spec_fn(int) -> int, h: spec_fn(int) -> int, n: nat)
    ensures
        int_sum(Seq::new(n, |i: int| g(i) + h(i))) == int_sum(Seq::new(n, g)) + int_sum(
            Seq::new(n, h),
        ),
    decreases n,
{
    if n > 0 {
        lemma_sum_add(g, h, (n - 1) as nat);
        assert(Seq::new(n, |i: int| g(i) + h(i)).drop_last() =~= Seq::new(
            (n - 1) as nat,
            |i: int| g(i) + h(i),
        ));
        assert(Seq::new(n, g).drop_last() =~= Seq::new((n - 1) as nat, g));
        assert(Seq::new(n, h).drop_last() =~= Seq::new((n - 1) as nat, h));
    }
}

/// Negating every term negates the sum.
pub proof fn lemma_sum_neg(g: spec_fn(int) -> int, n: nat)
    ensures
        int_sum(Seq::new(n, |i: int| -g(i))) == -int_sum(Seq::new(n, g)),
    decreases n,
{
    if n > 0 {
        lemma_sum_neg(g, (n - 1) as nat);
        assert(Seq::new(n, |i: int| -g(i)).drop_last() =~= Seq::new(
            (n - 1) as nat,
            |i: int| -g(i),
        ));
        assert(Seq::new(n, g).drop_last() =~= Seq::new((n - 1) as nat, g));
    }
}

/// A sum that grows by one term.
pub proof fn lemma_sum_step(g: spec_fn(int) -> int, n: nat)
    ensures
        int_sum(Seq::new(n + 1, g)) == int_sum(Seq::new(n, g)) + g(n as int),
{
    assert(Seq::new(n + 1, g).drop_last() =~= Seq::new(n, g));
}

/// Sums of sequences that agree everywhere are equal.
pub proof fn lemma_sum_congruent(g: spec_fn(int) -> int, h: spec_fn(int) -> int, n: nat)
    requires
        forall|i: int| 0 <= i < n ==> #[trigger] g(i) == h(i),
    ensures
        int_sum(Seq::new(n, g)) == int_sum(Seq::new(n, h)),
{
    assert(Seq::new(n, g) =~= Seq::new(n, h));
}

/// Taking out a zero term leaves the sum as it is.
pub proof fn lemma_sum_remove_zero(s: Seq<int>, j: int)
    requires
        0 <= j < s.len(),
        s[j] == 0,
    ensures
        int_sum(s.remove(j)) == int_sum(s),
    decreases s.len(),
{
    if j == s.len() - 1 {
        assert(s.remove(j) =~= s.drop_last());
    } else {
        lemma_sum_remove_zero(s.drop_last(), j);
        assert(s.remove(j).drop_last() =~= s.drop_last().remove(j));
    }
}

/// The entries of an antisymmetric table sum to zero.
pub proof fn lemma_antisymmetric_total(f: spec_fn(int, int) -> int, n: nat)
    requires
        antisymmetric(f, n),
    ensures
        table_total(f, n) == 0,
    decreases n,
{
    if n > 0 {
        let m = (n - 1) as nat;
        lemma_antisymmetric_total(f, m);
        assert forall|a: int, b: int| 0 <= a < m && 0 <= b < m implies #[trigger] f(a, b) == -f(
            b,
            a,
        ) by {
            assert(f(a, b) == -f(b, a));
        }
        // Each row of the larger table is the smaller row and one more term.
        assert forall|a: int| 0 <= a < n implies #[trigger] row_total(f, a, n) == row_total(
            f,
            a,
            m,
        ) + f(a, m as int) by {
            lemma_sum_step(|b: int| f(a, b), m);
        }
        let mi = m as int;
        let rows_n = |a: int| row_total(f, a, n);
        let rows_m = |a: int| row_total(f, a, m);
        let col = |a: int| f(a, mi);
        let row = |b: int| f(mi, b);
        let neg_row = |a: int| -f(mi, a);
        lemma_sum_congruent(rows_n, |a: int| rows_m(a) + col(a), n);
        lemma_sum_add(rows_m, col, n);
        assert(table_total(f, n) == int_sum(Seq::new(n, rows_m)) + int_sum(Seq::new(n, col)));
        lemma_sum_step(rows_m, m);
        assert(Seq::new(m, rows_m) =~= Seq::new(m, |a: int| row_total(f, a, m)));
        assert(int_sum(Seq::new(n, rows_m)) == table_total(f, m) + row_total(f, mi, m));
        lemma_sum_step(col, m);
        assert(f(mi, mi) == 0) by {
            assert(f(mi, mi) == -f(mi, mi));
        }
        assert forall|a: int| 0 <= a < m implies #[trigger] col(a) == neg_row(a) by {
            assert(f(a, mi) == -f(mi, a));
        }
        lemma_sum_congruent(col, neg_row, m);
        lemma_sum_neg(row, m);
        assert(Seq::new(m, |i: int| -row(i)) =~= Seq::new(m, neg_row));
        assert(Seq::new(m, row) =~= Seq::new(m, |b: int| f(mi, b)));
        assert(int_sum(Seq::new(n, col)) == -row_total(f, mi, m));
    }
}

/// A constant factor comes out of a sum.
pub proof fn lemma_sum_scale(c: int, g: spec_fn(int) -> int, n: nat)
    ensures
        int_sum(Seq::new(n, |i: int| c * g(i))) == c * int_sum(Seq::new(n, g)),
    decreases n,
{
    if n > 0 {
        let k = (n - 1) as nat;
        lemma_sum_scale(c, g, k);
        lemma_sum_step(|i: int| c * g(i), k);
        lemma_sum_step(g, k);
        vstd::arithmetic::mul::lemma_mul_is_distributive_add(c, int_sum(Seq::new(k, g)), g(k as int));
    }
}

/// A sum whose terms are zero but at `i` is the term at `i`.
pub proof fn lemma_sum_single(g: spec_fn(int) -> int, n: nat, i: int)
    requires
        0 <= i < n,
        forall|j: int| 0 <= j < n && j != i ==> #[trigger] g(j) == 0,
    ensures
        int_sum(Seq::new(n, g)) == g(i),
    decreases n,
{
    let k = (n - 1) as nat;
    lemma_sum_step(g, k);
    if i == k {
        lemma_sum_zero(g, k);
    } else {
        lemma_sum_single(g, k, i);
    }
}

/// A sum of zeros is zero.
pub proof fn lemma_sum_zero(g: spec_fn(int) -> int, n: nat)
    requires
        forall|j: int| 0 <= j < n ==> #[trigger] g(j) == 0,
    ensures
        int_sum(Seq::new(n, g)) == 0,
    decreases n,
{
    if n > 0 {
        lemma_sum_zero(g, (n - 1) as nat);
        lemma_sum_step(g, (n - 1) as nat);
    }
}

/// The table read by columns.
pub open spec fn transpose(f: spec_fn(int, int) -> int) -> spec_fn(int, int) -> int {
    |a: int, b: int| f(b, a)
}

/// Tables that agree everywhere have the same total.
pub proof fn lemma_table_congruent(f: spec_fn(int, int) -> int, g: spec_fn(int, int) -> int, n: nat)
    requires
        forall|a: int, b: int| 0 <= a < n && 0 <= b < n ==> #[trigger] f(a, b) == g(a, b),
    ensures
        table_total(f, n) == table_total(g, n),
{
    assert forall|a: int| 0 <= a < n implies #[trigger] row_total(f, a, n) == row_total(g, a, n) by {
        assert(Seq::new(n, |b: int| f(a, b)) =~= Seq::new(n, |b: int| g(a, b)));
    }
    assert(Seq::new(n, |a: int| row_total(f, a, n)) =~= Seq::new(n, |a: int| row_total(g, a, n)));
}

/// Totals add up entry by entry.
pub proof fn lemma_table_add(f: spec_fn(int, int) -> int, g: spec_fn(int, int) -> int, n: nat)
    ensures
        table_total(|a: int, b: int| f(a, b) + g(a, b), n) == table_total(f, n) + table_total(g, n),
{
    let h = |a: int, b: int| f(a, b) + g(a, b);
    assert forall|a: int| 0 <= a < n implies #[trigger] row_total(h, a, n) == row_total(f, a, n)
        + row_total(g, a, n) by {
        let fa = |b: int| f(a, b);
        let ga = |b: int| g(a, b);
        lemma_sum_add(fa, ga, n);
        assert(Seq::new(n, |b: int| h(a, b)) =~= Seq::new(n, |i: int| fa(i) + ga(i)));
        assert(Seq::new(n, |b: int| f(a, b)) =~= Seq::new(n, fa));
        assert(Seq::new(n, |b: int| g(a, b)) =~= Seq::new(n, ga));
    }
    let rf = |a: int| row_total(f, a, n);
    let rg = |a: int| row_total(g, a, n);
    lemma_sum_congruent(|a: int| row_total(h, a, n), |a: int| rf(a) + rg(a), n);
    lemma_sum_add(rf, rg, n);
    assert(Seq::new(n, |a: int| row_total(h, a, n)) =~= Seq::new(
        n,
        |a: int| row_total(|a: int, b: int| f(a, b) + g(a, b), a, n),
    ));
    assert(Seq::new(n, rf) =~= Seq::new(n, |a: int| row_total(f, a, n)));
    assert(Seq::new(n, rg) =~= Seq::new(n, |a: int| row_total(g, a, n)));
}

/// Reading a table by columns gives the same total.
pub proof fn lemma_table_transpose(f: spec_fn(int, int) -> int, n: nat)
    ensures
        table_total(transpose(f), n) == table_total(f, n),
    decreases n,
{
    if n > 0 {
        let m = (n - 1) as nat;
        let mi = m as int;
        let t = transpose(f);
        lemma_table_transpose(f, m);
        lemma_table_grow(f, m);
        lemma_table_grow(t, m);
        // the new row of the transpose is the new column of the table
        assert(Seq::new(m, |b: int| t(mi, b)) =~= Seq::new(m, |a: int| f(a, mi)));
        assert(Seq::new(m, |a: int| t(a, mi)) =~= Seq::new(m, |b: int| f(mi, b)));
    }
}

/// A table of `n + 1` rows and columns is the smaller table, the new row
/// and column, and the corner.
pub proof fn lemma_table_grow(f: spec_fn(int, int) -> int, m: nat)
    ensures
        table_total(f, m + 1) == table_total(f, m) + int_sum(Seq::new(m, |b: int| f(m as int, b)))
            + int_sum(Seq::new(m, |a: int| f(a, m as int))) + f(m as int, m as int),
{
    let n = m + 1;
    let mi = m as int;
    let rows_n = |a: int| row_total(f, a, n);
    let rows_m = |a: int| row_total(f, a, m);
    let col = |a: int| f(a, mi);
    assert forall|a: int| 0 <= a < n implies #[trigger] rows_n(a) == rows_m(a) + col(a) by {
        lemma_sum_step(|b: int| f(a, b), m);
    }
    lemma_sum_congruent(rows_n, |a: int| rows_m(a) + col(a), n);
    lemma_sum_add(rows_m, col, n);
    assert(Seq::new(n, rows_n) =~= Seq::new(n, |a: int| row_total(f, a, n)));
    assert(table_total(f, n) == int_sum(Seq::new(n, rows_m)) + int_sum(Seq::new(n, col)));
    lemma_sum_step(rows_m, m);
    assert(Seq::new(m, rows_m) =~= Seq::new(m, |a: int| row_total(f, a, m)));
    lemma_sum_step(col, m);
    assert(Seq::new(m, col) =~= Seq::new(m, |a: int| f(a, mi)));
}

/// The table of products `x(a) * y(b)` totals the product of the sums.
pub proof fn lemma_table_product(x: spec_fn(int) -> int, y: spec_fn(int) -> int, n: nat)
    ensures
        table_total(|a: int, b: int| x(a) * y(b), n) == int_sum(Seq::new(n, x)) * int_sum(
            Seq::new(n, y),
        ),
{
    let f = |a: int, b: int| x(a) * y(b);
    let sy = int_sum(Seq::new(n, y));
    assert forall|a: int| 0 <= a < n implies #[trigger] row_total(f, a, n) == x(a) * sy by {
        lemma_sum_scale(x(a), y, n);
        assert(Seq::new(n, |b: int| f(a, b)) =~= Seq::new(n, |i: int| x(a) * y(i)));
    }
    lemma_sum_congruent(|a: int| row_total(f, a, n), |a: int| sy * x(a), n);
    lemma_sum_scale(sy, x, n);
}

} // verus!
