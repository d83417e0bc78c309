//! Finite sums of integer terms, and the laws of them that the algebra of
//! matrices rests on.

use vstd::prelude::*;
use vstd::arithmetic::div_mod::lemma_add_mod_noop;
use vstd::arithmetic::mul::lemma_mul_is_distributive_add;

verus! {

/// The sum `f(0) + f(1) + ... + f(n - 1)`.
pub open spec fn sum(f: spec_fn(int) -> int, n: nat) -> int
    decreases n,
{
    if n == 0 {
        0
    } else {
        sum(f, (n - 1) as nat) + f(n - 1)
    }
}

/// The terms of `f`, each multiplied by `c`.
pub open spec fn scaled(c: int, f: spec_fn(int) -> int) -> spec_fn(int) -> int {
    |j: int| c * f(j)
}

/// The terms of `g` and `h` added position by position.
pub open spec fn plus(g: spec_fn(int) -> int, h: spec_fn(int) -> int) -> spec_fn(int) -> int {
    |j: int| g(j) + h(j)
}

/// The terms of `g` less those of `h`, position by position.
pub open spec fn minus(g: spec_fn(int) -> int, h: spec_fn(int) -> int) -> spec_fn(int) -> int {
    |j: int| g(j) - h(j)
}

/// The terms of `f` from its second on.
pub open spec fn shifted(f: spec_fn(int) -> int) -> spec_fn(int) -> int {
    |j: int| f(j + 1)
}

/// Row `k` of a table of terms.
pub open spec fn slice_row(f: spec_fn(int, int) -> int, k: int) -> spec_fn(int) -> int {
    |j: int| f(k, j)
}

/// Column `j` of a table of terms.
pub open spec fn slice_col(f: spec_fn(int, int) -> int, j: int) -> spec_fn(int) -> int {
    |k: int| f(k, j)
}

/// For each row of a table, the sum of its first `m` terms.
pub open spec fn row_sums(f: spec_fn(int, int) -> int, m: nat) -> spec_fn(int) -> int {
    |k: int| sum(slice_row(f, k), m)
}

/// For each column of a table, the sum of its first `n` terms.
pub open spec fn col_sums(f: spec_fn(int, int) -> int, n: nat) -> spec_fn(int) -> int {
    |j: int| sum(slice_col(f, j), n)
}

/// Sums of terms that agree position by position are equal.
pub proof fn lemma_sum_equal(f: spec_fn(int) -> int, g: spec_fn(int) -> int, n: nat)
    requires
        forall|j: int| 0 <= j < n ==> #[trigger] f(j) == g(j),
    ensures
        sum(f, n) == sum(g, n),
    decreases n,
{
    if n > 0 {
        lemma_sum_equal(f, g, (n - 1) as nat);
    }
}

/// Sums of terms that are congruent position by position are congruent.
pub proof fn lemma_sum_congruent(f: spec_fn(int) -> int, g: spec_fn(int) -> int, n: nat, m: int)
    requires
        0 < m,
        forall|j: int| 0 <= j < n ==> #[trigger] f(j) % m == g(j) % m,
    ensures
        sum(f, n) % m == sum(g, n) % m,
    decreases n,
{
    if n > 0 {
        lemma_sum_congruent(f, g, (n - 1) as nat, m);
        lemma_add_mod_noop(sum(f, (n - 1) as nat), f(n - 1), m);
        lemma_add_mod_noop(sum(g, (n - 1) as nat), g(n - 1), m);
    }
}

/// A common factor moves out of a sum.
pub proof fn lemma_sum_scaled(c: int, f: spec_fn(int) -> int, n: nat)
    ensures
        sum(scaled(c, f), n) == c * sum(f, n),
    decreases n,
{
    if n > 0 {
        lemma_sum_scaled(c, f, (n - 1) as nat);
        lemma_mul_is_distributive_add(c, sum(f, (n - 1) as nat), f(n - 1));
    } else {
        assert(c * 0 == 0);
    }
}

/// The sum of sums taken position by position is the sum of the sums.
pub proof fn lemma_sum_plus(g: spec_fn(int) -> int, h: spec_fn(int) -> int, n: nat)
    ensures
        sum(plus(g, h), n) == sum(g, n) + sum(h, n),
    decreases n,
{
    if n > 0 {
        lemma_sum_plus(g, h, (n - 1) as nat);
    }
}

/// The sum of differences taken position by position is the difference of
/// the sums.
pub proof fn lemma_sum_minus(g: spec_fn(int) -> int, h: spec_fn(int) -> int, n: nat)
    ensures
        sum(minus(g, h), n) == sum(g, n) - sum(h, n),
    decreases n,
{
    if n > 0 {
        lemma_sum_minus(g, h, (n - 1) as nat);
    }
}

/// A sum is its first term and the sum of the others.
pub proof fn lemma_sum_peel_first(f: spec_fn(int) -> int, n: nat)
    requires
        n > 0,
    ensures
        sum(f, n) == f(0) + sum(shifted(f), (n - 1) as nat),
    decreases n,
{
    if n > 1 {
        lemma_sum_peel_first(f, (n - 1) as nat);
    } else {
        assert(sum(f, 0) == 0);
        assert(sum(shifted(f), 0) == 0);
    }
}

/// A table of `n` rows and `m` columns has one total, whether its rows or
/// its columns are summed first.
pub proof fn lemma_sum_exchange(f: spec_fn(int, int) -> int, n: nat, m: nat)
    ensures
        sum(row_sums(f, m), n) == sum(col_sums(f, n), m),
    decreases n,
{
    if n == 0 {
        lemma_sum_scaled(0, col_sums(f, 0), m);
        assert(0 * sum(col_sums(f, 0), m) == 0);
        lemma_sum_equal(col_sums(f, 0), scaled(0, col_sums(f, 0)), m);
    } else {
        let p = (n - 1) as nat;
        lemma_sum_exchange(f, p, m);
        lemma_sum_plus(col_sums(f, p), slice_row(f, p as int), m);
        lemma_sum_equal(col_sums(f, n), plus(col_sums(f, p), slice_row(f, p as int)), m);
    }
}

} // verus!
