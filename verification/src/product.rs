//! The product of two matrices, and the law that ties it to the product of a
//! matrix with a vector.

use vstd::prelude::*;
use vstd::arithmetic::div_mod::lemma_mul_mod_noop_right;
use vstd::arithmetic::mul::{lemma_mul_is_associative, lemma_mul_is_commutative};
use crate::field::{reduce, MODULUS};
use crate::matrix::{dot, dot_term, is_square, mat_vec};
use crate::sums::{
    col_sums, lemma_sum_congruent, lemma_sum_equal, lemma_sum_exchange, lemma_sum_scaled,
    row_sums, scaled, slice_col, slice_row, sum,
};

verus! {

/// The terms `a[i][k] * b[k][j]` of entry `(i, j)` of a product.
pub open spec fn product_term(a: Seq<Seq<int>>, b: Seq<Seq<int>>, i: int, j: int) -> spec_fn(
    int,
) -> int {
    |k: int| a[i][k] * b[k][j]
}

/// Entry `(i, j)` of the product of `a` with `b`, as an integer.
pub open spec fn product_entry(a: Seq<Seq<int>>, b: Seq<Seq<int>>, i: int, j: int) -> int {
    sum(product_term(a, b, i, j), a.len())
}

/// Whether `a`, `b` and `c` are square of one common dimension.
pub open spec fn same_dimension(a: Seq<Seq<int>>, b: Seq<Seq<int>>, c: Seq<Seq<int>>) -> bool {
    &&& is_square(a, a.len())
    &&& is_square(b, a.len())
    &&& is_square(c, a.len())
}

/// Whether `c` is the product of `a` with `b` in the field: each entry of `c`
/// is congruent to the entry of the product at its place.
pub open spec fn is_product(a: Seq<Seq<int>>, b: Seq<Seq<int>>, c: Seq<Seq<int>>) -> bool {
    forall|i: int, j: int|
        0 <= i < a.len() && 0 <= j < a.len() ==> reduce(#[trigger] c[i][j]) == reduce(
            product_entry(a, b, i, j),
        )
}

/// The terms `a[i][k] * (b[k][j] * v[j])` of entry `i` of `a` times `b` times `v`.
pub open spec fn triple_term(a: Seq<Seq<int>>, b: Seq<Seq<int>>, v: Seq<int>, i: int) -> spec_fn(
    int,
    int,
) -> int {
    |k: int, j: int| a[i][k] * (b[k][j] * v[j])
}

/// The terms `v[j]` times entry `(i, j)` of the product of `a` with `b`.
pub open spec fn weighted_row(a: Seq<Seq<int>>, b: Seq<Seq<int>>, v: Seq<int>, i: int) -> spec_fn(
    int,
) -> int {
    |j: int| v[j] * product_entry(a, b, i, j)
}

/// Row `i` of `a` times the column `b` times `v` is congruent to row `i` of
/// the product of `a` with `b`, times `v`.
pub proof fn lemma_associate_row(a: Seq<Seq<int>>, b: Seq<Seq<int>>, v: Seq<int>, i: int)
    requires
        is_square(a, a.len()),
        is_square(b, a.len()),
        v.len() == a.len(),
        0 <= i < a.len(),
    ensures
        reduce(dot(a[i], mat_vec(b, v))) == reduce(sum(weighted_row(a, b, v, i), a.len())),
{
    let n = a.len();
    let p = MODULUS as int;
    let w = mat_vec(b, v);
    let f = triple_term(a, b, v, i);
    assert(a[i].len() == n);
    assert forall|k: int| 0 <= k < n implies #[trigger] dot_term(a[i], w)(k) % p == row_sums(
        f,
        n,
    )(k) % p by {
        assert(b[k].len() == n);
        lemma_sum_scaled(a[i][k], dot_term(b[k], v), n);
        lemma_sum_equal(scaled(a[i][k], dot_term(b[k], v)), slice_row(f, k), n);
        lemma_mul_mod_noop_right(a[i][k], dot(b[k], v), p);
    }
    lemma_sum_congruent(dot_term(a[i], w), row_sums(f, n), n, p);
    lemma_sum_exchange(f, n, n);
    assert forall|j: int| 0 <= j < n implies #[trigger] col_sums(f, n)(j) == weighted_row(
        a,
        b,
        v,
        i,
    )(j) by {
        let g = product_term(a, b, i, j);
        assert forall|k: int| 0 <= k < n implies #[trigger] slice_col(f, j)(k) == scaled(v[j], g)(
            k,
        ) by {
            lemma_mul_is_associative(a[i][k], b[k][j], v[j]);
            lemma_mul_is_commutative(a[i][k] * b[k][j], v[j]);
        }
        lemma_sum_equal(slice_col(f, j), scaled(v[j], g), n);
        lemma_sum_scaled(v[j], g, n);
    }
    lemma_sum_equal(col_sums(f, n), weighted_row(a, b, v, i), n);
}

/// Where `c` is the product of `a` with `b`, row `i` of `a` times the column
/// `b` times `v` is congruent to row `i` of `c` times `v`.
pub proof fn lemma_product_row(
    a: Seq<Seq<int>>,
    b: Seq<Seq<int>>,
    c: Seq<Seq<int>>,
    v: Seq<int>,
    i: int,
)
    requires
        same_dimension(a, b, c),
        is_product(a, b, c),
        v.len() == a.len(),
        0 <= i < a.len(),
    ensures
        reduce(dot(a[i], mat_vec(b, v))) == reduce(dot(c[i], v)),
{
    let n = a.len();
    let p = MODULUS as int;
    assert(c[i].len() == n);
    lemma_associate_row(a, b, v, i);
    assert forall|j: int| 0 <= j < n implies #[trigger] weighted_row(a, b, v, i)(j) % p
        == dot_term(c[i], v)(j) % p by {
        lemma_mul_mod_noop_right(v[j], product_entry(a, b, i, j), p);
        lemma_mul_mod_noop_right(v[j], c[i][j], p);
        lemma_mul_is_commutative(c[i][j], v[j]);
    }
    lemma_sum_congruent(weighted_row(a, b, v, i), dot_term(c[i], v), n, p);
}

/// Where `c` is the product of `a` with `b`, multiplying a vector by `b` and
/// then by `a` gives what multiplying it by `c` gives.
pub proof fn lemma_product_agrees(
    a: Seq<Seq<int>>,
    b: Seq<Seq<int>>,
    c: Seq<Seq<int>>,
    v: Seq<int>,
)
    requires
        same_dimension(a, b, c),
        is_product(a, b, c),
        v.len() == a.len(),
    ensures
        mat_vec(a, mat_vec(b, v)) == mat_vec(c, v),
{
    assert forall|i: int| 0 <= i < a.len() implies mat_vec(a, mat_vec(b, v))[i] == mat_vec(c, v)[i] by {
        lemma_product_row(a, b, c, v, i);
    }
    assert(mat_vec(a, mat_vec(b, v)) =~= mat_vec(c, v));
}

} // verus!
