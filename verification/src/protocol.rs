//! Freivald's check: whether a claimed product of two square matrices holds,
//! decided by one random probe at the price of three products with a vector.

use vstd::prelude::*;
use vstd::arithmetic::div_mod::{lemma_mul_mod_noop_left, lemma_mul_mod_noop_right};
use vstd::arithmetic::mul::{lemma_mul_is_commutative, lemma_mul_is_distributive_sub_other_way};
use vstd::arithmetic::power::{lemma_pow0, pow};
use vstd::set_lib::{lemma_int_range, lemma_len_subset, set_int_range};
use crate::field::{reduce, Fp, MODULUS};
use crate::matrix::{dot, dot_term, elems, mat_vec, vector_equals, Matrix, ShapeError};
use crate::poly::{
    distinct_residues, eval, is_root, lemma_eval_is_sum, lemma_list_members, lemma_root_bound,
    poly_term,
};
use crate::product::{
    is_product, lemma_associate_row, lemma_product_agrees, product_entry, same_dimension,
    weighted_row,
};
use crate::sums::{lemma_sum_congruent, lemma_sum_minus, minus, sum};

verus! {

/// The probe for the draw `r`: the residues of the powers `r^0, r^1, ..., r^(n-1)`.
pub open spec fn probe(r: int, n: nat) -> Seq<int> {
    Seq::new(n, |k: int| reduce(pow(r, k as nat)))
}

/// Whether the check accepts the claim that `a` times `b` is `c` when the
/// draw is `r`: `a` times (`b` times the probe) is `c` times the probe.
pub open spec fn accepts(a: Seq<Seq<int>>, b: Seq<Seq<int>>, c: Seq<Seq<int>>, r: int) -> bool {
    mat_vec(a, mat_vec(b, probe(r, a.len()))) == mat_vec(c, probe(r, a.len()))
}

/// Completeness: a claim that holds is accepted whatever the draw.
pub proof fn lemma_completeness(a: Seq<Seq<int>>, b: Seq<Seq<int>>, c: Seq<Seq<int>>, r: int)
    requires
        same_dimension(a, b, c),
        is_product(a, b, c),
    ensures
        accepts(a, b, c, r),
{
    lemma_product_agrees(a, b, c, probe(r, a.len()));
}

/// Matrices without rows are accepted whatever the draw.
pub proof fn lemma_empty_accepted(a: Seq<Seq<int>>, b: Seq<Seq<int>>, c: Seq<Seq<int>>, r: int)
    requires
        a.len() == 0,
        c.len() == 0,
    ensures
        accepts(a, b, c, r),
{
    assert(mat_vec(a, mat_vec(b, probe(r, 0))) =~= mat_vec(c, probe(r, 0)));
}

/// Row `i` of the mismatch of a claim, as the coefficients of a polynomial:
/// entry `(i, j)` of the product of `a` with `b`, less that of `c`.
pub open spec fn mismatch_row(a: Seq<Seq<int>>, b: Seq<Seq<int>>, c: Seq<Seq<int>>, i: int) -> Seq<
    int,
> {
    Seq::new(a.len(), |j: int| product_entry(a, b, i, j) - c[i][j])
}

/// The two sides of the check agree in entry `i` exactly where the draw is a
/// root of row `i` of the mismatch.
pub proof fn lemma_entry_agrees_iff_root(
    a: Seq<Seq<int>>,
    b: Seq<Seq<int>>,
    c: Seq<Seq<int>>,
    r: int,
    i: int,
)
    requires
        same_dimension(a, b, c),
        0 <= i < a.len(),
    ensures
        mat_vec(a, mat_vec(b, probe(r, a.len())))[i] == mat_vec(c, probe(r, a.len()))[i]
            <==> is_root(mismatch_row(a, b, c, i), r),
{
    let n = a.len();
    let p = MODULUS as int;
    let v = probe(r, n);
    let e = mismatch_row(a, b, c, i);
    let g = weighted_row(a, b, v, i);
    let h = dot_term(c[i], v);
    assert(c[i].len() == n);
    lemma_associate_row(a, b, v, i);
    lemma_eval_is_sum(e, r);
    assert forall|j: int| 0 <= j < n implies #[trigger] poly_term(e, r)(j) % p == minus(g, h)(j)
        % p by {
        lemma_mul_mod_noop_right(e[j], pow(r, j as nat), p);
        lemma_mul_is_distributive_sub_other_way(v[j], product_entry(a, b, i, j), c[i][j]);
        lemma_mul_is_commutative(product_entry(a, b, i, j), v[j]);
    }
    lemma_sum_congruent(poly_term(e, r), minus(g, h), n, p);
    lemma_sum_minus(g, h, n);
    assert(reduce(eval(e, r)) == reduce(sum(g, n) - sum(h, n)));
    assert(dot(c[i], v) == sum(h, n));
}

/// Soundness: a claim that fails is accepted by fewer draws than the
/// matrices have rows. Of the 17 elements of the field, at most n - 1 let a
/// wrong product of n×n matrices pass.
pub proof fn lemma_soundness(
    a: Seq<Seq<int>>,
    b: Seq<Seq<int>>,
    c: Seq<Seq<int>>,
    draws: Seq<int>,
)
    requires
        same_dimension(a, b, c),
        !is_product(a, b, c),
        distinct_residues(draws),
        forall|k: int| 0 <= k < draws.len() ==> accepts(a, b, c, #[trigger] draws[k]),
    ensures
        draws.len() < a.len(),
{
    let (i, j) = choose|i: int, j: int|
        0 <= i < a.len() && 0 <= j < a.len() && reduce(#[trigger] c[i][j]) != reduce(
            product_entry(a, b, i, j),
        );
    let e = mismatch_row(a, b, c, i);
    assert(reduce(e[j]) != 0);
    assert forall|k: int| 0 <= k < draws.len() implies is_root(e, #[trigger] draws[k]) by {
        lemma_entry_agrees_iff_root(a, b, c, draws[k], i);
    }
    lemma_root_bound(e, draws);
}

/// The elements of the field that, drawn, let the claim pass.
pub open spec fn accepted_draws(a: Seq<Seq<int>>, b: Seq<Seq<int>>, c: Seq<Seq<int>>) -> Set<int> {
    Set::new(|r: int| 0 <= r < MODULUS && accepts(a, b, c, r))
}

/// The soundness bound: of the 17 elements of the field, at most n - 1 let a
/// wrong product of n×n matrices pass, so a uniform draw accepts it with
/// probability at most (n - 1) / 17.
pub proof fn lemma_false_accepts_bound(a: Seq<Seq<int>>, b: Seq<Seq<int>>, c: Seq<Seq<int>>)
    requires
        same_dimension(a, b, c),
        !is_product(a, b, c),
    ensures
        accepted_draws(a, b, c).finite(),
        accepted_draws(a, b, c).len() <= a.len() - 1,
{
    let s = accepted_draws(a, b, c);
    lemma_int_range(0, MODULUS as int);
    lemma_len_subset(s, set_int_range(0, MODULUS as int));
    let xs = lemma_list_members(s);
    lemma_soundness(a, b, c, xs);
}

/// One draw from the generator that `ark_std::test_rng` hands out, taken by
/// `ark_std::rand::Rng::gen`. How that generator is seeded depends on how
/// `ark_std` was built and on the environment, so nothing is claimed of the
/// number drawn.
#[verifier::external_body]
fn draw() -> u64 {
    let mut rng = ark_std::test_rng();
    ark_std::rand::Rng::gen::<u64>(&mut rng)
}

/// The probe vector of length `n` for the draw `r`, built by repeated
/// multiplication by `r`.
pub fn probe_vector(r: Fp, n: usize) -> (v: Vec<Fp>)
    ensures
        v@.len() == n,
        elems(v@) == probe(r@, n as nat),
{
    let mut v: Vec<Fp> = Vec::new();
    let mut cur: Fp = Fp::one();
    let mut k: usize = 0;
    proof {
        lemma_pow0(r@);
    }
    while k < n
        invariant
            k <= n,
            v@.len() == k,
            cur@ == reduce(pow(r@, k as nat)),
            forall|t: int| 0 <= t < k ==> (#[trigger] v@[t])@ == reduce(pow(r@, t as nat)),
        decreases n - k,
    {
        v.push(cur);
        proof {
            let q = pow(r@, k as nat);
            assert(pow(r@, (k + 1) as nat) == r@ * q) by {
                reveal_with_fuel(pow, 2);
            }
            lemma_mul_is_commutative(r@, q);
            lemma_mul_mod_noop_left(q, r@, MODULUS as int);
        }
        cur = cur.mul(r);
        k += 1;
    }
    assert(elems(v@) =~= probe(r@, n as nat));
    v
}

/// Whether the three matrices are square of one common dimension.
pub fn shapes_agree(a: &Matrix, b: &Matrix, c: &Matrix) -> (agree: bool)
    ensures
        agree == same_dimension(a@, b@, c@),
{
    let n: usize = a.len();
    a.is_square_of(n) && b.is_square_of(n) && c.is_square_of(n)
}

/// The check with the draw `r` given: whether `a` times (`b` times the probe
/// for `r`) equals `c` times that probe.
///
/// Matrices that are not square of one common dimension are refused.
pub fn verify_with(a: &Matrix, b: &Matrix, c: &Matrix, r: Fp) -> (res: Result<bool, ShapeError>)
    ensures
        same_dimension(a@, b@, c@) ==> res == Ok::<bool, ShapeError>(accepts(a@, b@, c@, r@)),
        !same_dimension(a@, b@, c@) ==> res == Err::<bool, ShapeError>(ShapeError::ShapeMismatch),
{
    if !shapes_agree(a, b, c) {
        return Err(ShapeError::ShapeMismatch);
    }
    let v: Vec<Fp> = probe_vector(r, a.len());
    let bv: Vec<Fp> = match b.mul(&v) {
        Ok(x) => x,
        Err(e) => {
            return Err(e);
        },
    };
    assert(bv@.len() == elems(bv@).len());
    let left: Vec<Fp> = match a.mul(&bv) {
        Ok(x) => x,
        Err(e) => {
            return Err(e);
        },
    };
    let right: Vec<Fp> = match c.mul(&v) {
        Ok(x) => x,
        Err(e) => {
            return Err(e);
        },
    };
    Ok(vector_equals(&left, &right))
}

/// Freivald's check of the claim that `a` times `b` is `c`, with one random
/// draw.
///
/// Matrices that are not square of one common dimension are refused before
/// anything is drawn. Otherwise the answer is that of `verify_with` for some
/// element of the field. A claim that holds is always accepted, and so are
/// matrices without rows; a claim that fails may be accepted by an unlucky
/// draw.
pub fn verify(a: &Matrix, b: &Matrix, c: &Matrix) -> (res: Result<bool, ShapeError>)
    ensures
        !same_dimension(a@, b@, c@) ==> res == Err::<bool, ShapeError>(ShapeError::ShapeMismatch),
        same_dimension(a@, b@, c@) ==> exists|r: int|
            0 <= r < MODULUS && res == Ok::<bool, ShapeError>(#[trigger] accepts(a@, b@, c@, r)),
        same_dimension(a@, b@, c@) && is_product(a@, b@, c@) ==> res == Ok::<bool, ShapeError>(
            true,
        ),
        same_dimension(a@, b@, c@) && a@.len() == 0 ==> res == Ok::<bool, ShapeError>(true),
{
    if !shapes_agree(a, b, c) {
        return Err(ShapeError::ShapeMismatch);
    }
    let r: Fp = Fp::new(draw());
    let res = verify_with(a, b, c, r);
    proof {
        if is_product(a@, b@, c@) {
            lemma_completeness(a@, b@, c@, r@);
        }
        if a@.len() == 0 {
            lemma_empty_accepted(a@, b@, c@, r@);
        }
    }
    res
}

} // verus!
