//! Polynomials over the field, by their coefficients, and the bound on the
//! number of their roots.

use vstd::prelude::*;
use vstd::arithmetic::div_mod::{lemma_mul_mod_noop, lemma_mul_mod_noop_right};
use vstd::arithmetic::mul::{lemma_mul_is_associative, lemma_mul_is_commutative};
use vstd::arithmetic::power::{lemma_pow0, pow};
use crate::field::{reduce, MODULUS};
use crate::sums::{
    lemma_sum_equal, lemma_sum_peel_first, lemma_sum_scaled, scaled, shifted, sum,
};

verus! {

/// The value at `x` of the polynomial with the coefficients `d`, that of the
/// constant term first.
pub open spec fn eval(d: Seq<int>, x: int) -> int
    decreases d.len(),
{
    if d.len() == 0 {
        0
    } else {
        d[0] + x * eval(d.drop_first(), x)
    }
}

/// The terms `d[j] * x^j` of a polynomial.
pub open spec fn poly_term(d: Seq<int>, x: int) -> spec_fn(int) -> int {
    |j: int| d[j] * pow(x, j as nat)
}

/// The coefficients of the quotient of the polynomial `d` by `x - s`.
pub open spec fn quotient(d: Seq<int>, s: int) -> Seq<int>
    decreases d.len(),
{
    if d.len() <= 1 {
        Seq::empty()
    } else {
        seq![eval(d.drop_first(), s)] + quotient(d.drop_first(), s)
    }
}

/// Whether some coefficient of `d` is not a multiple of the modulus.
pub open spec fn is_nonzero(d: Seq<int>) -> bool {
    exists|j: int| 0 <= j < d.len() && reduce(#[trigger] d[j]) != 0
}

/// Whether `x` is a root of `d` in the field.
pub open spec fn is_root(d: Seq<int>, x: int) -> bool {
    reduce(eval(d, x)) == 0
}

/// Whether the members of `xs` stand for different elements of the field.
pub open spec fn distinct_residues(xs: Seq<int>) -> bool {
    forall|k: int, l: int| 0 <= k < l < xs.len() ==> reduce(#[trigger] xs[k]) != reduce(#[trigger] xs[l])
}

/// The field has no zero divisors: a product is a multiple of the modulus
/// only where a factor is.
pub proof fn lemma_no_zero_divisors(x: int, y: int)
    requires
        reduce(x * y) == 0,
    ensures
        reduce(x) == 0 || reduce(y) == 0,
{
    let xr = reduce(x);
    let yr = reduce(y);
    lemma_mul_mod_noop(x, y, MODULUS as int);
    if xr != 0 && yr != 0 {
        let a = xr as u8;
        let b = yr as u8;
        assert((a * b) % 17 != 0) by (bit_vector)
            requires
                1 <= a <= 16,
                1 <= b <= 16,
        ;
        assert(a * b == xr * yr);
    }
}

/// The value of a polynomial is the sum of its terms.
pub proof fn lemma_eval_is_sum(d: Seq<int>, x: int)
    ensures
        eval(d, x) == sum(poly_term(d, x), d.len()),
    decreases d.len(),
{
    if d.len() > 0 {
        let rest = d.drop_first();
        let m = rest.len();
        lemma_eval_is_sum(rest, x);
        lemma_sum_peel_first(poly_term(d, x), d.len());
        lemma_pow0(x);
        assert forall|j: int| 0 <= j < m implies #[trigger] shifted(poly_term(d, x))(j) == scaled(
            x,
            poly_term(rest, x),
        )(j) by {
            let q = pow(x, j as nat);
            assert(pow(x, (j + 1) as nat) == x * q) by {
                reveal_with_fuel(pow, 2);
            }
            lemma_mul_is_associative(rest[j], x, q);
            lemma_mul_is_commutative(rest[j], x);
            lemma_mul_is_associative(x, rest[j], q);
        }
        lemma_sum_equal(shifted(poly_term(d, x)), scaled(x, poly_term(rest, x)), m);
        lemma_sum_scaled(x, poly_term(rest, x), m);
    }
}

/// The factor theorem: the value of a polynomial at `x` and its value at `s`
/// differ by `x - s` times the value of the quotient at `x`.
pub proof fn lemma_factor(d: Seq<int>, s: int, x: int)
    ensures
        eval(d, x) - eval(d, s) == (x - s) * eval(quotient(d, s), x),
    decreases d.len(),
{
    if d.len() == 0 {
        assert((x - s) * 0 == 0);
    } else if d.len() == 1 {
        assert(eval(d.drop_first(), x) == 0);
        assert(eval(d.drop_first(), s) == 0);
        assert(x * 0 == 0 && s * 0 == 0 && (x - s) * 0 == 0);
    } else {
        let rest = d.drop_first();
        let g = quotient(d, s);
        assert(g.drop_first() =~= quotient(rest, s));
        lemma_factor(rest, s, x);
        let qx = eval(rest, x);
        let qs = eval(rest, s);
        let h = eval(quotient(rest, s), x);
        assert(eval(g, x) == qs + x * h);
        assert(x * qx - s * qs == (x - s) * (qs + x * h)) by (nonlinear_arith)
            requires
                qx - qs == (x - s) * h,
        ;
    }
}

/// The quotient has one coefficient less, and the same leading coefficient.
pub proof fn lemma_quotient_leading(d: Seq<int>, s: int)
    requires
        d.len() >= 2,
    ensures
        quotient(d, s).len() == d.len() - 1,
        quotient(d, s).last() == d.last(),
    decreases d.len(),
{
    let rest = d.drop_first();
    if d.len() == 2 {
        assert(eval(rest.drop_first(), s) == 0);
        assert(s * 0 == 0);
        assert(quotient(rest, s).len() == 0);
    } else {
        lemma_quotient_leading(rest, s);
    }
}

/// A leading coefficient that is a multiple of the modulus can be left out.
pub proof fn lemma_drop_zero_leading(d: Seq<int>, x: int)
    requires
        d.len() >= 1,
        reduce(d.last()) == 0,
    ensures
        reduce(eval(d, x)) == reduce(eval(d.drop_last(), x)),
    decreases d.len(),
{
    let rest = d.drop_first();
    if d.len() == 1 {
        assert(eval(rest, x) == 0);
        assert(x * 0 == 0);
    } else {
        lemma_drop_zero_leading(rest, x);
        assert(d.drop_last().drop_first() =~= rest.drop_last());
        lemma_mul_mod_noop_right(x, eval(rest, x), MODULUS as int);
        lemma_mul_mod_noop_right(x, eval(rest.drop_last(), x), MODULUS as int);
    }
}

/// The members of a finite set, each listed once.
pub proof fn lemma_list_members(s: Set<int>) -> (xs: Seq<int>)
    requires
        s.finite(),
    ensures
        xs.len() == s.len(),
        xs.no_duplicates(),
        forall|k: int| 0 <= k < xs.len() ==> s.contains(#[trigger] xs[k]),
    decreases s.len(),
{
    if s.len() == 0 {
        Seq::empty()
    } else {
        let x = s.choose();
        let rest = lemma_list_members(s.remove(x));
        rest.push(x)
    }
}

/// A polynomial with `n` coefficients, not all of them zero in the field, has
/// fewer than `n` roots in the field.
pub proof fn lemma_root_bound(d: Seq<int>, roots: Seq<int>)
    requires
        is_nonzero(d),
        distinct_residues(roots),
        forall|k: int| 0 <= k < roots.len() ==> is_root(d, #[trigger] roots[k]),
    ensures
        roots.len() < d.len(),
    decreases d.len(),
{
    let n = d.len();
    let j = choose|j: int| 0 <= j < d.len() && reduce(#[trigger] d[j]) != 0;
    if reduce(d.last()) == 0 {
        let low = d.drop_last();
        assert(reduce(low[j]) != 0);
        assert forall|k: int| 0 <= k < roots.len() implies is_root(low, #[trigger] roots[k]) by {
            lemma_drop_zero_leading(d, roots[k]);
        }
        lemma_root_bound(low, roots);
    } else if roots.len() > 0 {
        let s = roots[0];
        assert(is_root(d, s));
        if n == 1 {
            assert(eval(d.drop_first(), s) == 0);
            assert(s * 0 == 0);
        } else {
            let g = quotient(d, s);
            let others = roots.drop_first();
            lemma_quotient_leading(d, s);
            assert(reduce(g[n - 2]) != 0);
            assert forall|k: int| 0 <= k < others.len() implies is_root(g, #[trigger] others[k]) by {
                let t = roots[k + 1];
                assert(is_root(d, t));
                assert(reduce(roots[0]) != reduce(roots[k + 1]));
                lemma_factor(d, s, t);
                lemma_no_zero_divisors(t - s, eval(g, t));
            }
            assert forall|k: int, l: int| 0 <= k < l < others.len() implies reduce(
                #[trigger] others[k],
            ) != reduce(#[trigger] others[l]) by {
                assert(reduce(roots[k + 1]) != reduce(roots[l + 1]));
            }
            lemma_root_bound(g, others);
        }
    }
}

} // verus!
