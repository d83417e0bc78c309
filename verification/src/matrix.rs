//! Vectors and matrices over the field, and the product of a matrix with a
//! vector.

use vstd::prelude::*;
use crate::field::{reduce, Fp};
use crate::sums::sum;

verus! {

/// The residues that a vector of field elements stands for.
pub open spec fn elems(v: Seq<Fp>) -> Seq<int> {
    Seq::new(v.len(), |j: int| v[j]@)
}

/// The terms `a[j] * b[j]` of an inner product.
pub open spec fn dot_term(a: Seq<int>, b: Seq<int>) -> spec_fn(int) -> int {
    |j: int| a[j] * b[j]
}

/// The inner product of `a` with `b`, as an integer: the sum of `a[j] * b[j]`
/// over the positions of `a`.
pub open spec fn dot(a: Seq<int>, b: Seq<int>) -> int {
    sum(dot_term(a, b), a.len())
}

/// Whether `m` has `n` rows of `n` entries each.
pub open spec fn is_square(m: Seq<Seq<int>>, n: nat) -> bool {
    &&& m.len() == n
    &&& forall|i: int| 0 <= i < m.len() ==> (#[trigger] m[i]).len() == n
}

/// The product of `m` with the column `v` in the field: entry `i` is the
/// residue of the inner product of row `i` with `v`.
pub open spec fn mat_vec(m: Seq<Seq<int>>, v: Seq<int>) -> Seq<int> {
    Seq::new(m.len(), |i: int| reduce(dot(m[i], v)))
}

/// Why an operation refused its operands.
#[derive(Clone, Copy, Debug, PartialEq, Eq, Structural)]
pub enum ShapeError {
    /// The operands are not square of one common dimension.
    ShapeMismatch,
}

/// A matrix over the field, held as its rows.
#[derive(Debug)]
pub struct Matrix(pub Vec<Vec<Fp>>);

impl View for Matrix {
    type V = Seq<Seq<int>>;

    /// The rows, each as the residues it holds.
    open spec fn view(&self) -> Seq<Seq<int>> {
        Seq::new(self.0@.len(), |i: int| elems(self.0@[i]@))
    }
}

/// Whether two vectors have one length and the same element at each position.
pub fn vector_equals(a: &Vec<Fp>, b: &Vec<Fp>) -> (same: bool)
    ensures
        same == (elems(a@) == elems(b@)),
{
    if a.len() != b.len() {
        assert(elems(a@).len() != elems(b@).len());
        return false;
    }
    let mut j: usize = 0;
    while j < a.len()
        invariant
            j <= a.len(),
            a.len() == b.len(),
            forall|k: int| 0 <= k < j ==> a@[k]@ == b@[k]@,
        decreases a.len() - j,
    {
        if !a[j].equals(&b[j]) {
            assert(elems(a@)[j as int] != elems(b@)[j as int]);
            return false;
        }
        j += 1;
    }
    assert(elems(a@) =~= elems(b@));
    true
}

/// The inner product of two vectors of one length, in the field.
fn inner_product(a: &Vec<Fp>, b: &Vec<Fp>) -> (r: Fp)
    requires
        a.len() == b.len(),
    ensures
        r@ == reduce(dot(elems(a@), elems(b@))),
{
    let mut acc: Fp = Fp::zero();
    let mut j: usize = 0;
    while j < a.len()
        invariant
            j <= a.len(),
            a.len() == b.len(),
            acc@ == reduce(sum(dot_term(elems(a@), elems(b@)), j as nat)),
        decreases a.len() - j,
    {
        let term: Fp = a[j].mul(b[j]);
        acc = acc.add(term);
        j += 1;
    }
    acc
}

impl Matrix {
    /// The matrix with the given rows.
    pub fn new(rows: Vec<Vec<Fp>>) -> (m: Matrix)
        ensures
            m.0 == rows,
    {
        Matrix(rows)
    }

    /// The number of rows.
    pub fn len(&self) -> (n: usize)
        ensures
            n == self@.len(),
    {
        self.0.len()
    }

    /// Whether the matrix has `n` rows of `n` entries each.
    pub fn is_square_of(&self, n: usize) -> (square: bool)
        ensures
            square == is_square(self@, n as nat),
    {
        if self.0.len() != n {
            return false;
        }
        let mut i: usize = 0;
        while i < n
            invariant
                i <= n,
                self.0.len() == n,
                forall|k: int| 0 <= k < i ==> (#[trigger] self@[k]).len() == n,
            decreases n - i,
        {
            if self.0[i].len() != n {
                assert(self@[i as int].len() != n);
                return false;
            }
            i += 1;
        }
        true
    }

    /// The product of the matrix with the column `rhs`.
    ///
    /// The operands must be an n×n matrix and a vector of length n; any other
    /// shape is refused.
    pub fn mul(&self, rhs: &Vec<Fp>) -> (res: Result<Vec<Fp>, ShapeError>)
        ensures
            is_square(self@, rhs@.len()) ==> res is Ok,
            !is_square(self@, rhs@.len()) ==> res == Err::<Vec<Fp>, ShapeError>(
                ShapeError::ShapeMismatch,
            ),
            res matches Ok(out) ==> elems(out@) == mat_vec(self@, elems(rhs@)),
    {
        let n: usize = rhs.len();
        if !self.is_square_of(n) {
            return Err(ShapeError::ShapeMismatch);
        }
        let mut out: Vec<Fp> = Vec::new();
        let mut i: usize = 0;
        while i < n
            invariant
                i <= n,
                n == rhs@.len(),
                is_square(self@, n as nat),
                out@.len() == i,
                forall|k: int|
                    0 <= k < i ==> (#[trigger] out@[k])@ == reduce(dot(self@[k], elems(rhs@))),
            decreases n - i,
        {
            assert(self@[i as int].len() == n);
            let entry: Fp = inner_product(&self.0[i], rhs);
            out.push(entry);
            i += 1;
        }
        assert(elems(out@) =~= mat_vec(self@, elems(rhs@)));
        Ok(out)
    }

    /// Whether two matrices have the same rows: as many of them, each of the
    /// same length, with the same element at each position.
    pub fn equals(&self, other: &Matrix) -> (same: bool)
        ensures
            same == (self@ == other@),
    {
        if self.0.len() != other.0.len() {
            assert(self@.len() != other@.len());
            return false;
        }
        let mut i: usize = 0;
        while i < self.0.len()
            invariant
                i <= self.0.len(),
                self.0.len() == other.0.len(),
                forall|k: int| 0 <= k < i ==> #[trigger] self@[k] == other@[k],
            decreases self.0.len() - i,
        {
            if !vector_equals(&self.0[i], &other.0[i]) {
                assert(self@[i as int] != other@[i as int]);
                return false;
            }
            i += 1;
        }
        assert(self@ =~= other@);
        true
    }
}

} // verus!
