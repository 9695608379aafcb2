//! The `ROTATION` structure: a signed 3x3 permutation matrix.

use vstd::prelude::*;

verus! {

/// `true` iff the entry of a row is `-1` (otherwise `1`).
pub type IsNeg = bool;

/// Row-major signed permutation matrix.
///
/// The variant names the column that holds the nonzero entry of each row, the
/// three booleans say whether that entry is negative in rows one, two and three.
/// E.g., `TwoThreeOne(false, true, false)` is
/// ```text
///  0  1  0
///  0  0 -1
///  1  0  0
/// ```
/// No other (or invalid) matrix can be represented.
#[derive(Debug, Clone, Copy, PartialEq, Eq, Structural)]
pub enum MatRowCols {
    OneTwoThree(IsNeg, IsNeg, IsNeg),
    OneThreeTwo(IsNeg, IsNeg, IsNeg),
    TwoOneThree(IsNeg, IsNeg, IsNeg),
    TwoThreeOne(IsNeg, IsNeg, IsNeg),
    ThreeOneTwo(IsNeg, IsNeg, IsNeg),
    ThreeTwoOne(IsNeg, IsNeg, IsNeg),
}

/// The factor that an `IsNeg` flag stands for.
pub open spec fn sign_of(is_neg: bool) -> i32 {
    if is_neg { -1i32 } else { 1i32 }
}

/// Column (0-based) of the nonzero entry of each row.
pub open spec fn row_cols(m: MatRowCols) -> (int, int, int) {
    match m {
        MatRowCols::OneTwoThree(..) => (0, 1, 2),
        MatRowCols::OneThreeTwo(..) => (0, 2, 1),
        MatRowCols::TwoOneThree(..) => (1, 0, 2),
        MatRowCols::TwoThreeOne(..) => (1, 2, 0),
        MatRowCols::ThreeOneTwo(..) => (2, 0, 1),
        MatRowCols::ThreeTwoOne(..) => (2, 1, 0),
    }
}

/// The three sign flags of the rows.
pub open spec fn row_negs(m: MatRowCols) -> (bool, bool, bool) {
    match m {
        MatRowCols::OneTwoThree(a, b, c) => (a, b, c),
        MatRowCols::OneThreeTwo(a, b, c) => (a, b, c),
        MatRowCols::TwoOneThree(a, b, c) => (a, b, c),
        MatRowCols::TwoThreeOne(a, b, c) => (a, b, c),
        MatRowCols::ThreeOneTwo(a, b, c) => (a, b, c),
        MatRowCols::ThreeTwoOne(a, b, c) => (a, b, c),
    }
}

/// Entry `(row, col)` of the matrix, both 0-based.
pub open spec fn entry(m: MatRowCols, row: int, col: int) -> i32 {
    let (c1, c2, c3) = row_cols(m);
    let (n1, n2, n3) = row_negs(m);
    if row == 0 {
        if col == c1 { sign_of(n1) } else { 0 }
    } else if row == 1 {
        if col == c2 { sign_of(n2) } else { 0 }
    } else {
        if col == c3 { sign_of(n3) } else { 0 }
    }
}

impl MatRowCols {
    /// The identity transformation, which maps every vector to itself.
    pub fn identity() -> (r: MatRowCols)
        ensures
            r == MatRowCols::OneTwoThree(false, false, false),
            forall|i: int, j: int| 0 <= i < 3 && 0 <= j < 3 ==>
                #[trigger] entry(r, i, j) == (if i == j { 1i32 } else { 0i32 }),
    {
        MatRowCols::OneTwoThree(false, false, false)
    }

    /// The transformation as a row-major matrix.
    pub fn matrix(&self) -> (r: [i32; 9])
        ensures
            forall|k: int| 0 <= k < 9 ==> #[trigger] r@[k] == entry(*self, k / 3, k % 3),
    {
        let r = match *self {
            MatRowCols::OneTwoThree(a, b, c) => [nb2i(a), 0, 0, 0, nb2i(b), 0, 0, 0, nb2i(c)],
            MatRowCols::OneThreeTwo(a, b, c) => [nb2i(a), 0, 0, 0, 0, nb2i(b), 0, nb2i(c), 0],
            MatRowCols::TwoOneThree(a, b, c) => [0, nb2i(a), 0, nb2i(b), 0, 0, 0, 0, nb2i(c)],
            MatRowCols::TwoThreeOne(a, b, c) => [0, nb2i(a), 0, 0, 0, nb2i(b), nb2i(c), 0, 0],
            MatRowCols::ThreeOneTwo(a, b, c) => [0, 0, nb2i(a), nb2i(b), 0, 0, 0, nb2i(c), 0],
            MatRowCols::ThreeTwoOne(a, b, c) => [0, 0, nb2i(a), 0, nb2i(b), 0, nb2i(c), 0, 0],
        };
        assert forall|k: int| 0 <= k < 9 implies #[trigger] r@[k] == entry(*self, k / 3, k % 3) by {
            assert(k / 3 == 0 || k / 3 == 1 || k / 3 == 2);
        }
        r
    }

    /// Applies the transformation to a vector: row `i` of the result is the
    /// dot product of row `i` of the matrix with the vector.
    pub fn apply_to(&self, v: (i32, i32, i32)) -> (r: (i32, i32, i32))
        requires
            v.0 != i32::MIN,
            v.1 != i32::MIN,
            v.2 != i32::MIN,
        ensures
            r.0 == entry(*self, 0, 0) * v.0 + entry(*self, 0, 1) * v.1 + entry(*self, 0, 2) * v.2,
            r.1 == entry(*self, 1, 0) * v.0 + entry(*self, 1, 1) * v.1 + entry(*self, 1, 2) * v.2,
            r.2 == entry(*self, 2, 0) * v.0 + entry(*self, 2, 1) * v.1 + entry(*self, 2, 2) * v.2,
    {
        let (x, y, z) = v;
        let n = self.negs();
        let c = self.cols();
        let r1 = pick(c.0, n.0, x, y, z);
        let r2 = pick(c.1, n.1, x, y, z);
        let r3 = pick(c.2, n.2, x, y, z);
        proof {
            let m = *self;
            assert forall|i: int, j: int, w: i32| 0 <= i < 3 && 0 <= j < 3 implies
                #[trigger] (entry(m, i, j) * w) == (if entry(m, i, j) == 0 { 0 } else if entry(m, i, j) == 1 { w as int } else { -w })
            by {
                lemma_unit_mul(entry(m, i, j), w);
            }
        }
        (r1, r2, r3)
    }

    /// Returns `true` iff the transformation is the identity.
    pub fn is_identity(&self) -> (r: bool)
        ensures
            r == (*self == MatRowCols::OneTwoThree(false, false, false)),
    {
        match self {
            MatRowCols::OneTwoThree(a, b, c) => !*a && !*b && !*c,
            _ => false,
        }
    }

    /// The 0-based column of each row's nonzero entry.
    fn cols(&self) -> (r: (u8, u8, u8))
        ensures
            r.0 as int == row_cols(*self).0,
            r.1 as int == row_cols(*self).1,
            r.2 as int == row_cols(*self).2,
    {
        match self {
            MatRowCols::OneTwoThree(..) => (0, 1, 2),
            MatRowCols::OneThreeTwo(..) => (0, 2, 1),
            MatRowCols::TwoOneThree(..) => (1, 0, 2),
            MatRowCols::TwoThreeOne(..) => (1, 2, 0),
            MatRowCols::ThreeOneTwo(..) => (2, 0, 1),
            MatRowCols::ThreeTwoOne(..) => (2, 1, 0),
        }
    }

    /// The sign flags of the three rows.
    fn negs(&self) -> (r: (bool, bool, bool))
        ensures
            r == row_negs(*self),
    {
        match *self {
            MatRowCols::OneTwoThree(a, b, c) => (a, b, c),
            MatRowCols::OneThreeTwo(a, b, c) => (a, b, c),
            MatRowCols::TwoOneThree(a, b, c) => (a, b, c),
            MatRowCols::TwoThreeOne(a, b, c) => (a, b, c),
            MatRowCols::ThreeOneTwo(a, b, c) => (a, b, c),
            MatRowCols::ThreeTwoOne(a, b, c) => (a, b, c),
        }
    }
}

proof fn lemma_unit_mul(s: i32, x: i32)
    requires
        s == -1 || s == 0 || s == 1,
    ensures
        s * x == (if s == 0 { 0 } else if s == 1 { x as int } else { -x }),
{
    assert(s * x == (if s == 0 { 0 } else if s == 1 { x as int } else { -x })) by (nonlinear_arith)
        requires
            s == -1 || s == 0 || s == 1;
}

/// One row of a product: the vector's component at column `col`, negated
/// when `is_neg` holds.
fn pick(col: u8, is_neg: bool, x: i32, y: i32, z: i32) -> (r: i32)
    requires
        col < 3,
        x != i32::MIN,
        y != i32::MIN,
        z != i32::MIN,
    ensures
        r == sign_of(is_neg) * (if col == 0 { x } else if col == 1 { y } else { z }),
{
    let v = if col == 0 { x } else if col == 1 { y } else { z };
    if is_neg { -v } else { v }
}

/// Converts an `IsNeg` flag into its multiplication factor.
fn nb2i(is_neg: bool) -> (r: i32)
    ensures
        r == sign_of(is_neg),
{
    if is_neg { -1 } else { 1 }
}

} // verus!
