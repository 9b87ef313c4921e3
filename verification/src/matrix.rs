use vstd::prelude::*;

verus! {

/// A square table of four rows, over any kind of entry. The library
/// moves entries and never computes with them.
#[derive(Clone, Copy, Debug)]
pub struct Matrix4x4<T> {
    pub m: [[T; 4]; 4],
}

/// A square table of three rows.
#[derive(Clone, Copy, Debug)]
pub struct Matrix3x3<T> {
    pub m: [[T; 3]; 3],
}

/// A square table of two rows.
#[derive(Clone, Copy, Debug)]
pub struct Matrix2x2<T> {
    pub m: [[T; 2]; 2],
}

/// The row or column of a table that stands at position `i` once the row
/// or column `gone` is taken out.
pub open spec fn past(i: int, gone: int) -> int {
    if i < gone {
        i
    } else {
        i + 1
    }
}

fn step_past(i: usize, gone: usize) -> (r: usize)
    requires
        i < 3,
    ensures
        r == past(i as int, gone as int),
        r <= i + 1,
        i < gone ==> r < gone,
{
    if i < gone {
        i
    } else {
        i + 1
    }
}

impl<T: Copy> Matrix2x2<T> {
    /// The entry in row `i` and column `j`.
    pub open spec fn at(&self, i: int, j: int) -> T {
        self.m@[i]@[j]
    }

    /// Whether `other` is this table with rows and columns exchanged.
    pub open spec fn is_transpose(&self, other: Matrix2x2<T>) -> bool {
        forall|i: int, j: int| 0 <= i < 2 && 0 <= j < 2 ==> other.at(i, j) == self.at(j, i)
    }

    /// The table of the two given rows.
    pub fn from_vectors(r1: &[T], r2: &[T]) -> (r: Matrix2x2<T>)
        requires
            r1@.len() >= 2,
            r2@.len() >= 2,
        ensures
            forall|j: int| 0 <= j < 2 ==> r.at(0, j) == r1@[j] && r.at(1, j) == r2@[j],
    {
        Matrix2x2 { m: [[r1[0], r1[1]], [r2[0], r2[1]]] }
    }

    /// The table whose rows stand one after another in `v`.
    pub fn from_vector(v: &[T]) -> (r: Matrix2x2<T>)
        requires
            v@.len() >= 4,
        ensures
            forall|i: int, j: int| 0 <= i < 2 && 0 <= j < 2 ==> r.at(i, j) == v@[2 * i + j],
    {
        Matrix2x2 { m: [[v[0], v[1]], [v[2], v[3]]] }
    }

    /// The table with rows and columns exchanged.
    pub fn transpose(&self) -> (r: Matrix2x2<T>)
        ensures
            self.is_transpose(r),
    {
        let m = &self.m;
        Matrix2x2 { m: [[m[0][0], m[1][0]], [m[0][1], m[1][1]]] }
    }
}

impl<T: Copy> Matrix3x3<T> {
    /// The entry in row `i` and column `j`.
    pub open spec fn at(&self, i: int, j: int) -> T {
        self.m@[i]@[j]
    }

    /// Whether `other` is this table with rows and columns exchanged.
    pub open spec fn is_transpose(&self, other: Matrix3x3<T>) -> bool {
        forall|i: int, j: int| 0 <= i < 3 && 0 <= j < 3 ==> other.at(i, j) == self.at(j, i)
    }

    /// Whether `sub` is this table without row `row` and column `col`.
    pub open spec fn is_submatrix(&self, row: int, col: int, sub: Matrix2x2<T>) -> bool {
        forall|i: int, j: int|
            0 <= i < 2 && 0 <= j < 2 ==> sub.at(i, j) == self.at(past(i, row), past(j, col))
    }

    /// The table of the three given rows.
    pub fn from_vectors(r1: &[T], r2: &[T], r3: &[T]) -> (r: Matrix3x3<T>)
        requires
            r1@.len() >= 3,
            r2@.len() >= 3,
            r3@.len() >= 3,
        ensures
            forall|j: int|
                0 <= j < 3 ==> r.at(0, j) == r1@[j] && r.at(1, j) == r2@[j] && r.at(2, j)
                    == r3@[j],
    {
        Matrix3x3 { m: [[r1[0], r1[1], r1[2]], [r2[0], r2[1], r2[2]], [r3[0], r3[1], r3[2]]] }
    }

    /// The table whose rows stand one after another in `v`.
    pub fn from_vector(v: &[T]) -> (r: Matrix3x3<T>)
        requires
            v@.len() >= 9,
        ensures
            forall|i: int, j: int| 0 <= i < 3 && 0 <= j < 3 ==> r.at(i, j) == v@[3 * i + j],
    {
        Matrix3x3 { m: [[v[0], v[1], v[2]], [v[3], v[4], v[5]], [v[6], v[7], v[8]]] }
    }

    /// The table with rows and columns exchanged.
    pub fn transpose(&self) -> (r: Matrix3x3<T>)
        ensures
            self.is_transpose(r),
    {
        let m = &self.m;
        Matrix3x3 {
            m: [
                [m[0][0], m[1][0], m[2][0]],
                [m[0][1], m[1][1], m[2][1]],
                [m[0][2], m[1][2], m[2][2]],
            ],
        }
    }

    /// The table without row `row` and column `col`.
    pub fn submatrix(&self, row: usize, col: usize) -> (r: Matrix2x2<T>)
        requires
            row < 3,
            col < 3,
        ensures
            self.is_submatrix(row as int, col as int, r),
    {
        let m = &self.m;
        let r0 = step_past(0, row);
        let r1 = step_past(1, row);
        let c0 = step_past(0, col);
        let c1 = step_past(1, col);
        Matrix2x2 { m: [[m[r0][c0], m[r0][c1]], [m[r1][c0], m[r1][c1]]] }
    }
}

impl<T: Copy> Matrix4x4<T> {
    /// The entry in row `i` and column `j`.
    pub open spec fn at(&self, i: int, j: int) -> T {
        self.m@[i]@[j]
    }

    /// Whether `other` is this table with rows and columns exchanged.
    pub open spec fn is_transpose(&self, other: Matrix4x4<T>) -> bool {
        forall|i: int, j: int| 0 <= i < 4 && 0 <= j < 4 ==> other.at(i, j) == self.at(j, i)
    }

    /// Whether `sub` is this table without row `row` and column `col`.
    pub open spec fn is_submatrix(&self, row: int, col: int, sub: Matrix3x3<T>) -> bool {
        forall|i: int, j: int|
            0 <= i < 3 && 0 <= j < 3 ==> sub.at(i, j) == self.at(past(i, row), past(j, col))
    }

    /// The table of the four given rows.
    pub fn from_vectors(r1: &[T], r2: &[T], r3: &[T], r4: &[T]) -> (r: Matrix4x4<T>)
        requires
            r1@.len() >= 4,
            r2@.len() >= 4,
            r3@.len() >= 4,
            r4@.len() >= 4,
        ensures
            forall|j: int|
                0 <= j < 4 ==> r.at(0, j) == r1@[j] && r.at(1, j) == r2@[j] && r.at(2, j)
                    == r3@[j] && r.at(3, j) == r4@[j],
    {
        Matrix4x4 {
            m: [
                [r1[0], r1[1], r1[2], r1[3]],
                [r2[0], r2[1], r2[2], r2[3]],
                [r3[0], r3[1], r3[2], r3[3]],
                [r4[0], r4[1], r4[2], r4[3]],
            ],
        }
    }

    /// The table whose rows stand one after another in `v`.
    pub fn from_vector(v: &[T]) -> (r: Matrix4x4<T>)
        requires
            v@.len() >= 16,
        ensures
            forall|i: int, j: int| 0 <= i < 4 && 0 <= j < 4 ==> r.at(i, j) == v@[4 * i + j],
    {
        Matrix4x4 {
            m: [
                [v[0], v[1], v[2], v[3]],
                [v[4], v[5], v[6], v[7]],
                [v[8], v[9], v[10], v[11]],
                [v[12], v[13], v[14], v[15]],
            ],
        }
    }

    /// The table with rows and columns exchanged.
    pub fn transpose(&self) -> (r: Matrix4x4<T>)
        ensures
            self.is_transpose(r),
    {
        let m = &self.m;
        Matrix4x4 {
            m: [
                [m[0][0], m[1][0], m[2][0], m[3][0]],
                [m[0][1], m[1][1], m[2][1], m[3][1]],
                [m[0][2], m[1][2], m[2][2], m[3][2]],
                [m[0][3], m[1][3], m[2][3], m[3][3]],
            ],
        }
    }

    /// The table without row `row` and column `col`.
    pub fn submatrix(&self, row: usize, col: usize) -> (r: Matrix3x3<T>)
        requires
            row < 4,
            col < 4,
        ensures
            self.is_submatrix(row as int, col as int, r),
    {
        let m = &self.m;
        let r0 = step_past(0, row);
        let r1 = step_past(1, row);
        let r2 = step_past(2, row);
        let c0 = step_past(0, col);
        let c1 = step_past(1, col);
        let c2 = step_past(2, col);
        Matrix3x3 {
            m: [
                [m[r0][c0], m[r0][c1], m[r0][c2]],
                [m[r1][c0], m[r1][c1], m[r1][c2]],
                [m[r2][c0], m[r2][c1], m[r2][c2]],
            ],
        }
    }

    /// Exchanging rows and columns twice gives back every entry.
    pub proof fn lemma_transpose_twice(&self, once: Matrix4x4<T>, twice: Matrix4x4<T>)
        requires
            self.is_transpose(once),
            once.is_transpose(twice),
        ensures
            forall|i: int, j: int| 0 <= i < 4 && 0 <= j < 4 ==> twice.at(i, j) == self.at(i, j),
            once.is_transpose(*self),
    {
    }

    /// Taking out a row and a column and exchanging rows and columns can
    /// be done in either order, the row and the column changing places.
    pub proof fn lemma_submatrix_of_transpose(
        &self,
        row: int,
        col: int,
        sub: Matrix3x3<T>,
        turned: Matrix4x4<T>,
        turned_sub: Matrix3x3<T>,
    )
        requires
            0 <= row < 4,
            0 <= col < 4,
            self.is_submatrix(row, col, sub),
            self.is_transpose(turned),
            turned.is_submatrix(col, row, turned_sub),
        ensures
            sub.is_transpose(turned_sub),
    {
        assert forall|i: int, j: int| 0 <= i < 3 && 0 <= j < 3 implies turned_sub.at(i, j)
            == sub.at(j, i) by {
            assert(turned_sub.at(i, j) == turned.at(past(i, col), past(j, row)));
            assert(turned.at(past(i, col), past(j, row)) == self.at(past(j, row), past(i, col)));
        }
    }
}

} // verus!
