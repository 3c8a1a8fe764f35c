use vstd::prelude::*;
use vstd::string::StringExecFns;

verus! {

/// The error returned when a matrix with a zero determinant is inverted.
#[derive(Debug, Clone, Copy, PartialEq, Eq, Structural)]
pub struct NonInvertibleError;

impl NonInvertibleError {
    /// The text that describes this error.
    pub open spec fn spec_message() -> Seq<char> {
        "matrix is non-invertible, but `inv()` was called"@
    }

    /// Describes the error in words.
    pub fn message(&self) -> (r: String)
        ensures
            r@ == Self::spec_message(),
    {
        String::from_str("matrix is non-invertible, but `inv()` was called")
    }
}


/// A square `L`×`L` matrix, stored row by row.
///
/// The entries are generic: the type only arranges them. `rows[r][c]` is the
/// entry in row `r` and column `c`.
#[derive(Debug, Clone, Copy, PartialEq)]
pub struct Matrix<T, const L: usize> {
    pub rows: [[T; L]; L],
}

/// The transpose of a square matrix given as rows: entry `(r, c)` is entry
/// `(c, r)` of `s`.
pub open spec fn transposed<T>(s: Seq<Seq<T>>) -> Seq<Seq<T>> {
    Seq::new(s.len(), |r: int| Seq::new(s.len(), |c: int| s[c][r]))
}

/// The square matrix `s` with row `cut_row` and column `cut_col` taken out.
pub open spec fn cut<T>(s: Seq<Seq<T>>, cut_row: int, cut_col: int) -> Seq<Seq<T>> {
    s.remove(cut_row).map_values(|row: Seq<T>| row.remove(cut_col))
}

impl<T, const L: usize> View for Matrix<T, L> {
    type V = Seq<Seq<T>>;

    open spec fn view(&self) -> Seq<Seq<T>> {
        Seq::new(L as nat, |r: int| self.rows@[r]@)
    }
}

impl<T: Copy, const L: usize> Matrix<T, L> {
    /// A matrix with every entry set to `fill`.
    pub fn new(fill: T) -> (r: Self)
        ensures
            forall|i: int, j: int| 0 <= i < L && 0 <= j < L ==> #[trigger] r@[i][j] == fill,
    {
        let row: [T; L] = [fill; L];
        let r = Matrix { rows: [row; L] };
        assert forall|i: int, j: int| 0 <= i < L && 0 <= j < L implies #[trigger] r@[i][j]
            == fill by {
            assert(r.rows@[i] == row);
        }
        r
    }

    /// The number of rows, which is also the number of columns.
    pub fn len(&self) -> (r: usize)
        ensures
            r == L,
    {
        L
    }

    /// The entry in row `row` and column `col`.
    pub fn get(&self, row: usize, col: usize) -> (r: T)
        requires
            row < L,
            col < L,
        ensures
            r == self@[row as int][col as int],
    {
        self.rows[row][col]
    }

    /// The row `row`, from the first column to the last.
    pub fn row(&self, row: usize) -> (r: [T; L])
        requires
            row < L,
        ensures
            r@ == self@[row as int],
    {
        self.rows[row]
    }

    /// Replaces the entry in row `row` and column `col` with `value`.
    pub fn set(&mut self, row: usize, col: usize, value: T)
        requires
            row < L,
            col < L,
        ensures
            final(self)@ == old(self)@.update(
                row as int,
                old(self)@[row as int].update(col as int, value),
            ),
    {
        let mut r = self.rows[row];
        r[col] = value;
        self.rows[row] = r;
        assert(final(self)@ =~~= old(self)@.update(
            row as int,
            old(self)@[row as int].update(col as int, value),
        ));
    }

    /// Turns the columns into rows and the rows into columns.
    pub fn transpose(&self) -> (r: Self)
        ensures
            r@ == transposed(self@),
    {
        let mut rows = self.rows;
        let mut i: usize = 0;
        while i < L
            invariant
                i <= L,
                forall|a: int, b: int|
                    0 <= a < i && 0 <= b < L ==> #[trigger] rows@[a]@[b] == self.rows@[b]@[a],
            decreases L - i,
        {
            let mut row = self.rows[i];
            let mut j: usize = 0;
            while j < L
                invariant
                    i < L,
                    j <= L,
                    forall|b: int| 0 <= b < j ==> #[trigger] row@[b] == self.rows@[b]@[i as int],
                decreases L - j,
            {
                row[j] = self.rows[j][i];
                j += 1;
            }
            rows[i] = row;
            i += 1;
        }
        let r = Matrix { rows };
        assert(r@ =~~= transposed(self@));
        r
    }
}

impl<T: Copy> Matrix<T, 4> {
    /// This matrix with row `cut_row` and column `cut_col` removed.
    pub fn submatrix(&self, cut_row: usize, cut_col: usize) -> (r: Matrix<T, 3>)
        requires
            cut_row < 4,
            cut_col < 4,
        ensures
            r@ == cut(self@, cut_row as int, cut_col as int),
    {
        let blank = Matrix::new(self.rows[0][0]);
        submatrix(self, blank, cut_row, cut_col)
    }
}

impl<T: Copy> Matrix<T, 3> {
    /// This matrix with row `cut_row` and column `cut_col` removed.
    pub fn submatrix(&self, cut_row: usize, cut_col: usize) -> (r: Matrix<T, 2>)
        requires
            cut_row < 3,
            cut_col < 3,
        ensures
            r@ == cut(self@, cut_row as int, cut_col as int),
    {
        let blank = Matrix::new(self.rows[0][0]);
        submatrix(self, blank, cut_row, cut_col)
    }
}

/// Fills `into`, one size smaller than `from`, with the entries of `from`
/// outside row `cut_row` and column `cut_col`.
fn submatrix<T: Copy, const L: usize, const M: usize>(
    from: &Matrix<T, L>,
    into: Matrix<T, M>,
    cut_row: usize,
    cut_col: usize,
) -> (r: Matrix<T, M>)
    requires
        M + 1 == L,
        cut_row < L,
        cut_col < L,
    ensures
        r@ == cut(from@, cut_row as int, cut_col as int),
{
    let mut rows = into.rows;
    let mut i: usize = 0;
    while i < M
        invariant
            M + 1 == L,
            cut_row < L,
            cut_col < L,
            i <= M,
            forall|a: int, b: int|
                0 <= a < i && 0 <= b < M ==> #[trigger] rows@[a]@[b] == from.rows@[
                    if a < cut_row { a } else { a + 1 }
                ]@[if b < cut_col { b } else { b + 1 }],
        decreases M - i,
    {
        let src_row = if i < cut_row { i } else { i + 1 };
        let mut row = rows[i];
        let mut j: usize = 0;
        while j < M
            invariant
                M + 1 == L,
                cut_col < L,
                i < M,
                src_row < L,
                src_row as int == if i < cut_row { i as int } else { i + 1 },
                j <= M,
                forall|b: int|
                    0 <= b < j ==> #[trigger] row@[b] == from.rows@[src_row as int]@[
                        if b < cut_col { b } else { b + 1 }
                    ],
            decreases M - j,
        {
            let src_col = if j < cut_col { j } else { j + 1 };
            row[j] = from.rows[src_row][src_col];
            j += 1;
        }
        rows[i] = row;
        i += 1;
    }
    let r = Matrix { rows };
    assert(r@ =~~= cut(from@, cut_row as int, cut_col as int));
    r
}

/// Transposing a matrix twice gives the matrix back.
pub proof fn lemma_transpose_involutive<T, const L: usize>(m: Matrix<T, L>)
    ensures
        transposed(transposed(m@)) == m@,
{
    assert(transposed(transposed(m@)) =~~= m@);
}

/// Two matrices with the same entries are the same matrix.
pub proof fn lemma_view_determines<T, const L: usize>(a: Matrix<T, L>, b: Matrix<T, L>)
    requires
        a@ == b@,
    ensures
        a == b,
{
    assert forall|r: int| 0 <= r < L implies a.rows@[r] == b.rows@[r] by {
        assert(a@[r] == b@[r]);
        assert(a.rows@[r] =~= b.rows@[r]);
    }
    assert(a.rows =~= b.rows);
}


impl<T, const L: usize> From<[[T; L]; L]> for Matrix<T, L> {
    fn from(rows: [[T; L]; L]) -> (r: Self)
        ensures
            r.rows == rows,
    {
        Matrix { rows }
    }
}

impl<T, const L: usize> vstd::std_specs::convert::FromSpecImpl<[[T; L]; L]> for Matrix<T, L> {
    open spec fn obeys_from_spec() -> bool {
        true
    }

    open spec fn from_spec(rows: [[T; L]; L]) -> Self {
        Matrix { rows }
    }
}

} // verus!
