//! A dense two-dimensional grid stored row by row, addressed by
//! `(col, row)`.

use vstd::prelude::*;
use vstd::std_specs::iter::IteratorSpec;

verus! {

/// A grid of `cols` by `rows` values, kept row after row in one vector.
#[derive(Debug, Clone)]
pub struct Matrix<T> {
    data: Vec<T>,
    rows: usize,
    cols: usize,
}

/// Relies on `format!`: the message for a vector whose length does not fit
/// the dimensions.
#[verifier::external_body]
fn size_mismatch_message(len: usize, rows: usize, cols: usize) -> String {
    format!("Data length {} doesn't match dimensions {}x{}", len, rows, cols)
}

/// Relies on `format!`: the message for a position outside the grid.
#[verifier::external_body]
fn out_of_bounds_message(row: usize, col: usize) -> String {
    format!("Index ({}, {}) out of bounds", row, col)
}

impl<T> View for Matrix<T> {
    type V = Seq<T>;

    /// The cells, row after row.
    closed spec fn view(&self) -> Seq<T> {
        self.data@
    }
}

impl<T> Matrix<T> {
    /// The vector holds exactly `cols * rows` cells.
    pub closed spec fn wf(&self) -> bool {
        self.data@.len() == self.rows * self.cols
    }

    pub closed spec fn spec_rows(&self) -> nat {
        self.rows as nat
    }

    pub closed spec fn spec_cols(&self) -> nat {
        self.cols as nat
    }

    /// `(col, row)` lies inside the grid.
    pub open spec fn in_bounds(&self, col: int, row: int) -> bool {
        0 <= col < self.spec_cols() && 0 <= row < self.spec_rows()
    }

    /// Where the cell `(col, row)` is kept in the row-by-row sequence.
    pub open spec fn offset(&self, col: int, row: int) -> int {
        row * self.spec_cols() + col
    }

    /// The cell at `(col, row)`.
    pub open spec fn spec_at(&self, col: int, row: int) -> T {
        self@[self.offset(col, row)]
    }

    /// A grid of `cols` columns and `rows` rows, every cell a clone of `initial`.
    pub fn new(cols: usize, rows: usize, initial: T) -> (r: Self) where T: Clone
        requires
            rows * cols <= usize::MAX,
        ensures
            r.wf(),
            r.spec_cols() == cols,
            r.spec_rows() == rows,
            r@.len() == rows * cols,
            forall|i: int| 0 <= i < r@.len() ==> cloned(initial, #[trigger] r@[i]),
    {
        let n = rows * cols;
        Self { data: vec![initial; n], rows, cols }
    }

    /// A grid over `data`, taken row by row; an error when its length is not
    /// `cols * rows`.
    pub fn from_vec(data: Vec<T>, cols: usize, rows: usize) -> (r: Result<Self, String>)
        ensures
            r is Ok <==> data@.len() == rows * cols,
            r matches Ok(m) ==> m.wf() && m@ == data@ && m.spec_cols() == cols && m.spec_rows()
                == rows,
    {
        let fits = match rows.checked_mul(cols) {
            Some(n) => data.len() == n,
            None => false,
        };
        if !fits {
            return Err(size_mismatch_message(data.len(), rows, cols));
        }
        Ok(Self { data, rows, cols })
    }

    /// A grid over `data`, whose length is known to be `cols * rows`.
    pub(crate) fn from_parts(data: Vec<T>, cols: usize, rows: usize) -> (r: Self)
        requires
            data@.len() == rows * cols,
        ensures
            r.wf(),
            r@ == data@,
            r.spec_cols() == cols,
            r.spec_rows() == rows,
    {
        Self { data, rows, cols }
    }

    /// The number of rows.
    pub fn rows(&self) -> (r: usize)
        requires
            self.wf(),
        ensures
            r == self.spec_rows(),
    {
        self.rows
    }

    /// The number of columns.
    pub fn cols(&self) -> (r: usize)
        requires
            self.wf(),
        ensures
            r == self.spec_cols(),
    {
        self.cols
    }

    /// The dimensions as `(cols, rows)`.
    pub fn size(&self) -> (r: (usize, usize))
        requires
            self.wf(),
        ensures
            r == (self.spec_cols() as usize, self.spec_rows() as usize),
    {
        (self.cols, self.rows)
    }

    fn index_of(&self, col: usize, row: usize) -> (r: usize)
        requires
            self.wf(),
            self.in_bounds(col as int, row as int),
        ensures
            r == self.offset(col as int, row as int),
            r < self@.len(),
    {
        proof {
            lemma_offset_in_range(col as int, row as int, self.cols as int, self.rows as int);
            assert(self.data@.len() == self.data.len());
            assert(0 <= row * self.cols <= row * self.cols + col < self.data.len());
        }
        row * self.cols + col
    }

    /// The cell at `(col, row)`, or none outside the grid.
    pub fn get(&self, col: usize, row: usize) -> (r: Option<&T>)
        requires
            self.wf(),
        ensures
            self.in_bounds(col as int, row as int) ==> (r matches Some(v) && *v == self.spec_at(
                col as int,
                row as int,
            )),
            !self.in_bounds(col as int, row as int) ==> r is None,
    {
        if row < self.rows && col < self.cols {
            Some(&self.data[self.index_of(col, row)])
        } else {
            None
        }
    }

    /// A mutable reference to the cell at `(col, row)`, or none outside the grid.
    pub fn get_mut(&mut self, col: usize, row: usize) -> (r: Option<&mut T>)
        requires
            old(self).wf(),
        ensures
            final(self).wf(),
            old(self).in_bounds(col as int, row as int) ==> (r matches Some(v) && *v == old(
                self,
            ).spec_at(col as int, row as int) && final(self)@ == old(self)@.update(
                old(self).offset(col as int, row as int),
                *final(v),
            ) && final(self).spec_cols() == old(self).spec_cols() && final(self).spec_rows()
                == old(self).spec_rows()),
            !old(self).in_bounds(col as int, row as int) ==> r is None && *final(self) == *old(
                self,
            ),
    {
        if row < self.rows && col < self.cols {
            let idx = self.index_of(col, row);
            Some(&mut self.data[idx])
        } else {
            None
        }
    }

    /// Writes `value` at `(col, row)`; an error, and no change, outside the grid.
    pub fn set(&mut self, col: usize, row: usize, value: T) -> (r: Result<(), String>)
        requires
            old(self).wf(),
        ensures
            final(self).wf(),
            r is Ok <==> old(self).in_bounds(col as int, row as int),
            r is Ok ==> final(self)@ == old(self)@.update(
                old(self).offset(col as int, row as int),
                value,
            ),
            r is Err ==> final(self)@ == old(self)@,
            final(self).spec_cols() == old(self).spec_cols(),
            final(self).spec_rows() == old(self).spec_rows(),
    {
        if row < self.rows && col < self.cols {
            let idx = self.index_of(col, row);
            self.data.set(idx, value);
            Ok(())
        } else {
            Err(out_of_bounds_message(row, col))
        }
    }
}

impl<T> Matrix<T> {
    /// The cells of row `row`, or none past the last row.
    pub fn row(&self, row: usize) -> (r: Option<&[T]>)
        requires
            self.wf(),
        ensures
            row < self.spec_rows() ==> (r matches Some(cells) && cells@ == self@.subrange(
                row * self.spec_cols(),
                row * self.spec_cols() + self.spec_cols(),
            )),
            row >= self.spec_rows() ==> r is None,
    {
        if row < self.rows {
            proof {
                assert(0 <= row * self.cols <= row * self.cols + self.cols <= self.rows * self.cols)
                    by (nonlinear_arith)
                    requires
                        row < self.rows,
                ;
                assert(self.data@.len() == self.data.len());
            }
            let start = row * self.cols;
            let (_, tail) = self.data.as_slice().split_at(start);
            let (cells, _) = tail.split_at(self.cols);
            proof {
                assert(cells@ =~= self@.subrange(start as int, start + self.cols));
            }
            Some(cells)
        } else {
            None
        }
    }

    /// Every position of the grid as `(col, row)`, row after row.
    pub fn keys(&self) -> (r: Vec<(usize, usize)>)
        requires
            self.wf(),
        ensures
            r@.len() == self.spec_rows() * self.spec_cols(),
            forall|col: int, row: int|
                self.in_bounds(col, row) ==> r@[#[trigger] self.offset(col, row)] == (
                    col as usize,
                    row as usize,
                ),
    {
        let mut data: Vec<(usize, usize)> = Vec::new();
        let mut idy: usize = 0;
        while idy < self.rows
            invariant
                self.wf(),
                idy <= self.rows,
                data@.len() == idy * self.cols,
                forall|col: int, row: int|
                    0 <= col < self.cols && 0 <= row < idy ==> data@[#[trigger] self.offset(
                        col,
                        row,
                    )] == (col as usize, row as usize),
            decreases self.rows - idy,
        {
            let mut idx: usize = 0;
            while idx < self.cols
                invariant
                    self.wf(),
                    idy < self.rows,
                    idx <= self.cols,
                    data@.len() == idy * self.cols + idx,
                    forall|col: int, row: int|
                        0 <= col < self.cols && 0 <= row < idy ==> data@[#[trigger] self.offset(
                            col,
                            row,
                        )] == (col as usize, row as usize),
                    forall|col: int| 0 <= col < idx ==> data@[#[trigger] self.offset(col, idy as int)]
                        == (col as usize, idy),
                decreases self.cols - idx,
            {
                proof {
                    lemma_offset_in_range(idx as int, idy as int, self.cols as int, self.rows as int);
                    assert forall|col: int, row: int|
                        0 <= col < self.cols && 0 <= row < idy implies #[trigger] self.offset(
                            col,
                            row,
                        ) < idy * self.cols by {
                        lemma_offset_in_range(col, row, self.cols as int, idy as int);
                    }
                }
                data.push((idx, idy));
                idx = idx + 1;
            }
            proof {
                assert((idy + 1) * self.cols == idy * self.cols + self.cols) by (nonlinear_arith);
            }
            idy = idy + 1;
        }
        data
    }

    /// Iterates over all cells, row after row.
    pub fn iter(&self) -> (r: std::slice::Iter<'_, T>)
        requires
            self.wf(),
        ensures
            r.remaining() == self@.as_ref(),
    {
        self.data.as_slice().iter()
    }

    /// All cells, row after row, open to change in place.
    pub fn iter_mut(&mut self) -> (r: &mut [T])
        requires
            old(self).wf(),
        ensures
            r@ == old(self)@,
            final(self)@ == final(r)@,
            final(self).spec_cols() == old(self).spec_cols(),
            final(self).spec_rows() == old(self).spec_rows(),
    {
        self.data.as_mut_slice()
    }
}

impl<T> core::ops::Index<(usize, usize)> for Matrix<T> {
    type Output = T;

    /// The cell at `(col, row)`, which must lie inside the grid.
    fn index(&self, pos: (usize, usize)) -> (r: &T)
        ensures
            *r == self.spec_at(pos.0 as int, pos.1 as int),
    {
        &self.data[self.index_of(pos.0, pos.1)]
    }
}

impl<T> vstd::std_specs::core::IndexSpecImpl<(usize, usize)> for Matrix<T> {
    open spec fn index_req(&self, pos: &(usize, usize)) -> bool {
        self.wf() && self.in_bounds(pos.0 as int, pos.1 as int)
    }
}

/// A position inside a grid of `cols` by `rows` lands inside its
/// row-by-row sequence.
pub(crate) proof fn lemma_offset_in_range(col: int, row: int, cols: int, rows: int)
    requires
        0 <= col < cols,
        0 <= row < rows,
    ensures
        0 <= row * cols + col < rows * cols,
{
    assert(row * cols + col < rows * cols) by (nonlinear_arith)
        requires
            0 <= col < cols,
            0 <= row < rows,
    ;
    assert(0 <= row * cols) by (nonlinear_arith)
        requires
            0 <= row,
            0 <= cols,
    ;
}

} // verus!
