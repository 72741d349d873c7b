use vstd::prelude::*;
use crate::error::MatrixError;
use crate::matrix::{lemma_same_cells, Grid, Matrix};

verus! {

/// A coordinate at which two matrices differ, with the element that each
/// of them has there.
#[derive(Clone, Copy, Debug, PartialEq, Eq, Structural)]
pub struct Mismatch {
    pub x: usize,
    pub y: usize,
    pub left: i32,
    pub right: i32,
}

/// `(x1, y1)` is visited before `(x2, y2)` when the cells are compared
/// column by column, and within a column from the first row on.
pub open spec fn visited_before(x1: int, y1: int, x2: int, y2: int) -> bool {
    x1 < x2 || (x1 == x2 && y1 < y2)
}

/// `found` is the first cell, in the order of the comparison, at which
/// `a` and `b` differ, with the two elements found there.
pub open spec fn is_first_mismatch(a: Grid, b: Grid, found: Mismatch) -> bool {
    &&& a.contains(found.x as int, found.y as int)
    &&& found.left == a.at(found.x as int, found.y as int)
    &&& found.right == b.at(found.x as int, found.y as int)
    &&& found.left != found.right
    &&& forall|x: int, y: int|
        a.contains(x, y) && visited_before(x, y, found.x as int, found.y as int)
            ==> #[trigger] a.at(x, y) == b.at(x, y)
}

/// Two matrices have the same shape.
pub open spec fn same_shape(a: Grid, b: Grid) -> bool {
    a.width == b.width && a.height == b.height
}

impl Matrix {
    /// Compares two matrices cell for cell, column by column and within a
    /// column from the first row on, and reports the first cell at which
    /// they differ; `None` when they are equal. Matrices of different
    /// shapes are not compared: the result is `Dimension`.
    pub fn first_mismatch(&self, other: &Matrix) -> (r: Result<Option<Mismatch>, MatrixError>)
        ensures
            !same_shape(self@, other@) ==> r == Err::<Option<Mismatch>, MatrixError>(
                MatrixError::Dimension,
            ),
            same_shape(self@, other@) ==> match r {
                Ok(None) => self@ == other@,
                Ok(Some(found)) => is_first_mismatch(self@, other@, found),
                Err(_) => false,
            },
    {
        let width: usize = self.width();
        let height: usize = self.height();
        if width != other.width() || height != other.height() {
            return Err(MatrixError::Dimension);
        }
        let mut x: usize = 0;
        while x < width
            invariant
                self@.wf(),
                other@.wf(),
                same_shape(self@, other@),
                width == self@.width,
                height == self@.height,
                x <= width,
                forall|x2: int, y2: int|
                    0 <= x2 < x && 0 <= y2 < height ==> #[trigger] self@.at(x2, y2) == other@.at(
                        x2,
                        y2,
                    ),
            decreases width - x,
        {
            let mut y: usize = 0;
            while y < height
                invariant
                    self@.wf(),
                    other@.wf(),
                    same_shape(self@, other@),
                    width == self@.width,
                    height == self@.height,
                    x < width,
                    y <= height,
                    forall|x2: int, y2: int|
                        self@.contains(x2, y2) && visited_before(x2, y2, x as int, y as int)
                            ==> #[trigger] self@.at(x2, y2) == other@.at(x2, y2),
                decreases height - y,
            {
                let left: i32 = self.cell(x, y);
                let right: i32 = other.cell(x, y);
                if left != right {
                    return Ok(Some(Mismatch { x, y, left, right }));
                }
                y += 1;
            }
            x += 1;
        }
        proof {
            lemma_same_cells(self@, other@);
        }
        Ok(None)
    }
}

} // verus!
