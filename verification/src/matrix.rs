use vstd::prelude::*;
use crate::error::MatrixError;

verus! {

/// The mathematical content of a matrix: its shape and its elements in
/// row-major order. The element at column `x` of row `y` is
/// `cells[y * width + x]`.
pub struct Grid {
    pub width: nat,
    pub height: nat,
    pub cells: Seq<i32>,
}

impl Grid {
    /// There is exactly one element per coordinate.
    pub open spec fn wf(self) -> bool {
        self.cells.len() == self.width * self.height
    }

    /// `(x, y)` names a cell of the grid.
    pub open spec fn contains(self, x: int, y: int) -> bool {
        0 <= x < self.width && 0 <= y < self.height
    }

    /// The position of `(x, y)` in the row-major element sequence.
    pub open spec fn index_of(self, x: int, y: int) -> int {
        y * self.width + x
    }

    /// The element at column `x`, row `y`.
    pub open spec fn at(self, x: int, y: int) -> i32 {
        self.cells[self.index_of(x, y)]
    }

    /// The grid with the element at `(x, y)` replaced by `value`.
    pub open spec fn put(self, x: int, y: int, value: i32) -> Grid {
        Grid {
            width: self.width,
            height: self.height,
            cells: self.cells.update(self.index_of(x, y), value),
        }
    }

    /// The grid of the given shape whose elements are all zero.
    pub open spec fn zeros(width: nat, height: nat) -> Grid {
        Grid { width, height, cells: Seq::new(width * height, |p: int| 0i32) }
    }
}

/// In a grid of width `w` and height `h`, the row-major position of an
/// inside coordinate is a valid position, and determines the coordinate.
pub proof fn lemma_index_of(w: int, h: int, x: int, y: int)
    requires
        0 <= x < w,
        0 <= y < h,
    ensures
        0 <= y * w <= y * w + x < w * h,
        (y * w + x) % w == x,
        (y * w + x) / w == y,
{
    assert(y * w + x < w * h) by (nonlinear_arith)
        requires 0 <= x < w, 0 <= y < h;
    assert(0 <= y * w) by (nonlinear_arith)
        requires 0 <= w, 0 <= y;
    vstd::arithmetic::div_mod::lemma_fundamental_div_mod_converse(y * w + x, w, y, x);
}

/// Two inside coordinates with the same row-major position are the same.
pub proof fn lemma_index_of_injective(w: int, h: int, x1: int, y1: int, x2: int, y2: int)
    requires
        0 <= x1 < w,
        0 <= y1 < h,
        0 <= x2 < w,
        0 <= y2 < h,
        y1 * w + x1 == y2 * w + x2,
    ensures
        x1 == x2,
        y1 == y2,
{
    lemma_index_of(w, h, x1, y1);
    lemma_index_of(w, h, x2, y2);
}

/// Writing an element and reading the same coordinate gives the element
/// written; every other cell keeps its element, and the shape is kept.
pub proof fn lemma_put_then_at(g: Grid, x: int, y: int, value: i32, x2: int, y2: int)
    requires
        g.wf(),
        g.contains(x, y),
        g.contains(x2, y2),
    ensures
        g.put(x, y, value).wf(),
        g.put(x, y, value).at(x, y) == value,
        (x2 != x || y2 != y) ==> g.put(x, y, value).at(x2, y2) == g.at(x2, y2),
{
    lemma_index_of(g.width as int, g.height as int, x, y);
    lemma_index_of(g.width as int, g.height as int, x2, y2);
    if g.index_of(x, y) == g.index_of(x2, y2) {
        lemma_index_of_injective(g.width as int, g.height as int, x, y, x2, y2);
    }
}

/// Two well-formed grids of one shape that hold the same element at every
/// coordinate are the same grid.
pub proof fn lemma_same_cells(g1: Grid, g2: Grid)
    requires
        g1.wf(),
        g2.wf(),
        g1.width == g2.width,
        g1.height == g2.height,
        forall|x: int, y: int| g1.contains(x, y) ==> #[trigger] g1.at(x, y) == g2.at(x, y),
    ensures
        g1 == g2,
{
    let w = g1.width as int;
    let h = g1.height as int;
    assert forall|p: int| 0 <= p < w * h implies g1.cells[p] == g2.cells[p] by {
        assert(w > 0) by (nonlinear_arith)
            requires
                0 <= p < w * h,
                0 <= w,
        ;
        let x = p % w;
        let y = p / w;
        vstd::arithmetic::div_mod::lemma_fundamental_div_mod(p, w);
        vstd::arithmetic::div_mod::lemma_mod_bound(p, w);
        assert(0 <= y < h) by (nonlinear_arith)
            requires
                0 <= p < w * h,
                p == w * y + x,
                0 <= x < w,
        ;
        assert(y * w + x == p) by (nonlinear_arith)
            requires
                p == w * y + x,
        ;
        assert(g1.at(x, y) == g1.cells[p]);
        assert(g2.at(x, y) == g2.cells[p]);
    }
    assert(g1.cells =~= g2.cells);
}

/// A dense matrix of 32-bit signed integers, stored row by row.
#[derive(Debug)]
pub struct Matrix {
    width: usize,
    height: usize,
    cells: Vec<i32>,
}

impl View for Matrix {
    type V = Grid;

    closed spec fn view(&self) -> Grid {
        Grid { width: self.width as nat, height: self.height as nat, cells: self.cells@ }
    }
}

/// The mathematical content of a result that holds a matrix.
pub open spec fn outcome(r: Result<Matrix, MatrixError>) -> Result<Grid, MatrixError> {
    match r {
        Ok(m) => Ok(m@),
        Err(e) => Err(e),
    }
}

impl Matrix {
    #[verifier::type_invariant]
    spec fn inv(&self) -> bool {
        self.cells@.len() == self.width * self.height
    }

    /// Builds a matrix from its shape and its elements in row-major order.
    /// Fails exactly when the number of elements is not `width * height`.
    pub fn new(width: usize, height: usize, cells: Vec<i32>) -> (r: Result<Matrix, MatrixError>)
        ensures
            outcome(r) == if cells@.len() == width * height {
                Ok::<Grid, MatrixError>(
                    Grid { width: width as nat, height: height as nat, cells: cells@ },
                )
            } else {
                Err::<Grid, MatrixError>(MatrixError::Construction)
            },
    {
        assert(cells.len() == cells@.len());
        match width.checked_mul(height) {
            Some(size) => {
                if cells.len() == size {
                    Ok(Matrix { width, height, cells })
                } else {
                    Err(MatrixError::Construction)
                }
            },
            None => Err(MatrixError::Construction),
        }
    }

    /// The number of columns.
    pub fn width(&self) -> (w: usize)
        ensures
            w == self@.width,
            self@.wf(),
    {
        proof {
            use_type_invariant(self);
        }
        self.width
    }

    /// The number of rows.
    pub fn height(&self) -> (h: usize)
        ensures
            h == self@.height,
            self@.wf(),
    {
        proof {
            use_type_invariant(self);
        }
        self.height
    }

    /// The element at column `x`, row `y`, or `Bounds` when the coordinate
    /// is outside the matrix.
    pub fn get(&self, x: usize, y: usize) -> (r: Result<i32, MatrixError>)
        ensures
            self@.wf(),
            r == if self@.contains(x as int, y as int) {
                Ok::<i32, MatrixError>(self@.at(x as int, y as int))
            } else {
                Err::<i32, MatrixError>(MatrixError::Bounds)
            },
    {
        proof {
            use_type_invariant(self);
        }
        if x >= self.width || y >= self.height {
            return Err(MatrixError::Bounds);
        }
        proof {
            assert(self.cells.len() == self.cells@.len());
            lemma_index_of(self.width as int, self.height as int, x as int, y as int);
        }
        Ok(self.cells[y * self.width + x])
    }

    /// Replaces the element at column `x`, row `y` and returns the element
    /// that was there. Outside the matrix nothing changes and the result is
    /// `Bounds`.
    pub fn set(&mut self, x: usize, y: usize, value: i32) -> (r: Result<i32, MatrixError>)
        ensures
            final(self)@.wf(),
            old(self)@.contains(x as int, y as int) ==> r == Ok::<i32, MatrixError>(
                old(self)@.at(x as int, y as int),
            ) && final(self)@ == old(self)@.put(x as int, y as int, value),
            !old(self)@.contains(x as int, y as int) ==> r == Err::<i32, MatrixError>(
                MatrixError::Bounds,
            ) && final(self)@ == old(self)@,
        no_unwind
    {
        proof {
            use_type_invariant(&*self);
        }
        if x >= self.width || y >= self.height {
            return Err(MatrixError::Bounds);
        }
        proof {
            assert(self.cells.len() == self.cells@.len());
            lemma_index_of(self.width as int, self.height as int, x as int, y as int);
        }
        let index: usize = y * self.width + x;
        let previous: i32 = self.cells[index];
        self.cells[index] = value;
        Ok(previous)
    }
}

impl Matrix {
    /// The matrix of the given shape whose elements are all zero, or
    /// `Construction` when `width * height` exceeds `usize::MAX`.
    pub fn zeros(width: usize, height: usize) -> (r: Result<Matrix, MatrixError>)
        ensures
            outcome(r) == if width * height <= usize::MAX {
                Ok::<Grid, MatrixError>(Grid::zeros(width as nat, height as nat))
            } else {
                Err::<Grid, MatrixError>(MatrixError::Construction)
            },
    {
        match width.checked_mul(height) {
            Some(size) => {
                let cells: Vec<i32> = vec![0i32; size];
                assert(cells@ =~= Grid::zeros(width as nat, height as nat).cells);
                Ok(Matrix { width, height, cells })
            },
            None => Err(MatrixError::Construction),
        }
    }

    /// The place of an inside coordinate in the row-major order.
    pub(crate) fn position(&self, x: usize, y: usize) -> (p: usize)
        requires
            self@.contains(x as int, y as int),
        ensures
            p == self@.index_of(x as int, y as int),
            p < self@.cells.len(),
    {
        proof {
            use_type_invariant(self);
            assert(self.cells.len() == self.cells@.len());
            lemma_index_of(self.width as int, self.height as int, x as int, y as int);
        }
        y * self.width + x
    }

    /// The element at an inside coordinate.
    pub(crate) fn cell(&self, x: usize, y: usize) -> (v: i32)
        requires
            self@.contains(x as int, y as int),
        ensures
            v == self@.at(x as int, y as int),
    {
        proof {
            use_type_invariant(self);
            assert(self.cells.len() == self.cells@.len());
            lemma_index_of(self.width as int, self.height as int, x as int, y as int);
        }
        self.cells[y * self.width + x]
    }
}

impl Clone for Matrix {
    fn clone(&self) -> (r: Self)
        ensures
            r@ == self@,
    {
        proof {
            use_type_invariant(self);
        }
        let cells: Vec<i32> = self.cells.clone();
        assert(cells@ =~= self.cells@);
        Matrix { width: self.width, height: self.height, cells }
    }
}

impl PartialEq for Matrix {
    fn eq(&self, other: &Self) -> (r: bool)
    {
        proof {
            use_type_invariant(self);
            use_type_invariant(other);
        }
        if self.width != other.width || self.height != other.height {
            return false;
        }
        let n: usize = self.cells.len();
        let mut p: usize = 0;
        while p < n
            invariant
                n == self.cells@.len(),
                n == other.cells@.len(),
                p <= n,
                forall|q: int| 0 <= q < p ==> self.cells@[q] == other.cells@[q],
            decreases n - p,
        {
            if self.cells[p] != other.cells[p] {
                return false;
            }
            p += 1;
        }
        assert(self.cells@ =~= other.cells@);
        true
    }
}

impl vstd::std_specs::cmp::PartialEqSpecImpl for Matrix {
    open spec fn obeys_eq_spec() -> bool {
        true
    }

    open spec fn eq_spec(&self, other: &Self) -> bool {
        self@ == other@
    }
}

} // verus!
