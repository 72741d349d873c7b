use vstd::prelude::*;
use crate::error::MatrixError;
use crate::matrix::{Grid, Matrix};
use crate::product::{columns_fit, fits, product_at, product_cell};

verus! {

/// One computed cell of the output on its way from a worker to the
/// orchestrator: the column, the row, and the element to write there.
#[derive(Clone, Copy, Debug, PartialEq, Eq, Structural)]
pub struct Cell {
    pub x: usize,
    pub y: usize,
    pub value: i32,
}

/// The message for the product's cell at column `i`, row `j`.
pub open spec fn cell_of(a: Grid, b: Grid, i: int, j: int) -> Cell {
    Cell { x: i as usize, y: j as usize, value: product_at(a, b, i, j) as i32 }
}

/// The messages of a worker whose chunk is the columns `from <= i < to`,
/// in the order it emits them: column by column, and within a column row
/// by row.
pub open spec fn chunk_cells(a: Grid, b: Grid, from: int, to: int) -> Seq<Cell> {
    Seq::new(
        ((to - from) * b.width) as nat,
        |p: int| cell_of(a, b, from + p / (b.width as int), p % (b.width as int)),
    )
}

/// What a worker yields for the columns `from <= i < to`: its messages, or
/// the reason why it has none.
pub open spec fn chunk_spec(a: Grid, b: Grid, from: int, to: int) -> Result<
    Seq<Cell>,
    MatrixError,
> {
    if a.width != b.height {
        Err(MatrixError::Dimension)
    } else if !(0 <= from <= to <= a.height) {
        Err(MatrixError::Bounds)
    } else if (to - from) * b.width > usize::MAX {
        Err(MatrixError::Construction)
    } else if !columns_fit(a, b, from, to) {
        Err(MatrixError::Overflow)
    } else {
        Ok(chunk_cells(a, b, from, to))
    }
}

/// The mathematical content of a worker's result.
pub open spec fn emitted(r: Result<Vec<Cell>, MatrixError>) -> Result<Seq<Cell>, MatrixError> {
    match r {
        Ok(cells) => Ok(cells@),
        Err(e) => Err(e),
    }
}

/// The messages of two chunks that lie one after the other are, one after
/// the other, the messages of the chunk that spans both.
pub proof fn lemma_chunk_cells_join(a: Grid, b: Grid, from: int, mid: int, to: int)
    requires
        from <= mid <= to,
    ensures
        chunk_cells(a, b, from, mid) + chunk_cells(a, b, mid, to) == chunk_cells(a, b, from, to),
{
    let h = b.width as int;
    let left = chunk_cells(a, b, from, mid);
    let right = chunk_cells(a, b, mid, to);
    let whole = chunk_cells(a, b, from, to);
    assert((mid - from) * h + (to - mid) * h == (to - from) * h) by (nonlinear_arith);
    assert((mid - from) * h >= 0 && (to - mid) * h >= 0 && (to - from) * h >= 0)
        by (nonlinear_arith)
        requires
            from <= mid <= to,
            h >= 0,
    ;
    assert forall|p: int| 0 <= p < whole.len() implies (left + right)[p] == whole[p] by {
        if p >= left.len() {
            let q = p - (mid - from) * h;
            assert(h > 0) by (nonlinear_arith)
                requires
                    0 <= q < (to - mid) * h,
                    h >= 0,
            ;
            vstd::arithmetic::div_mod::lemma_fundamental_div_mod(p, h);
            vstd::arithmetic::div_mod::lemma_mod_bound(p, h);
            let x = p / h - (mid - from);
            assert(q == h * x + p % h) by (nonlinear_arith)
                requires
                    q == p - (mid - from) * h,
                    p == h * (p / h) + p % h,
                    x == p / h - (mid - from),
            ;
            vstd::arithmetic::div_mod::lemma_fundamental_div_mod_converse(q, h, x, p % h);
        }
    }
    assert(left + right =~= whole);
}

/// Computes every cell of the product in the columns `from <= i < to` and
/// returns the messages for them, column by column and row by row.
///
/// This is the whole work of one worker. It reads both operands and
/// writes neither; the output matrix is not in its reach.
pub fn compute_chunk(a: &Matrix, b: &Matrix, from: usize, to: usize) -> (r: Result<
    Vec<Cell>,
    MatrixError,
>)
    ensures
        emitted(r) == chunk_spec(a@, b@, from as int, to as int),
{
    if a.width() != b.height() {
        return Err(MatrixError::Dimension);
    }
    if from > to || to > a.height() {
        return Err(MatrixError::Bounds);
    }
    let height: usize = b.width();
    if (to - from).checked_mul(height).is_none() {
        return Err(MatrixError::Construction);
    }
    let mut cells: Vec<Cell> = Vec::new();
    let mut i: usize = from;
    while i < to
        invariant
            a@.width == b@.height,
            from <= i <= to <= a@.height,
            height == b@.width,
            (to - from) * height <= usize::MAX,
            columns_fit(a@, b@, from as int, i as int),
            cells@ == chunk_cells(a@, b@, from as int, i as int),
        decreases to - i,
    {
        let ghost done = cells@;
        let mut j: usize = 0;
        while j < height
            invariant
                a@.width == b@.height,
                from <= i < to <= a@.height,
                height == b@.width,
                j <= height,
                (to - from) * height <= usize::MAX,
                done == chunk_cells(a@, b@, from as int, i as int),
                forall|j2: int| 0 <= j2 < j ==> fits(#[trigger] product_at(a@, b@, i as int, j2)),
                cells@.len() == done.len() + j,
                forall|p: int| 0 <= p < done.len() ==> cells@[p] == done[p],
                forall|j2: int|
                    0 <= j2 < j ==> cells@[done.len() + j2] == cell_of(a@, b@, i as int, j2),
            decreases height - j,
        {
            let value: i32 = match product_cell(a, b, i, j) {
                Ok(value) => value,
                Err(e) => {
                    assert(!fits(product_at(a@, b@, i as int, j as int)));
                    assert(!columns_fit(a@, b@, from as int, to as int));
                    return Err(e);
                },
            };
            cells.push(Cell { x: i, y: j, value });
            j += 1;
        }
        proof {
            let h = height as int;
            let column = chunk_cells(a@, b@, i as int, i + 1);
            assert((i + 1 - i) * h == h) by (nonlinear_arith);
            assert forall|p: int| 0 <= p < h implies column[p] == cell_of(a@, b@, i as int, p) by {
                vstd::arithmetic::div_mod::lemma_fundamental_div_mod_converse(p, h, 0, p);
            }
            assert(cells@ =~= done + column);
            lemma_chunk_cells_join(a@, b@, from as int, i as int, i + 1);
        }
        i += 1;
    }
    Ok(cells)
}

} // verus!
