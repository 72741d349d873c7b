use vstd::prelude::*;
use crate::error::MatrixError;
use crate::matrix::{
    lemma_index_of, lemma_put_then_at, lemma_same_cells, outcome, Grid, Matrix,
};

verus! {

/// The first `k` terms of the product's cell at column `i`, row `j`: the
/// sum over `t < k` of `a(t, i) * b(j, t)`.
pub open spec fn partial_dot(a: Grid, b: Grid, i: int, j: int, k: nat) -> int
    decreases k,
{
    if k == 0 {
        0
    } else {
        partial_dot(a, b, i, j, (k - 1) as nat) + a.at(k - 1, i) * b.at(j, k - 1)
    }
}

/// The exact value of the product's cell at column `i`, row `j`: the sum
/// over every `k` below the left operand's width of `a(k, i) * b(j, k)`.
pub open spec fn product_at(a: Grid, b: Grid, i: int, j: int) -> int {
    partial_dot(a, b, i, j, a.width)
}

/// `v` is representable as an element.
pub open spec fn fits(v: int) -> bool {
    i32::MIN <= v <= i32::MAX
}

/// `v` as an element, or `Overflow` when it is not representable.
pub open spec fn narrow(v: int) -> Result<i32, MatrixError> {
    if fits(v) {
        Ok(v as i32)
    } else {
        Err(MatrixError::Overflow)
    }
}

/// Every cell of the product in the columns `from <= i < to` is
/// representable as an element.
pub open spec fn columns_fit(a: Grid, b: Grid, from: int, to: int) -> bool {
    forall|i: int, j: int|
        from <= i < to && 0 <= j < b.width ==> fits(#[trigger] product_at(a, b, i, j))
}

/// Every cell of the product is representable as an element.
pub open spec fn product_fits(a: Grid, b: Grid) -> bool {
    columns_fit(a, b, 0, a.height as int)
}

/// The product of `a` and `b`: as wide as `a` is high, as high as `b` is
/// wide, with `product_at(a, b, i, j)` at column `i`, row `j`.
pub open spec fn product(a: Grid, b: Grid) -> Grid {
    Grid {
        width: a.height,
        height: b.width,
        cells: Seq::new(
            a.height * b.width,
            |p: int| product_at(a, b, p % (a.height as int), p / (a.height as int)) as i32,
        ),
    }
}

/// What multiplying `a` by `b` yields: the product, or the reason why
/// there is none.
pub open spec fn mul_spec(a: Grid, b: Grid) -> Result<Grid, MatrixError> {
    if a.width != b.height {
        Err(MatrixError::Dimension)
    } else if a.height * b.width > usize::MAX {
        Err(MatrixError::Construction)
    } else if !product_fits(a, b) {
        Err(MatrixError::Overflow)
    } else {
        Ok(product(a, b))
    }
}

/// The product is well formed and holds at each coordinate the cell that
/// `product_at` gives.
pub proof fn lemma_product_at(a: Grid, b: Grid, i: int, j: int)
    requires
        0 <= i < a.height,
        0 <= j < b.width,
    ensures
        product(a, b).wf(),
        product(a, b).contains(i, j),
        product(a, b).at(i, j) == product_at(a, b, i, j) as i32,
{
    lemma_index_of(a.height as int, b.width as int, i, j);
}

/// A grid of the product's shape that holds the product's cell at every
/// coordinate is the product.
pub proof fn lemma_product_unique(a: Grid, b: Grid, g: Grid)
    requires
        g.wf(),
        g.width == a.height,
        g.height == b.width,
        forall|i: int, j: int|
            0 <= i < a.height && 0 <= j < b.width ==> #[trigger] g.at(i, j) == product_at(
                a,
                b,
                i,
                j,
            ) as i32,
    ensures
        g == product(a, b),
{
    assert forall|i: int, j: int| g.contains(i, j) implies #[trigger] g.at(i, j) == product(
        a,
        b,
    ).at(i, j) by {
        lemma_product_at(a, b, i, j);
    }
    lemma_same_cells(g, product(a, b));
}

/// One term of a cell of the product is at most `2^62` in magnitude.
proof fn lemma_term_bound(x: int, y: int)
    requires
        i32::MIN <= x <= i32::MAX,
        i32::MIN <= y <= i32::MAX,
    ensures
        -0x4000_0000_0000_0000 <= x * y <= 0x4000_0000_0000_0000,
{
    assert(-0x4000_0000_0000_0000 <= x * y <= 0x4000_0000_0000_0000) by (nonlinear_arith)
        requires
            -0x8000_0000 <= x <= 0x8000_0000,
            -0x8000_0000 <= y <= 0x8000_0000,
    ;
}

/// The cell of the product at column `i`, row `j`, summed without loss in
/// 128 bits and then narrowed to an element.
pub(crate) fn product_cell(a: &Matrix, b: &Matrix, i: usize, j: usize) -> (r: Result<
    i32,
    MatrixError,
>)
    requires
        a@.width == b@.height,
        i < a@.height,
        j < b@.width,
    ensures
        r == narrow(product_at(a@, b@, i as int, j as int)),
{
    let n: usize = a.width();
    let mut acc: i128 = 0;
    let mut k: usize = 0;
    while k < n
        invariant
            n == a@.width,
            a@.width == b@.height,
            i < a@.height,
            j < b@.width,
            k <= n,
            acc == partial_dot(a@, b@, i as int, j as int, k as nat),
            -0x4000_0000_0000_0000 * k <= acc <= 0x4000_0000_0000_0000 * k,
        decreases n - k,
    {
        let x: i128 = a.cell(k, i) as i128;
        let y: i128 = b.cell(j, k) as i128;
        proof {
            lemma_term_bound(x as int, y as int);
            assert(k < 0x1_0000_0000_0000_0000);
        }
        acc = acc + x * y;
        k += 1;
    }
    if acc < -0x8000_0000 || acc > 0x7fff_ffff {
        Err(MatrixError::Overflow)
    } else {
        Ok(acc as i32)
    }
}

impl Matrix {
    /// The product of `self` and `m`, computed cell by cell on the calling
    /// thread.
    ///
    /// Fails with `Dimension` when `self` is not as wide as `m` is high,
    /// with `Construction` when the product has more cells than can be
    /// counted, and with `Overflow` when one of its cells is not
    /// representable as an element.
    pub fn mul(self, m: Matrix) -> (r: Result<Matrix, MatrixError>)
        ensures
            outcome(r) == mul_spec(self@, m@),
    {
        if self.width() != m.height() {
            return Err(MatrixError::Dimension);
        }
        let width: usize = self.height();
        let height: usize = m.width();
        let mut out = match Matrix::zeros(width, height) {
            Ok(out) => out,
            Err(e) => {
                return Err(e);
            },
        };
        let mut i: usize = 0;
        while i < width
            invariant
                self@.wf(),
                m@.wf(),
                self@.width == m@.height,
                width == self@.height,
                height == m@.width,
                width * height <= usize::MAX,
                out@.wf(),
                out@.width == width,
                out@.height == height,
                i <= width,
                columns_fit(self@, m@, 0, i as int),
                forall|i2: int, j2: int|
                    0 <= i2 < i && 0 <= j2 < height ==> #[trigger] out@.at(i2, j2) == product_at(
                        self@,
                        m@,
                        i2,
                        j2,
                    ) as i32,
            decreases width - i,
        {
            let mut j: usize = 0;
            while j < height
                invariant
                    self@.wf(),
                    m@.wf(),
                    self@.width == m@.height,
                    width == self@.height,
                    height == m@.width,
                    width * height <= usize::MAX,
                    out@.wf(),
                    out@.width == width,
                    out@.height == height,
                    i < width,
                    j <= height,
                    columns_fit(self@, m@, 0, i as int),
                    forall|j2: int|
                        0 <= j2 < j ==> fits(#[trigger] product_at(self@, m@, i as int, j2)),
                    forall|i2: int, j2: int|
                        (0 <= i2 < i && 0 <= j2 < height) || (i2 == i && 0 <= j2 < j)
                            ==> #[trigger] out@.at(i2, j2) == product_at(self@, m@, i2, j2) as i32,
                decreases height - j,
            {
                let cell: i32 = match product_cell(&self, &m, i, j) {
                    Ok(cell) => cell,
                    Err(e) => {
                        assert(!fits(product_at(self@, m@, i as int, j as int)));
                        assert(!columns_fit(self@, m@, 0, self@.height as int));
                        return Err(e);
                    },
                };
                let ghost before = out@;
                let _ = out.set(i, j, cell);
                proof {
                    assert forall|i2: int, j2: int|
                        (0 <= i2 < i && 0 <= j2 < height) || (i2 == i && 0 <= j2 < j + 1)
                        implies #[trigger] out@.at(i2, j2)
                        == product_at(self@, m@, i2, j2) as i32 by {
                        lemma_put_then_at(before, i as int, j as int, cell, i2, j2);
                    }
                }
                j += 1;
            }
            i += 1;
        }
        proof {
            lemma_product_unique(self@, m@, out@);
        }
        Ok(out)
    }
}

} // verus!
