use vstd::prelude::*;
use crate::matrix::{lemma_index_of, Grid, Matrix};
use crate::product::{columns_fit, fits, partial_dot, product_at, product_fits};

verus! {

/// The least element that the generator produces.
pub const CELL_LOW: i32 = -99;

/// The bound below which every element that the generator produces lies.
pub const CELL_HIGH: i32 = 99;

/// The widest left operand for which the product of two generated
/// matrices is sure to be representable: `99 * 99 * 219_108` is the last
/// such sum that is no more than `i32::MAX`.
pub const SAFE_INNER: usize = 219_108;

/// `rand::rngs::ThreadRng`, the handle to the calling thread's random
/// number generator. Nothing of its state is visible here.
#[verifier::external_type_specification]
#[verifier::external_body]
pub struct ExThreadRng(rand::rngs::ThreadRng);

/// `rand::thread_rng` hands out the calling thread's generator. Nothing
/// is claimed of it. The call panics only where the system gives the
/// generator no seed.
pub assume_specification[ rand::thread_rng ]() -> (rng: rand::rngs::ThreadRng)
;

/// `rand::Rng::gen_range` on the half-open range `low..high`: the number
/// drawn is at least `low` and less than `high`. The range must not be
/// empty, as the call panics on an empty one. Which number comes is left
/// open.
#[verifier::external_body]
fn draw(rng: &mut rand::rngs::ThreadRng, low: i32, high: i32) -> (v: i32)
    requires
        low < high,
    ensures
        low <= v < high,
{
    rand::Rng::gen_range(rng, low..high)
}

/// Every element is one that the generator may produce.
pub open spec fn in_generated_range(g: Grid) -> bool {
    forall|p: int| 0 <= p < g.cells.len() ==> CELL_LOW <= #[trigger] g.cells[p] < CELL_HIGH
}

/// A matrix of the given shape whose elements are drawn at random, each
/// at least `CELL_LOW` and less than `CELL_HIGH`.
pub fn generate_matrix(width: usize, height: usize) -> (m: Matrix)
    requires
        width * height <= usize::MAX,
    ensures
        m@.wf(),
        m@.width == width,
        m@.height == height,
        in_generated_range(m@),
{
    let mut rng = rand::thread_rng();
    let mut m: Matrix = Matrix::zeros(width, height).unwrap();
    let mut i: usize = 0;
    while i < width
        invariant
            i <= width,
            m@.wf(),
            m@.width == width,
            m@.height == height,
            in_generated_range(m@),
        decreases width - i,
    {
        let mut j: usize = 0;
        while j < height
            invariant
                i < width,
                j <= height,
                m@.wf(),
                m@.width == width,
                m@.height == height,
                in_generated_range(m@),
            decreases height - j,
        {
            let value: i32 = draw(&mut rng, CELL_LOW, CELL_HIGH);
            proof {
                lemma_index_of(width as int, height as int, i as int, j as int);
            }
            let _ = m.set(i, j, value);
            j += 1;
        }
        i += 1;
    }
    m
}

/// A partial sum of `k` terms over generated elements is at most
/// `99 * 99 * k` in magnitude.
proof fn lemma_generated_partial_dot(a: Grid, b: Grid, i: int, j: int, k: nat)
    requires
        a.wf(),
        b.wf(),
        a.width == b.height,
        in_generated_range(a),
        in_generated_range(b),
        0 <= i < a.height,
        0 <= j < b.width,
        k <= a.width,
    ensures
        -9801 * k <= partial_dot(a, b, i, j, k) <= 9801 * k,
    decreases k,
{
    if k > 0 {
        lemma_generated_partial_dot(a, b, i, j, (k - 1) as nat);
        lemma_index_of(a.width as int, a.height as int, k - 1, i);
        lemma_index_of(b.width as int, b.height as int, j, k - 1);
        let x = a.at(k - 1, i) as int;
        let y = b.at(j, k - 1) as int;
        assert(-9801 <= x * y <= 9801) by (nonlinear_arith)
            requires
                -99 <= x <= 99,
                -99 <= y <= 99,
        ;
    }
}

/// The product of two generated matrices is representable when the left
/// operand is no wider than `SAFE_INNER`: on such operands neither
/// multiplication fails with `Overflow`.
pub proof fn lemma_generated_product_fits(a: Grid, b: Grid)
    requires
        a.wf(),
        b.wf(),
        a.width == b.height,
        in_generated_range(a),
        in_generated_range(b),
        a.width <= SAFE_INNER,
    ensures
        product_fits(a, b),
{
    assert forall|i: int, j: int| 0 <= i < a.height && 0 <= j < b.width implies fits(
        #[trigger] product_at(a, b, i, j),
    ) by {
        lemma_generated_partial_dot(a, b, i, j, a.width);
    }
    assert(columns_fit(a, b, 0, a.height as int));
}

} // verus!
