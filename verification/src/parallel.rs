use vstd::prelude::*;
use crate::collect::{
    agree_on, delivered_to, lands_on, lemma_drain_at, lemma_drain_join, lemma_drain_shape,
    lemma_shared_member, Collector, Gathered,
};
use crate::error::MatrixError;
use crate::matrix::{lemma_index_of, lemma_index_of_injective, outcome, Grid, Matrix};
use crate::partition::{
    chunk_bounds, chunk_end, chunk_start, lemma_chunks_tile, worker_count, worker_count_spec,
};
use crate::product::{columns_fit, mul_spec, product, product_at, product_fits};
use crate::worker::{cell_of, chunk_cells, compute_chunk, lemma_chunk_cells_join, Cell};

verus! {

/// The messages of the first `count` of `workers` workers, worker after
/// worker, each with the chunk that the partition of the output's columns
/// gives it.
pub open spec fn scheduled_upto(a: Grid, b: Grid, workers: nat, count: nat) -> Seq<Cell>
    decreases count,
{
    if count == 0 {
        Seq::empty()
    } else {
        scheduled_upto(a, b, workers, (count - 1) as nat) + chunk_cells(
            a,
            b,
            chunk_start(a.height, workers, (count - 1) as nat) as int,
            chunk_end(a.height, workers, (count - 1) as nat) as int,
        )
    }
}

/// All the messages that `workers` workers emit between them.
pub open spec fn scheduled(a: Grid, b: Grid, workers: nat) -> Seq<Cell> {
    scheduled_upto(a, b, workers, workers)
}

/// What multiplying `a` by `b` with at most `max_workers` workers yields:
/// the product, or the reason why there is none. Without a worker no cell
/// is delivered, which is a failure unless the output has no cell.
pub open spec fn mul_mt_spec(a: Grid, b: Grid, max_workers: nat) -> Result<Grid, MatrixError> {
    if a.width != b.height {
        Err(MatrixError::Dimension)
    } else if a.height * b.width > usize::MAX {
        Err(MatrixError::Construction)
    } else if max_workers == 0 && a.height * b.width > 0 {
        Err(MatrixError::WorkerFailure)
    } else if !product_fits(a, b) {
        Err(MatrixError::Overflow)
    } else {
        Ok(product(a, b))
    }
}

/// With at least one worker allowed, the parallel multiplication yields
/// what the sequential one yields: the same product, cell for cell, or
/// the same error.
pub proof fn lemma_parallel_equals_sequential(a: Grid, b: Grid, max_workers: nat)
    requires
        max_workers >= 1,
    ensures
        mul_mt_spec(a, b, max_workers) == mul_spec(a, b),
{
}

/// The result of the parallel multiplication does not depend on how many
/// workers are allowed, as long as one is.
pub proof fn lemma_worker_bound_is_irrelevant(a: Grid, b: Grid, first: nat, second: nat)
    requires
        first >= 1,
        second >= 1,
    ensures
        mul_mt_spec(a, b, first) == mul_mt_spec(a, b, second),
{
}

/// Operands whose shapes do not match are refused with `Dimension` by
/// both multiplications.
pub proof fn lemma_shape_mismatch_is_refused(a: Grid, b: Grid, max_workers: nat)
    requires
        a.width != b.height,
    ensures
        mul_spec(a, b) == Err::<Grid, MatrixError>(MatrixError::Dimension),
        mul_mt_spec(a, b, max_workers) == Err::<Grid, MatrixError>(MatrixError::Dimension),
{
}

/// The messages of the first `count` workers are those of one chunk that
/// runs from column 0 to the end of the last of them.
pub proof fn lemma_scheduled_upto(a: Grid, b: Grid, workers: nat, count: nat)
    requires
        1 <= count <= workers,
    ensures
        scheduled_upto(a, b, workers, count) == chunk_cells(
            a,
            b,
            0,
            chunk_end(a.height, workers, (count - 1) as nat) as int,
        ),
    decreases count,
{
    let last = (count - 1) as nat;
    let from = chunk_start(a.height, workers, last) as int;
    let to = chunk_end(a.height, workers, last) as int;
    lemma_chunks_tile(a.height, workers, last);
    if count == 1 {
        assert(scheduled_upto(a, b, workers, 0) =~= Seq::<Cell>::empty());
        assert(scheduled_upto(a, b, workers, 1) =~= chunk_cells(a, b, from, to));
    } else {
        lemma_scheduled_upto(a, b, workers, last);
        lemma_chunks_tile(a.height, workers, (last - 1) as nat);
        lemma_chunk_cells_join(a, b, 0, from, to);
    }
}

/// Between them the workers emit exactly the messages of one worker that
/// has every column.
pub proof fn lemma_scheduled_is_every_cell(a: Grid, b: Grid, workers: nat)
    requires
        1 <= workers,
    ensures
        scheduled(a, b, workers) == chunk_cells(a, b, 0, a.height as int),
{
    lemma_scheduled_upto(a, b, workers, workers);
    lemma_chunks_tile(a.height, workers, (workers - 1) as nat);
}

/// Message `q` of a worker that has every column is the message for one
/// cell of the output, and lands on that cell's place.
proof fn lemma_every_cell_message(a: Grid, b: Grid, q: int)
    requires
        a.height <= usize::MAX,
        b.width <= usize::MAX,
        0 <= q < chunk_cells(a, b, 0, a.height as int).len(),
    ensures
        b.width > 0,
        0 <= q / (b.width as int) < a.height,
        0 <= q % (b.width as int) < b.width,
        chunk_cells(a, b, 0, a.height as int)[q] == cell_of(
            a,
            b,
            q / (b.width as int),
            q % (b.width as int),
        ),
        cell_of(a, b, q / (b.width as int), q % (b.width as int)).x == q / (b.width as int),
        cell_of(a, b, q / (b.width as int), q % (b.width as int)).y == q % (b.width as int),
{
    let w = a.height as int;
    let h = b.width as int;
    assert(h > 0) by (nonlinear_arith)
        requires
            0 <= q < (w - 0) * h,
            h >= 0,
    ;
    vstd::arithmetic::div_mod::lemma_fundamental_div_mod(q, h);
    vstd::arithmetic::div_mod::lemma_mod_bound(q, h);
    assert(0 <= q / h < w) by (nonlinear_arith)
        requires
            0 <= q < (w - 0) * h,
            q == h * (q / h) + q % h,
            0 <= q % h < h,
    ;
}

/// The cell at place `p` is marked and holds the element that `g` has there.
pub open spec fn settled(s: Gathered, g: Grid, p: int) -> bool {
    s.filled[p] && s.grid.cells[p] == g.cells[p]
}

/// Whatever the order in which the cells of the product arrive, once each
/// has arrived the output is complete and is the product.
pub proof fn lemma_every_cell_in_any_order(a: Grid, b: Grid, arrivals: Seq<Cell>)
    requires
        a.height <= usize::MAX,
        b.width <= usize::MAX,
        arrivals.to_multiset() == chunk_cells(a, b, 0, a.height as int).to_multiset(),
    ensures
        Gathered::empty(a.height, b.width).drain(arrivals).complete(),
        Gathered::empty(a.height, b.width).drain(arrivals).grid == product(a, b),
{
    let w = a.height as int;
    let h = b.width as int;
    let start = Gathered::empty(a.height, b.width);
    let every = chunk_cells(a, b, 0, w);
    let end = start.drain(arrivals);
    lemma_drain_shape(start, arrivals);
    assert(end.grid.cells.len() == w * h);
    assert forall|p: int| 0 <= p < w * h implies #[trigger] settled(end, product(a, b), p) by {
        assert(w > 0) by (nonlinear_arith)
            requires
                0 <= p < w * h,
                w >= 0,
        ;
        let x = p % w;
        let y = p / w;
        vstd::arithmetic::div_mod::lemma_fundamental_div_mod(p, w);
        vstd::arithmetic::div_mod::lemma_mod_bound(p, w);
        assert(0 <= y < h) by (nonlinear_arith)
            requires
                0 <= p < w * h,
                p == w * y + x,
                0 <= x < w,
        ;
        assert(y * w + x == p) by (nonlinear_arith)
            requires
                p == w * y + x,
        ;
        let v = product_at(a, b, x, y) as i32;
        // the message for (x, y) is among those of the worker with every column
        let q = x * h + y;
        lemma_index_of(h, w, y, x);
        assert(0 <= q < w * h) by (nonlinear_arith)
            requires
                0 <= q < h * w,
        ;
        assert(every[q] == cell_of(a, b, x, y));
        assert(every.contains(every[q]));
        lemma_shared_member(every, arrivals, every[q]);
        let k = choose|k: int| 0 <= k < arrivals.len() && arrivals[k] == every[q];
        assert(lands_on(start, arrivals[k], p));
        assert(delivered_to(start, arrivals, p));
        // every message that lands there carries the product's cell
        assert forall|k2: int|
            0 <= k2 < arrivals.len() && lands_on(start, #[trigger] arrivals[k2], p)
            implies arrivals[k2].value == v by {
            assert(arrivals.contains(arrivals[k2]));
            lemma_shared_member(arrivals, every, arrivals[k2]);
            let q2 = choose|q2: int| 0 <= q2 < every.len() && every[q2] == arrivals[k2];
            lemma_every_cell_message(a, b, q2);
            lemma_index_of_injective(w, h, q2 / h, q2 % h, x, y);
        }
        assert(agree_on(start, arrivals, p, v));
        lemma_drain_at(start, arrivals, p, v);
    }
    assert forall|p: int| 0 <= p < end.filled.len() implies #[trigger] end.filled[p] by {
        assert(settled(end, product(a, b), p));
    }
    assert forall|p: int| 0 <= p < w * h implies #[trigger] end.grid.cells[p] == product(
        a,
        b,
    ).cells[p] by {
        assert(settled(end, product(a, b), p));
    }
    assert(end.grid.cells =~= product(a, b).cells);
}

/// The workers may deliver in any order. Whatever the order in which the
/// messages of all the workers arrive, once each has arrived the output
/// is complete and is the product.
pub proof fn lemma_any_arrival_order_gives_product(
    a: Grid,
    b: Grid,
    workers: nat,
    arrivals: Seq<Cell>,
)
    requires
        a.height <= usize::MAX,
        b.width <= usize::MAX,
        1 <= workers,
        arrivals.to_multiset() == scheduled(a, b, workers).to_multiset(),
    ensures
        Gathered::empty(a.height, b.width).drain(arrivals).complete(),
        Gathered::empty(a.height, b.width).drain(arrivals).grid == product(a, b),
{
    lemma_scheduled_is_every_cell(a, b, workers);
    lemma_every_cell_in_any_order(a, b, arrivals);
}

impl Matrix {
    /// The product of `self` and `m`, computed as the workers of a
    /// parallel multiplication compute it: the output's columns are split
    /// into one chunk per worker, each chunk is computed by itself from
    /// the two operands, and a collector that alone owns the output
    /// writes the delivered cells. The chunks are run one after the other
    /// on the calling thread.
    ///
    /// With at least one worker allowed the result is that of [`Matrix::mul`].
    /// With none it is `WorkerFailure`, unless the output has no cell.
    pub fn mul_mt(self, m: Matrix, max_workers: usize) -> (r: Result<Matrix, MatrixError>)
        ensures
            outcome(r) == mul_mt_spec(self@, m@, max_workers as nat),
    {
        if self.width() != m.height() {
            return Err(MatrixError::Dimension);
        }
        let width: usize = self.height();
        let height: usize = m.width();
        let mut collector = match Collector::new(width, height) {
            Ok(collector) => collector,
            Err(e) => {
                return Err(e);
            },
        };
        let workers: usize = worker_count(width, max_workers);
        let ghost start = Gathered::empty(width as nat, height as nat);
        let ghost mut done: int = 0;
        let mut index: usize = 0;
        assert(chunk_cells(self@, m@, 0, 0) =~= Seq::<Cell>::empty()) by {
            assert((0 - 0) * (height as int) == 0) by (nonlinear_arith);
        }
        while index < workers
            invariant
                self@.wf(),
                m@.wf(),
                self@.width == m@.height,
                width == self@.height,
                height == m@.width,
                width * height <= usize::MAX,
                workers == worker_count_spec(width as nat, max_workers as nat),
                start == Gathered::empty(width as nat, height as nat),
                index <= workers,
                index < workers ==> done == chunk_start(width as nat, workers as nat, index as nat),
                index == workers && workers >= 1 ==> done == width,
                workers == 0 ==> done == 0,
                0 <= done <= width,
                columns_fit(self@, m@, 0, done),
                collector@ == start.drain(chunk_cells(self@, m@, 0, done)),
            decreases workers - index,
        {
            proof {
                lemma_chunks_tile(width as nat, workers as nat, index as nat);
            }
            let (from, to) = chunk_bounds(width, workers, index).unwrap();
            proof {
                assert((to - from) * height <= width * height) by (nonlinear_arith)
                    requires
                        0 <= to - from <= width,
                        0 <= height,
                ;
            }
            let cells = match compute_chunk(&self, &m, from, to) {
                Ok(cells) => cells,
                Err(e) => {
                    assert(!columns_fit(self@, m@, 0, width as int));
                    return Err(e);
                },
            };
            let _ = collector.deliver_all(&cells);
            proof {
                lemma_chunk_cells_join(self@, m@, 0, from as int, to as int);
                lemma_drain_join(
                    start,
                    chunk_cells(self@, m@, 0, from as int),
                    chunk_cells(self@, m@, from as int, to as int),
                );
                done = to as int;
            }
            index += 1;
        }
        proof {
            if workers >= 1 {
                lemma_every_cell_in_any_order(self@, m@, chunk_cells(self@, m@, 0, width as int));
            } else {
                assert(start.drain(chunk_cells(self@, m@, 0, 0)) == start);
                if width * height > 0 {
                    assert(!start.filled[0]);
                } else {
                    assert(width == 0 || height == 0) by (nonlinear_arith)
                        requires
                            width * height == 0,
                    ;
                    assert(product_fits(self@, m@));
                    assert(start.grid.cells =~= product(self@, m@).cells);
                    assert(start.complete());
                }
            }
        }
        collector.finish()
    }
}

} // verus!
