use vstd::prelude::*;
use crate::error::MatrixError;
use crate::matrix::{lemma_index_of, lemma_index_of_injective, outcome, Grid, Matrix};
use crate::worker::Cell;

verus! {

/// What the orchestrator holds while it gathers the workers' messages: the
/// output as written so far, and for each of its cells, in row-major
/// order, whether a message for it has arrived.
pub struct Gathered {
    pub grid: Grid,
    pub filled: Seq<bool>,
}

impl Gathered {
    /// The output is well formed and there is one mark per cell.
    pub open spec fn wf(self) -> bool {
        self.grid.wf() && self.filled.len() == self.grid.cells.len()
    }

    /// The state before any message: an output of zeros, no cell marked.
    pub open spec fn empty(width: nat, height: nat) -> Gathered {
        Gathered {
            grid: Grid::zeros(width, height),
            filled: Seq::new(width * height, |p: int| false),
        }
    }

    /// The message names a cell of the output.
    pub open spec fn accepts(self, cell: Cell) -> bool {
        self.grid.contains(cell.x as int, cell.y as int)
    }

    /// The state after one message: its element is written to its cell and
    /// the cell is marked. A message for a cell outside the output changes
    /// nothing.
    pub open spec fn accept(self, cell: Cell) -> Gathered {
        if self.accepts(cell) {
            Gathered {
                grid: self.grid.put(cell.x as int, cell.y as int, cell.value),
                filled: self.filled.update(self.grid.index_of(cell.x as int, cell.y as int), true),
            }
        } else {
            self
        }
    }

    /// The state after the messages `cells`, taken in their order.
    pub open spec fn drain(self, cells: Seq<Cell>) -> Gathered
        decreases cells.len(),
    {
        if cells.len() == 0 {
            self
        } else {
            self.drain(cells.drop_last()).accept(cells.last())
        }
    }

    /// A message has arrived for every cell of the output.
    pub open spec fn complete(self) -> bool {
        forall|p: int| 0 <= p < self.filled.len() ==> self.filled[p]
    }
}

/// A message keeps the output's shape.
pub proof fn lemma_accept_shape(s: Gathered, cell: Cell)
    requires
        s.wf(),
    ensures
        s.accept(cell).wf(),
        s.accept(cell).grid.width == s.grid.width,
        s.accept(cell).grid.height == s.grid.height,
{
    if s.accepts(cell) {
        lemma_index_of(
            s.grid.width as int,
            s.grid.height as int,
            cell.x as int,
            cell.y as int,
        );
    }
}

/// Messages keep the output's shape.
pub proof fn lemma_drain_shape(s: Gathered, cells: Seq<Cell>)
    requires
        s.wf(),
    ensures
        s.drain(cells).wf(),
        s.drain(cells).grid.width == s.grid.width,
        s.drain(cells).grid.height == s.grid.height,
    decreases cells.len(),
{
    if cells.len() > 0 {
        lemma_drain_shape(s, cells.drop_last());
        lemma_accept_shape(s.drain(cells.drop_last()), cells.last());
    }
}

/// Taking one run of messages and then another is taking the two runs as
/// one.
pub proof fn lemma_drain_join(s: Gathered, first: Seq<Cell>, second: Seq<Cell>)
    ensures
        s.drain(first + second) == s.drain(first).drain(second),
    decreases second.len(),
{
    if second.len() == 0 {
        assert(first + second =~= first);
    } else {
        assert((first + second).drop_last() =~= first + second.drop_last());
        assert((first + second).last() == second.last());
        lemma_drain_join(s, first, second.drop_last());
    }
}

/// The orchestrator's side of a parallel multiplication: the only owner
/// and the only writer of the output matrix. It takes the workers'
/// messages one at a time, in whatever order they arrive, and hands the
/// output over once every cell has been delivered.
pub struct Collector {
    out: Matrix,
    filled: Vec<bool>,
}

impl View for Collector {
    type V = Gathered;

    closed spec fn view(&self) -> Gathered {
        Gathered { grid: self.out@, filled: self.filled@ }
    }
}

impl Collector {
    #[verifier::type_invariant]
    spec fn inv(&self) -> bool {
        self.out@.wf() && self.filled@.len() == self.out@.cells.len()
    }

    /// An output of the given shape, filled with zeros, with no cell
    /// delivered yet; or `Construction` when `width * height` exceeds
    /// `usize::MAX`.
    pub fn new(width: usize, height: usize) -> (r: Result<Collector, MatrixError>)
        ensures
            gathered(r) == if width * height <= usize::MAX {
                Ok::<Gathered, MatrixError>(Gathered::empty(width as nat, height as nat))
            } else {
                Err::<Gathered, MatrixError>(MatrixError::Construction)
            },
    {
        match Matrix::zeros(width, height) {
            Ok(out) => {
                let filled: Vec<bool> = vec![false; width * height];
                assert(filled@ =~= Gathered::empty(width as nat, height as nat).filled);
                Ok(Collector { out, filled })
            },
            Err(e) => Err(e),
        }
    }

    /// Takes one message: writes its element to its cell and marks the cell
    /// as delivered. A message for a cell outside the output is refused
    /// with `Bounds` and changes nothing.
    pub fn deliver(&mut self, cell: Cell) -> (r: Result<(), MatrixError>)
        ensures
            old(self)@.wf(),
            final(self)@.wf(),
            final(self)@ == old(self)@.accept(cell),
            r == if old(self)@.accepts(cell) {
                Ok::<(), MatrixError>(())
            } else {
                Err::<(), MatrixError>(MatrixError::Bounds)
            },
    {
        proof {
            use_type_invariant(&*self);
        }
        if cell.x >= self.out.width() || cell.y >= self.out.height() {
            return Err(MatrixError::Bounds);
        }
        let p: usize = self.out.position(cell.x, cell.y);
        let _ = self.out.set(cell.x, cell.y, cell.value);
        self.filled[p] = true;
        Ok(())
    }

    /// Takes a run of messages in their order. The result is `Bounds` when
    /// one of them names a cell outside the output; the others are taken
    /// all the same.
    pub fn deliver_all(&mut self, cells: &Vec<Cell>) -> (r: Result<(), MatrixError>)
        ensures
            old(self)@.wf(),
            final(self)@.wf(),
            final(self)@ == old(self)@.drain(cells@),
            r == if forall|k: int|
                0 <= k < cells@.len() ==> old(self)@.accepts(#[trigger] cells@[k]) {
                Ok::<(), MatrixError>(())
            } else {
                Err::<(), MatrixError>(MatrixError::Bounds)
            },
    {
        proof {
            use_type_invariant(&*self);
        }
        let mut refused: bool = false;
        let n: usize = cells.len();
        let mut k: usize = 0;
        while k < n
            invariant
                n == cells@.len(),
                k <= n,
                old(self)@.wf(),
                self@ == old(self)@.drain(cells@.take(k as int)),
                refused <==> exists|q: int| 0 <= q < k && !old(self)@.accepts(#[trigger] cells@[q]),
            decreases n - k,
        {
            proof {
                lemma_drain_shape(old(self)@, cells@.take(k as int));
                assert(cells@.take(k + 1).drop_last() =~= cells@.take(k as int));
                assert(cells@.take(k + 1).last() == cells@[k as int]);
            }
            let one = self.deliver(cells[k]);
            if one.is_err() {
                refused = true;
            }
            k += 1;
        }
        proof {
            assert(cells@.take(n as int) =~= cells@);
            lemma_drain_shape(old(self)@, cells@);
        }
        if refused {
            Err(MatrixError::Bounds)
        } else {
            Ok(())
        }
    }

    /// Ends the gathering, once the workers are done and no message is
    /// left: the output, if every cell of it was delivered, and
    /// `WorkerFailure` otherwise.
    pub fn finish(self) -> (r: Result<Matrix, MatrixError>)
        ensures
            self@.wf(),
            outcome(r) == if self@.complete() {
                Ok::<Grid, MatrixError>(self@.grid)
            } else {
                Err::<Grid, MatrixError>(MatrixError::WorkerFailure)
            },
    {
        proof {
            use_type_invariant(&self);
        }
        let n: usize = self.filled.len();
        let mut p: usize = 0;
        while p < n
            invariant
                n == self.filled@.len(),
                p <= n,
                self@.wf(),
                forall|q: int| 0 <= q < p ==> self.filled@[q],
            decreases n - p,
        {
            if !self.filled[p] {
                assert(!self@.filled[p as int]);
                return Err(MatrixError::WorkerFailure);
            }
            p += 1;
        }
        Ok(self.out)
    }
}

/// The mathematical content of a result that holds a collector.
pub open spec fn gathered(r: Result<Collector, MatrixError>) -> Result<Gathered, MatrixError> {
    match r {
        Ok(c) => Ok(c@),
        Err(e) => Err(e),
    }
}

/// The message names the cell at place `p` of the row-major order.
pub open spec fn lands_on(s: Gathered, cell: Cell, p: int) -> bool {
    s.accepts(cell) && s.grid.index_of(cell.x as int, cell.y as int) == p
}

/// One of the messages names the cell at place `p`.
pub open spec fn delivered_to(s: Gathered, cells: Seq<Cell>, p: int) -> bool {
    exists|k: int| 0 <= k < cells.len() && lands_on(s, #[trigger] cells[k], p)
}

/// Every message that names the cell at place `p` carries the element `v`.
pub open spec fn agree_on(s: Gathered, cells: Seq<Cell>, p: int, v: i32) -> bool {
    forall|k: int|
        0 <= k < cells.len() && lands_on(s, #[trigger] cells[k], p) ==> cells[k].value == v
}

/// What a run of messages does to one cell. The cell is marked when it
/// was marked before or a message names it. It keeps its element when no
/// message names it, and holds `v` when a message names it and all that
/// do carry `v`.
pub proof fn lemma_drain_at(s: Gathered, cells: Seq<Cell>, p: int, v: i32)
    requires
        s.wf(),
        0 <= p < s.filled.len(),
    ensures
        s.drain(cells).filled[p] <==> s.filled[p] || delivered_to(s, cells, p),
        !delivered_to(s, cells, p) ==> s.drain(cells).grid.cells[p] == s.grid.cells[p],
        delivered_to(s, cells, p) && agree_on(s, cells, p, v) ==> s.drain(cells).grid.cells[p] == v,
    decreases cells.len(),
{
    if cells.len() > 0 {
        let front = cells.drop_last();
        let last = cells.last();
        let before = s.drain(front);
        lemma_drain_shape(s, front);
        lemma_drain_at(s, front, p, v);
        assert(forall|k: int| 0 <= k < front.len() ==> front[k] == cells[k]);
        if s.accepts(last) {
            lemma_index_of(
                s.grid.width as int,
                s.grid.height as int,
                last.x as int,
                last.y as int,
            );
        }
        if lands_on(s, last, p) {
            assert(lands_on(s, cells[cells.len() - 1], p));
            assert(delivered_to(s, cells, p));
        } else {
            if delivered_to(s, cells, p) {
                let k = choose|k: int| 0 <= k < cells.len() && lands_on(s, #[trigger] cells[k], p);
                assert(k < front.len());
                assert(lands_on(s, front[k], p));
                assert(delivered_to(s, front, p));
            }
            if delivered_to(s, front, p) {
                let k = choose|k: int| 0 <= k < front.len() && lands_on(s, #[trigger] front[k], p);
                assert(lands_on(s, cells[k], p));
            }
        }
        if agree_on(s, cells, p, v) {
            assert forall|k: int|
                0 <= k < front.len() && lands_on(s, #[trigger] front[k], p)
                implies front[k].value == v by {
                assert(lands_on(s, cells[k], p));
            }
            assert(agree_on(s, front, p, v));
        }
    }
}

/// A cell for which no message has arrived is noticed: the output is not
/// complete, so that ending the gathering then is a `WorkerFailure`.
pub proof fn lemma_missing_cell_is_noticed(width: nat, height: nat, arrivals: Seq<Cell>, p: int)
    requires
        0 <= p < width * height,
        !delivered_to(Gathered::empty(width, height), arrivals, p),
    ensures
        !Gathered::empty(width, height).drain(arrivals).complete(),
{
    let start = Gathered::empty(width, height);
    lemma_drain_shape(start, arrivals);
    lemma_drain_at(start, arrivals, p, 0);
    assert(!start.drain(arrivals).filled[p]);
}

/// Two states agree on the cell at place `p`: on its element and its mark.
pub open spec fn point_equal(one: Gathered, two: Gathered, p: int) -> bool {
    one.filled[p] == two.filled[p] && one.grid.cells[p] == two.grid.cells[p]
}

/// The order in which the messages arrive is irrelevant. When each cell
/// is named with one element only, two runs of the same messages, in any
/// two orders, leave the same output and the same marks.
pub proof fn lemma_order_is_irrelevant(s: Gathered, first: Seq<Cell>, second: Seq<Cell>)
    requires
        s.wf(),
        first.to_multiset() == second.to_multiset(),
        forall|k1: int, k2: int|
            0 <= k1 < first.len() && 0 <= k2 < first.len() && (#[trigger] first[k1]).x == (
            #[trigger] first[k2]).x && first[k1].y == first[k2].y ==> first[k1].value
                == first[k2].value,
    ensures
        s.drain(first) == s.drain(second),
{
    let one = s.drain(first);
    let two = s.drain(second);
    lemma_drain_shape(s, first);
    lemma_drain_shape(s, second);
    assert forall|p: int| 0 <= p < s.filled.len() implies #[trigger] point_equal(one, two, p) by {
        if delivered_to(s, first, p) {
            let k = choose|k: int| 0 <= k < first.len() && lands_on(s, #[trigger] first[k], p);
            let v = first[k].value;
            assert(first.contains(first[k]));
            lemma_shared_member(first, second, first[k]);
            let k2 = choose|k2: int| 0 <= k2 < second.len() && second[k2] == first[k];
            assert(lands_on(s, second[k2], p));
            assert(delivered_to(s, second, p));
            assert forall|q: int|
                0 <= q < first.len() && lands_on(s, #[trigger] first[q], p)
                implies first[q].value == v by {
                lemma_same_place(s, first[q], first[k], p);
            }
            assert forall|q: int|
                0 <= q < second.len() && lands_on(s, #[trigger] second[q], p)
                implies second[q].value == v by {
                assert(second.contains(second[q]));
                lemma_shared_member(second, first, second[q]);
                let q1 = choose|q1: int| 0 <= q1 < first.len() && first[q1] == second[q];
                lemma_same_place(s, first[q1], first[k], p);
            }
            lemma_drain_at(s, first, p, v);
            lemma_drain_at(s, second, p, v);
        } else {
            if delivered_to(s, second, p) {
                let k2 = choose|k2: int|
                    0 <= k2 < second.len() && lands_on(s, #[trigger] second[k2], p);
                assert(second.contains(second[k2]));
                lemma_shared_member(second, first, second[k2]);
                let k = choose|k: int| 0 <= k < first.len() && first[k] == second[k2];
                assert(lands_on(s, first[k], p));
            }
            lemma_drain_at(s, first, p, 0);
            lemma_drain_at(s, second, p, 0);
        }
    }
    assert(one.grid.cells.len() == s.filled.len());
    assert(two.grid.cells.len() == s.filled.len());
    assert forall|p: int| 0 <= p < s.filled.len() implies #[trigger] one.filled[p]
        == two.filled[p] by {
        assert(point_equal(one, two, p));
    }
    assert forall|p: int| 0 <= p < s.filled.len() implies #[trigger] one.grid.cells[p]
        == two.grid.cells[p] by {
        assert(point_equal(one, two, p));
    }
    assert(one.filled =~= two.filled);
    assert(one.grid.cells =~= two.grid.cells);
}

/// A message in one run is in every run of the same messages.
pub proof fn lemma_shared_member(first: Seq<Cell>, second: Seq<Cell>, cell: Cell)
    requires
        first.to_multiset() == second.to_multiset(),
        first.contains(cell),
    ensures
        second.contains(cell),
{
    first.to_multiset_ensures();
    second.to_multiset_ensures();
    assert(first.to_multiset().count(cell) > 0);
    assert(second.to_multiset().count(cell) > 0);
}

/// Two messages that name the cell at one place name the same coordinate.
pub proof fn lemma_same_place(s: Gathered, c1: Cell, c2: Cell, p: int)
    requires
        lands_on(s, c1, p),
        lands_on(s, c2, p),
    ensures
        c1.x == c2.x,
        c1.y == c2.y,
{
    lemma_index_of_injective(
        s.grid.width as int,
        s.grid.height as int,
        c1.x as int,
        c1.y as int,
        c2.x as int,
        c2.y as int,
    );
}

} // verus!
