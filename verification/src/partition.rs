use vstd::prelude::*;

verus! {

/// The customary bound on the number of workers.
pub const DEFAULT_MAX_WORKERS: usize = 12;

/// How many workers share `units` columns when at most `max_workers` may
/// run: one per column, up to the bound.
pub open spec fn worker_count_spec(units: nat, max_workers: nat) -> nat {
    if units < max_workers {
        units
    } else {
        max_workers
    }
}

/// The first column of the chunk of worker `index`: every worker before
/// it has `units / workers` columns.
pub open spec fn chunk_start(units: nat, workers: nat, index: nat) -> nat {
    index * (units / workers)
}

/// The number of columns of the chunk of worker `index`: `units / workers`,
/// and for the last worker the remainder `units % workers` besides.
pub open spec fn chunk_len(units: nat, workers: nat, index: nat) -> nat {
    if index + 1 == workers {
        units / workers + units % workers
    } else {
        units / workers
    }
}

/// The column after the last one of the chunk of worker `index`.
pub open spec fn chunk_end(units: nat, workers: nat, index: nat) -> nat {
    chunk_start(units, workers, index) + chunk_len(units, workers, index)
}

/// Column `unit` belongs to the chunk of worker `index`.
pub open spec fn in_chunk(units: nat, workers: nat, index: nat, unit: nat) -> bool {
    chunk_start(units, workers, index) <= unit < chunk_end(units, workers, index)
}

/// The chunks lie one after the other and cover the columns: the first
/// starts at column 0, each ends where the next starts, and the last ends
/// at `units`.
pub proof fn lemma_chunks_tile(units: nat, workers: nat, index: nat)
    requires
        index < workers,
    ensures
        chunk_start(units, workers, 0) == 0,
        chunk_start(units, workers, index) <= chunk_end(units, workers, index) <= units,
        index + 1 < workers ==> chunk_end(units, workers, index) == chunk_start(
            units,
            workers,
            index + 1,
        ),
        index + 1 == workers ==> chunk_end(units, workers, index) == units,
{
    let q = units / workers;
    let r = units % workers;
    vstd::arithmetic::div_mod::lemma_fundamental_div_mod(units as int, workers as int);
    assert(index * q + q == (index + 1) * q) by (nonlinear_arith);
    assert((index + 1) * q <= workers * q) by (nonlinear_arith)
        requires
            index + 1 <= workers,
            0 <= q,
    ;
    assert(0 * q == 0) by (nonlinear_arith);
}

/// With no more workers than columns, no chunk is empty.
pub proof fn lemma_chunks_nonempty(units: nat, workers: nat, index: nat)
    requires
        index < workers <= units,
    ensures
        chunk_start(units, workers, index) < chunk_end(units, workers, index),
{
    vstd::arithmetic::div_mod::lemma_fundamental_div_mod(units as int, workers as int);
    let q = units / workers;
    assert(q >= 1) by (nonlinear_arith)
        requires
            units == workers * q + units % workers,
            0 <= units % workers < workers,
            workers <= units,
            0 <= q,
    ;
}

/// The worker count never exceeds the columns, so the chunks of the
/// chosen workers are never empty.
pub proof fn lemma_chosen_workers_all_have_work(units: nat, max_workers: nat, index: nat)
    requires
        index < worker_count_spec(units, max_workers),
    ensures
        worker_count_spec(units, max_workers) <= units,
        worker_count_spec(units, max_workers) <= max_workers,
        chunk_start(units, worker_count_spec(units, max_workers), index) < chunk_end(
            units,
            worker_count_spec(units, max_workers),
            index,
        ),
{
    lemma_chunks_nonempty(units, worker_count_spec(units, max_workers), index);
}

/// Chunks of different workers share no column.
pub proof fn lemma_chunks_disjoint(units: nat, workers: nat, first: nat, second: nat, unit: nat)
    requires
        first < second < workers,
    ensures
        !(in_chunk(units, workers, first, unit) && in_chunk(units, workers, second, unit)),
{
    let q = units / workers;
    assert((first + 1) * q <= second * q) by (nonlinear_arith)
        requires
            first + 1 <= second,
            0 <= q,
    ;
    assert(first * q + q == (first + 1) * q) by (nonlinear_arith);
}

/// The worker whose chunk holds column `unit`.
pub open spec fn owner(units: nat, workers: nat, unit: nat) -> nat {
    if units / workers == 0 || unit / (units / workers) >= workers {
        (workers - 1) as nat
    } else {
        unit / (units / workers)
    }
}

/// Every column belongs to the chunk of its owner, which is one of the
/// workers.
pub proof fn lemma_owner(units: nat, workers: nat, unit: nat)
    requires
        1 <= workers,
        unit < units,
    ensures
        owner(units, workers, unit) < workers,
        in_chunk(units, workers, owner(units, workers, unit), unit),
{
    let q = units / workers;
    let last = (workers - 1) as nat;
    lemma_chunks_tile(units, workers, last);
    if q == 0 {
        assert(last * q == 0) by (nonlinear_arith)
            requires
                q == 0,
        ;
    } else {
        let t = unit / q;
        vstd::arithmetic::div_mod::lemma_fundamental_div_mod(unit as int, q as int);
        assert(t * q == q * t) by (nonlinear_arith);
        if t >= workers {
            assert(last * q <= t * q) by (nonlinear_arith)
                requires
                    last <= t,
                    0 <= q,
            ;
        } else {
            assert(t * q + q == (t + 1) * q) by (nonlinear_arith);
            if t + 1 == workers {
            } else {
            }
        }
    }
}

/// The number of workers to start for `units` columns: one per column, but
/// no more than `max_workers`.
pub fn worker_count(units: usize, max_workers: usize) -> (n: usize)
    ensures
        n == worker_count_spec(units as nat, max_workers as nat),
{
    if units < max_workers {
        units
    } else {
        max_workers
    }
}

/// The columns `start <= i < end` that worker `index` of `workers`
/// computes, or `None` when there is no such worker.
pub fn chunk_bounds(units: usize, workers: usize, index: usize) -> (r: Option<(usize, usize)>)
    ensures
        r == if index < workers {
            Some(
                (
                    chunk_start(units as nat, workers as nat, index as nat) as usize,
                    chunk_end(units as nat, workers as nat, index as nat) as usize,
                ),
            )
        } else {
            None
        },
        index < workers ==> chunk_end(units as nat, workers as nat, index as nat) <= units,
{
    if index >= workers {
        return None;
    }
    proof {
        lemma_chunks_tile(units as nat, workers as nat, index as nat);
    }
    let each: usize = units / workers;
    let start: usize = index * each;
    let end: usize = if index == workers - 1 {
        start + each + units % workers
    } else {
        start + each
    };
    Some((start, end))
}

} // verus!
