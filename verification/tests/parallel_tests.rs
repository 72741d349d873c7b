use matmul::collect::Collector;
use matmul::error::MatrixError;
use matmul::matrix::Matrix;
use matmul::partition::{chunk_bounds, worker_count};
use matmul::worker::{compute_chunk, Cell};

fn wide_left() -> Matrix {
    // 4 wide, 5 high
    let cells: Vec<i32> = (0..20).map(|v| v * 3 - 25).collect();
    Matrix::new(4, 5, cells).unwrap()
}

fn wide_right() -> Matrix {
    // 3 wide, 4 high
    let cells: Vec<i32> = (0..12).map(|v| 7 - v * 2).collect();
    Matrix::new(3, 4, cells).unwrap()
}

#[test]
fn worker_count_is_the_smaller_of_columns_and_bound() {
    assert_eq!(worker_count(3, 12), 3);
    assert_eq!(worker_count(12, 3), 3);
    assert_eq!(worker_count(12, 12), 12);
    assert_eq!(worker_count(4000, 12), 12);
    assert_eq!(worker_count(0, 12), 0);
    assert_eq!(worker_count(5, 0), 0);
}

#[test]
fn narrow_output_gets_one_worker_per_column_and_no_empty_chunk() {
    let workers = worker_count(3, 12);
    assert_eq!(workers, 3);
    assert_eq!(chunk_bounds(3, workers, 0), Some((0, 1)));
    assert_eq!(chunk_bounds(3, workers, 1), Some((1, 2)));
    assert_eq!(chunk_bounds(3, workers, 2), Some((2, 3)));
    assert_eq!(chunk_bounds(3, workers, 3), None);
}

#[test]
fn last_chunk_takes_the_remainder() {
    assert_eq!(chunk_bounds(10, 3, 0), Some((0, 3)));
    assert_eq!(chunk_bounds(10, 3, 1), Some((3, 6)));
    assert_eq!(chunk_bounds(10, 3, 2), Some((6, 10)));
    assert_eq!(chunk_bounds(4000, 12, 0), Some((0, 333)));
    assert_eq!(chunk_bounds(4000, 12, 10), Some((3330, 3663)));
    assert_eq!(chunk_bounds(4000, 12, 11), Some((3663, 4000)));
    assert_eq!(chunk_bounds(23, 12, 11), Some((11, 23)));
}

#[test]
fn chunks_tile_the_columns() {
    for units in 0..40usize {
        for bound in 1..15usize {
            let workers = worker_count(units, bound);
            let mut next = 0;
            for index in 0..workers {
                let (from, to) = chunk_bounds(units, workers, index).unwrap();
                assert_eq!(from, next);
                assert!(from < to);
                next = to;
            }
            if workers > 0 {
                assert_eq!(next, units);
            }
            assert_eq!(chunk_bounds(units, workers, workers), None);
        }
    }
}

#[test]
fn chunk_bounds_without_workers_is_none() {
    assert_eq!(chunk_bounds(10, 0, 0), None);
    assert_eq!(chunk_bounds(10, 3, 7), None);
}

#[test]
fn compute_chunk_emits_column_by_column() {
    let a = Matrix::new(3, 2, vec![1, 2, 3, 4, 5, 6]).unwrap();
    let b = Matrix::new(2, 3, vec![7, 8, 9, 10, 11, 12]).unwrap();
    assert_eq!(
        compute_chunk(&a, &b, 0, 2),
        Ok(vec![
            Cell { x: 0, y: 0, value: 58 },
            Cell { x: 0, y: 1, value: 64 },
            Cell { x: 1, y: 0, value: 139 },
            Cell { x: 1, y: 1, value: 154 },
        ])
    );
    assert_eq!(
        compute_chunk(&a, &b, 1, 2),
        Ok(vec![Cell { x: 1, y: 0, value: 139 }, Cell { x: 1, y: 1, value: 154 }])
    );
    assert_eq!(compute_chunk(&a, &b, 1, 1), Ok(vec![]));
}

#[test]
fn compute_chunk_refuses_what_it_cannot_compute() {
    let a = Matrix::new(3, 2, vec![1, 2, 3, 4, 5, 6]).unwrap();
    let b = Matrix::new(2, 3, vec![7, 8, 9, 10, 11, 12]).unwrap();
    assert_eq!(compute_chunk(&a, &a, 0, 1), Err(MatrixError::Dimension));
    assert_eq!(compute_chunk(&a, &b, 2, 1), Err(MatrixError::Bounds));
    assert_eq!(compute_chunk(&a, &b, 0, 3), Err(MatrixError::Bounds));
    let big = Matrix::new(1, 2, vec![1, i32::MAX]).unwrap();
    let two = Matrix::new(1, 1, vec![2]).unwrap();
    assert_eq!(compute_chunk(&big, &two, 0, 1), Ok(vec![Cell { x: 0, y: 0, value: 2 }]));
    assert_eq!(compute_chunk(&big, &two, 1, 2), Err(MatrixError::Overflow));
    assert_eq!(compute_chunk(&big, &two, 0, 2), Err(MatrixError::Overflow));
    let tall = Matrix::new(0, usize::MAX, vec![]).unwrap();
    let long = Matrix::new(usize::MAX, 0, vec![]).unwrap();
    assert_eq!(compute_chunk(&tall, &long, 0, 2), Err(MatrixError::Construction));
}

#[test]
fn collector_hands_over_only_a_complete_output() {
    let mut collector = Collector::new(2, 2).unwrap();
    assert_eq!(collector.deliver(Cell { x: 0, y: 0, value: 1 }), Ok(()));
    assert_eq!(collector.deliver(Cell { x: 1, y: 0, value: 2 }), Ok(()));
    assert_eq!(collector.deliver(Cell { x: 0, y: 1, value: 3 }), Ok(()));
    assert_eq!(collector.finish(), Err(MatrixError::WorkerFailure));

    let mut collector = Collector::new(2, 2).unwrap();
    for (x, y, value) in [(1, 1, 4), (0, 0, 1), (0, 1, 3), (1, 0, 2)] {
        assert_eq!(collector.deliver(Cell { x, y, value }), Ok(()));
    }
    assert_eq!(collector.finish(), Ok(Matrix::new(2, 2, vec![1, 2, 3, 4]).unwrap()));
}

#[test]
fn collector_without_cells_is_complete_at_once() {
    assert_eq!(Collector::new(0, 3).unwrap().finish(), Ok(Matrix::new(0, 3, vec![]).unwrap()));
    assert_eq!(Collector::new(3, 0).unwrap().finish(), Ok(Matrix::new(3, 0, vec![]).unwrap()));
    assert_eq!(Collector::new(1, 1).unwrap().finish(), Err(MatrixError::WorkerFailure));
}

#[test]
fn collector_refuses_a_shape_that_cannot_be_counted() {
    assert!(matches!(Collector::new(usize::MAX, 2), Err(MatrixError::Construction)));
}

#[test]
fn collector_refuses_a_cell_outside_and_keeps_its_state() {
    let mut collector = Collector::new(2, 1).unwrap();
    assert_eq!(collector.deliver(Cell { x: 0, y: 0, value: 5 }), Ok(()));
    assert_eq!(collector.deliver(Cell { x: 2, y: 0, value: 9 }), Err(MatrixError::Bounds));
    assert_eq!(collector.deliver(Cell { x: 0, y: 1, value: 9 }), Err(MatrixError::Bounds));
    assert_eq!(collector.deliver(Cell { x: 1, y: 0, value: 6 }), Ok(()));
    assert_eq!(collector.finish(), Ok(Matrix::new(2, 1, vec![5, 6]).unwrap()));
}

#[test]
fn deliver_all_takes_the_cells_inside_and_reports_one_outside() {
    let mut collector = Collector::new(2, 1).unwrap();
    let cells = vec![
        Cell { x: 1, y: 0, value: 6 },
        Cell { x: 7, y: 7, value: 0 },
        Cell { x: 0, y: 0, value: 5 },
    ];
    assert_eq!(collector.deliver_all(&cells), Err(MatrixError::Bounds));
    assert_eq!(collector.finish(), Ok(Matrix::new(2, 1, vec![5, 6]).unwrap()));

    let mut collector = Collector::new(2, 1).unwrap();
    assert_eq!(collector.deliver_all(&vec![]), Ok(()));
    assert_eq!(
        collector.deliver_all(&vec![Cell { x: 1, y: 0, value: 6 }, Cell { x: 0, y: 0, value: 5 }]),
        Ok(())
    );
    assert_eq!(collector.finish(), Ok(Matrix::new(2, 1, vec![5, 6]).unwrap()));
}

#[test]
fn the_last_delivery_to_a_cell_stays() {
    let mut collector = Collector::new(1, 1).unwrap();
    assert_eq!(collector.deliver(Cell { x: 0, y: 0, value: 1 }), Ok(()));
    assert_eq!(collector.deliver(Cell { x: 0, y: 0, value: 2 }), Ok(()));
    assert_eq!(collector.finish(), Ok(Matrix::new(1, 1, vec![2]).unwrap()));
}

#[test]
fn any_arrival_order_of_the_workers_cells_gives_the_product() {
    let a = wide_left();
    let b = wide_right();
    let expected = a.clone().mul(b.clone()).unwrap();
    let workers = worker_count(a.height(), 3);
    let mut cells: Vec<Cell> = Vec::new();
    for index in 0..workers {
        let (from, to) = chunk_bounds(a.height(), workers, index).unwrap();
        cells.extend(compute_chunk(&a, &b, from, to).unwrap());
    }
    assert_eq!(cells.len(), 15);
    // in the workers' order, backwards, and interleaved by a stride
    let mut orders: Vec<Vec<Cell>> = vec![cells.clone()];
    orders.push(cells.iter().rev().copied().collect());
    orders.push((0..15).map(|k| cells[(k * 7) % 15]).collect());
    orders.push((0..15).map(|k| cells[(k * 4 + 3) % 15]).collect());
    for order in orders {
        let mut collector = Collector::new(a.height(), b.width()).unwrap();
        for cell in order {
            assert_eq!(collector.deliver(cell), Ok(()));
        }
        assert_eq!(collector.finish(), Ok(expected.clone()));
    }
}

#[test]
fn a_worker_that_delivers_nothing_is_a_failure() {
    let a = wide_left();
    let b = wide_right();
    let workers = worker_count(a.height(), 3);
    let mut collector = Collector::new(a.height(), b.width()).unwrap();
    for index in 0..workers {
        if index == 1 {
            continue;
        }
        let (from, to) = chunk_bounds(a.height(), workers, index).unwrap();
        let cells = compute_chunk(&a, &b, from, to).unwrap();
        assert_eq!(collector.deliver_all(&cells), Ok(()));
    }
    assert_eq!(collector.finish(), Err(MatrixError::WorkerFailure));
}

#[test]
fn parallel_equals_sequential_for_every_bound() {
    let expected = wide_left().mul(wide_right()).unwrap();
    for bound in 1..=8usize {
        assert_eq!(wide_left().mul_mt(wide_right(), bound), Ok(expected.clone()));
    }
    assert_eq!(wide_left().mul_mt(wide_right(), usize::MAX), Ok(expected));
}

#[test]
fn one_worker_and_twelve_workers_give_identical_matrices() {
    let cells_a: Vec<i32> = (0..30 * 17).map(|v| (v * 37 % 198) - 99).collect();
    let cells_b: Vec<i32> = (0..23 * 30).map(|v| (v * 53 % 198) - 99).collect();
    let a = Matrix::new(30, 17, cells_a).unwrap();
    let b = Matrix::new(23, 30, cells_b).unwrap();
    let one = a.clone().mul_mt(b.clone(), 1).unwrap();
    let twelve = a.clone().mul_mt(b.clone(), 12).unwrap();
    assert_eq!(one, twelve);
    assert_eq!(one, a.mul(b).unwrap());
    assert_eq!(one.width(), 17);
    assert_eq!(one.height(), 23);
}

#[test]
fn without_a_worker_the_cells_are_missing() {
    assert_eq!(wide_left().mul_mt(wide_right(), 0), Err(MatrixError::WorkerFailure));
}
