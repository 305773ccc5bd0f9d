use pattern_grid::builder::build_training_set;
use pattern_grid::cell::Cell;
use pattern_grid::grid::Grid;
use pattern_grid::kernel::{Kernel, WEIGHT_ONE};
use pattern_grid::memory::{PatternMemory, TrainingPair};
use pattern_grid::engine::Simulation;

fn small_grid(w: u8, h: u8) -> Grid {
    let mut cols = Vec::new();
    for x in 0..w {
        let mut col = Vec::new();
        for y in 0..h {
            col.push(Cell::new(x, y, x.wrapping_mul(y)));
        }
        cols.push(col);
    }
    Grid::from_cells(cols)
}

fn single_pattern_memory(target: Cell) -> PatternMemory {
    let mut memory = PatternMemory::new();
    memory.map(TrainingPair::new(
        vec![0u16; 24],
        vec![target.r as u16, target.g as u16, target.b as u16],
    ));
    memory
}

fn wide_kernel() -> Kernel {
    Kernel { d_near: 2000, w_near: WEIGHT_ONE, rho: 0 }
}

#[test]
fn sampling_coverage_4x2() {
    // 4 x 2 image, 8 pixels, sample count 4, so stride 2. The column-major
    // stripe keeps linear indices 0, 2, 4, 6; the row-major stripe keeps
    // the even columns, linear indices 0, 1, 4, 5. The union has 6
    // coordinates: strictly more than either single stride alone.
    let img = small_grid(4, 2);
    let pairs = build_training_set(&img, 4);
    assert_eq!(pairs.len(), 6);
    // First kept coordinate is (0, 0): its target is that pixel's color.
    assert_eq!(pairs[0].target, vec![0u16, 0, 0]);
    assert_eq!(pairs[0].context.len(), 24);
}

#[test]
fn sampling_selects_all_with_stride_one() {
    let img = small_grid(2, 2);
    let pairs = build_training_set(&img, 4);
    assert_eq!(pairs.len(), 4);
    // Scan order is column-major: (0,0), (0,1), (1,0), (1,1).
    assert_eq!(pairs[1].target, vec![0u16, 1, 0]);
    assert_eq!(pairs[3].target, vec![1u16, 1, 1]);
}

#[test]
fn tick_cadence_single_advance() {
    let memory = single_pattern_memory(Cell::new(1, 2, 3));
    let retriever = memory.evaluate(wide_kernel());
    let mut sim = Simulation::new(small_grid(2, 2), 16_666);
    // 100000 / 16666 = 6 whole timesteps.
    assert_eq!(sim.advance(100_000, &retriever), 6);
    assert_eq!(sim.advance(0, &retriever), 0);
}

#[test]
fn tick_cadence_accumulates_across_calls() {
    let memory = single_pattern_memory(Cell::new(1, 2, 3));
    let retriever = memory.evaluate(wide_kernel());
    let mut sim = Simulation::new(small_grid(2, 2), 16_666);
    assert_eq!(sim.advance(10_000, &retriever), 0);
    // 20000 accumulated: one step due, 3334 left over.
    assert_eq!(sim.advance(10_000, &retriever), 1);
    // 16666 more brings the leftover to 20000: one more step.
    assert_eq!(sim.advance(16_666, &retriever), 1);
}

#[test]
fn buffer_roles_exchange_once_per_step() {
    let memory = single_pattern_memory(Cell::new(1, 2, 3));
    let retriever = memory.evaluate(wide_kernel());
    let mut sim = Simulation::new(small_grid(2, 2), 1);
    assert!(sim.first_buffer_is_current());
    sim.step(&retriever);
    assert!(!sim.first_buffer_is_current());
    sim.step(&retriever);
    assert!(sim.first_buffer_is_current());
}

#[test]
fn single_pattern_step_paints_whole_grid() {
    // Degenerate end-to-end scenario on a wrap-heavy 2x2 grid: with one
    // trained pair, one pass writes its decoded target color everywhere,
    // whatever the grid held before.
    let target = Cell::new(80, 90, 100);
    let memory = single_pattern_memory(target);
    let retriever = memory.evaluate(wide_kernel());
    let mut sim = Simulation::new(small_grid(2, 2), 1);
    sim.step(&retriever);
    let g = sim.current();
    for x in 0..2 {
        for y in 0..2 {
            assert_eq!(g.cell_at(x, y), target);
        }
    }
}

#[test]
fn single_pattern_from_trained_2x2_image() {
    // Train on a uniform 2x2 image: every context vector coincides, and
    // every retrieval returns the image's color.
    let img = Grid::from_cells(vec![vec![Cell::new(30, 60, 90); 2]; 2]);
    let pairs = build_training_set(&img, 4);
    let mut memory = PatternMemory::new();
    memory.train(pairs);
    let retriever = memory.evaluate(wide_kernel());
    let mut sim = Simulation::new(Grid::random(2, 2), 1);
    sim.step(&retriever);
    let g = sim.current();
    for x in 0..2 {
        for y in 0..2 {
            assert_eq!(g.cell_at(x, y), Cell::new(30, 60, 90));
        }
    }
}

#[test]
fn display_grid_keeps_shape() {
    let memory = single_pattern_memory(Cell::new(5, 5, 5));
    let retriever = memory.evaluate(wide_kernel());
    let mut sim = Simulation::new(small_grid(3, 3), 1);
    sim.advance(5, &retriever);
    let g = sim.current();
    assert_eq!(g.width, 3);
    assert_eq!(g.height, 3);
}
