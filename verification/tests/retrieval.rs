use pattern_grid::cell::{Area, Cell};
use pattern_grid::kernel::{Kernel, WEIGHT_ONE};
use pattern_grid::memory::{
    calibrate_from_references, isqrt, sq_dist, PatternMemory, TrainingPair,
};

fn wide_kernel() -> Kernel {
    // Full weight out to distance 2000: farther than any 24-component
    // vector pair can be (at most 1249).
    Kernel { d_near: 2000, w_near: WEIGHT_ONE, rho: 0 }
}

#[test]
fn isqrt_exact() {
    assert_eq!(isqrt(0), 0);
    assert_eq!(isqrt(3), 1);
    assert_eq!(isqrt(4), 2);
    assert_eq!(isqrt(24), 4);
    assert_eq!(isqrt(25), 5);
    assert_eq!(isqrt(1_560_600), 1249);
}

#[test]
fn sq_dist_exact() {
    let a = vec![3u16, 4];
    let b = vec![0u16, 0];
    assert_eq!(sq_dist(&a, &b), 25);
    assert_eq!(isqrt(sq_dist(&a, &b)), 5);
    let c = vec![255u16; 24];
    let d = vec![0u16; 24];
    assert_eq!(sq_dist(&c, &d), 24 * 255 * 255);
}

#[test]
fn degenerate_retrieval_any_query() {
    let mut memory = PatternMemory::new();
    memory.map(TrainingPair::new(vec![0u16; 24], vec![10u16, 20, 30]));
    let retriever = memory.evaluate(Kernel { d_near: 3, w_near: WEIGHT_ONE, rho: 32768 });
    // Whatever the query, the single stored pair is the whole average.
    assert_eq!(retriever.get(&vec![255u16; 24]), Cell::new(10, 20, 30));
    assert_eq!(retriever.get(&vec![0u16; 24]), Cell::new(10, 20, 30));
    assert_eq!(retriever.get(&vec![7u16; 24]), Cell::new(10, 20, 30));
}

#[test]
fn degenerate_retrieval_with_zero_weight_kernel() {
    // A kernel that rounds every weight to zero forces the
    // nearest-pattern fallback, which is still the only pair.
    let mut memory = PatternMemory::new();
    memory.map(TrainingPair::new(vec![0u16; 24], vec![10u16, 20, 30]));
    let retriever = memory.evaluate(Kernel { d_near: 0, w_near: WEIGHT_ONE, rho: 0 });
    assert_eq!(retriever.get(&vec![255u16; 24]), Cell::new(10, 20, 30));
}

#[test]
fn equal_weights_blend_to_average() {
    let mut memory = PatternMemory::new();
    memory.map(TrainingPair::new(vec![0u16; 24], vec![100u16, 0, 0]));
    memory.map(TrainingPair::new(vec![255u16; 24], vec![200u16, 50, 0]));
    let retriever = memory.evaluate(wide_kernel());
    // Both pairs get the full weight, so the result is the plain average.
    assert_eq!(retriever.get(&vec![128u16; 24]), Cell::new(150, 25, 0));
}

#[test]
fn nearest_fallback_picks_closest() {
    // Zero-decay kernel with d_near 0: every weight at distance >= 1
    // rounds to zero, so retrieval falls back to the nearest pair.
    let mut memory = PatternMemory::new();
    memory.map(TrainingPair::new(vec![0u16; 24], vec![1u16, 1, 1]));
    memory.map(TrainingPair::new(vec![200u16; 24], vec![2u16, 2, 2]));
    let retriever = memory.evaluate(Kernel { d_near: 0, w_near: WEIGHT_ONE, rho: 0 });
    assert_eq!(retriever.get(&vec![190u16; 24]), Cell::new(2, 2, 2));
    assert_eq!(retriever.get(&vec![10u16; 24]), Cell::new(1, 1, 1));
}

#[test]
fn kernel_calibration_bounds() {
    // Target weights 0.99 and 0.01 of full scale; tolerance 0.02 of full
    // scale, as fixed-point units.
    let w_near: u32 = 64881; // 0.99 * 65536, rounded
    let w_far: u32 = 655; // 0.01 * 65536, rounded
    let tol: i64 = 1311; // 0.02 * 65536, rounded
    let k = Kernel::calibrate(10, 100, w_near, w_far);
    assert_eq!(k.weight(0), w_near);
    assert_eq!(k.weight(10), w_near);
    let at_far = k.weight(100) as i64;
    assert!((at_far - w_far as i64).abs() <= tol);
    assert!(at_far <= w_far as i64);
    // Past the far distance the weight keeps falling.
    assert!(k.weight(150) <= k.weight(100));
}

#[test]
fn calibration_from_reference_areas() {
    let near = Area::new(vec![Cell::new(255, 100, 0); 9]);
    let far = Area::new(vec![Cell::new(255, 255, 0); 9]);
    let k = calibrate_from_references(&near, &far, 64881, 655).expect("distinct references");
    assert_eq!(k.weight(0), 64881);
    // The reference distance: 8 context cells, each differing by 155 in
    // one channel, so sqrt(8 * 155 * 155) = 438.
    assert_eq!(isqrt(sq_dist(&near.vectorize(), &far.vectorize())), 438);
    assert!(k.weight(438) <= 655);
}

#[test]
fn calibration_rejects_identical_references() {
    let a = Area::new(vec![Cell::new(9, 9, 9); 9]);
    let b = Area::new(vec![Cell::new(9, 9, 9); 9]);
    assert!(calibrate_from_references(&a, &b, 64881, 655).is_none());
}

#[test]
fn map_area_records_center() {
    let mut cells = Vec::new();
    for k in 0..9u8 {
        cells.push(Cell::new(k, 2 * k, 3 * k));
    }
    let area = Area::new(cells);
    let mut memory = PatternMemory::new();
    memory.map_area(&area);
    assert_eq!(memory.len(), 1);
    let retriever = memory.evaluate(wide_kernel());
    assert_eq!(retriever.get(&area.vectorize()), Cell::new(4, 8, 12));
}

#[test]
fn train_appends_all_pairs() {
    let mut pairs = Vec::new();
    for k in 0..5u16 {
        pairs.push(TrainingPair::new(vec![k; 24], vec![k, k, k]));
    }
    let mut memory = PatternMemory::new();
    memory.train(pairs);
    assert_eq!(memory.len(), 5);
    memory.map(TrainingPair::new(vec![9u16; 24], vec![9u16, 9, 9]));
    assert_eq!(memory.len(), 6);
}
