use pattern_grid::cell::{Area, Cell};
use pattern_grid::grid::Grid;

fn uniform_area(c: Cell) -> Area {
    Area::new(vec![c; 9])
}

#[test]
fn cell_round_trip() {
    let cases = [
        Cell::new(0, 0, 0),
        Cell::new(255, 255, 255),
        Cell::new(1, 2, 3),
        Cell::new(255, 100, 0),
        Cell::new(127, 128, 129),
    ];
    for c in cases {
        let v = c.vectorize();
        assert_eq!(Cell::devectorize(&v), c);
    }
}

#[test]
fn cell_vectorize_components() {
    let v = Cell::new(1, 2, 3).vectorize();
    assert_eq!(v, vec![1u16, 2, 3]);
}

#[test]
fn devectorize_clamps_out_of_range() {
    let v = vec![300u16, 0, 255];
    assert_eq!(Cell::devectorize(&v), Cell::new(255, 0, 255));
}

#[test]
fn area_vectorize_skips_center() {
    let mut cells = Vec::new();
    for k in 0..9u8 {
        cells.push(Cell::new(k, k, k));
    }
    let area = Area::new(cells);
    assert_eq!(area.center(), Cell::new(4, 4, 4));
    let v = area.vectorize();
    assert_eq!(v.len(), 24);
    let mut expected: Vec<u16> = Vec::new();
    for k in 0..9u16 {
        if k == 4 {
            continue;
        }
        expected.push(k);
        expected.push(k);
        expected.push(k);
    }
    assert_eq!(v, expected);
}

#[test]
fn toroidal_wraparound() {
    // 3 columns x 3 rows with distinct cells: cell (x, y) = (10x + y, 0, 0).
    let mut cols = Vec::new();
    for x in 0..3u8 {
        let mut col = Vec::new();
        for y in 0..3u8 {
            col.push(Cell::new(10 * x + y, 0, 0));
        }
        cols.push(col);
    }
    let g = Grid::from_cells(cols);
    // The block at (0, 0): its top-left context cell sits at (-1, -1),
    // which wraps to (2, 2).
    let a = g.area_at(0, 0);
    assert_eq!(a.cells[0], g.cell_at(2, 2));
    assert_eq!(a.cells[1], Cell::new(2, 0, 0)); // (0, -1) wraps to (0, 2)
    assert_eq!(a.cells[4], g.cell_at(0, 0));
    // The block at (2, 2): its bottom-right context cell sits at (3, 3),
    // which wraps to (0, 0).
    let b = g.area_at(2, 2);
    assert_eq!(b.cells[8], g.cell_at(0, 0));
    assert_eq!(b.cells[5], Cell::new(2, 0, 0)); // (3, 2) wraps to (0, 2)
}

#[test]
fn grid_set_and_get() {
    let g0 = Grid::from_cells(vec![vec![Cell::new(0, 0, 0); 2]; 2]);
    let mut g = g0.duplicate();
    g.set_cell(1, 0, Cell::new(9, 8, 7));
    assert_eq!(g.cell_at(1, 0), Cell::new(9, 8, 7));
    assert_eq!(g.cell_at(0, 0), Cell::new(0, 0, 0));
    // The duplicate is a distinct buffer: the original is untouched.
    assert_eq!(g0.cell_at(1, 0), Cell::new(0, 0, 0));
}

#[test]
fn grid_random_shape() {
    let g = Grid::random(3, 2);
    assert_eq!(g.width, 3);
    assert_eq!(g.height, 2);
    assert_eq!(g.cells.len(), 3);
    for col in &g.cells {
        assert_eq!(col.len(), 2);
    }
}

#[test]
fn uniform_area_has_uniform_vector() {
    let v = uniform_area(Cell::new(7, 8, 9)).vectorize();
    for k in 0..8 {
        assert_eq!(&v[3 * k..3 * k + 3], &[7u16, 8, 9]);
    }
}
