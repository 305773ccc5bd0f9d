use vstd::prelude::*;

use crate::cell::{Area, Cell};

verus! {

/// The mathematical model of a grid: a sequence of columns, each a sequence
/// of cells. A well-formed model has at least one column, at least one row,
/// and rectangular shape.
pub open spec fn grid_model_wf(m: Seq<Seq<Cell>>) -> bool {
    &&& m.len() >= 1
    &&& m[0].len() >= 1
    &&& forall|i: int| 0 <= i < m.len() ==> #[trigger] m[i].len() == m[0].len()
}

/// Toroidal cell lookup on a grid model: both coordinates wrap modulo the
/// grid dimensions, so every integer coordinate addresses a cell.
pub open spec fn cell_model(m: Seq<Seq<Cell>>, x: int, y: int) -> Cell
    recommends
        grid_model_wf(m),
{
    m[x % (m.len() as int)][y % (m[0].len() as int)]
}

/// The 3x3 block of a grid model centered at `(x, y)`, in row-major order:
/// index `row * 3 + col` holds the cell at offset `(col - 1, row - 1)`.
pub open spec fn area_model(m: Seq<Seq<Cell>>, x: int, y: int) -> Seq<Cell>
    recommends
        grid_model_wf(m),
{
    Seq::new(9, |k: int| cell_model(m, x + k % 3 - 1, y + k / 3 - 1))
}

/// Toroidal addressing law: lookups one whole dimension apart hit the same
/// cell; in particular column -1 is column `width - 1` and column `width`
/// is column 0, and likewise for rows.
pub proof fn lemma_toroidal_addressing(m: Seq<Seq<Cell>>, x: int, y: int)
    requires
        grid_model_wf(m),
    ensures
        cell_model(m, x + m.len(), y) == cell_model(m, x, y),
        cell_model(m, x, y + m[0].len()) == cell_model(m, x, y),
        cell_model(m, -1, y) == cell_model(m, m.len() - 1, y),
        cell_model(m, m.len() as int, y) == cell_model(m, 0, y),
        cell_model(m, x, -1) == cell_model(m, x, m[0].len() - 1),
        cell_model(m, x, m[0].len() as int) == cell_model(m, x, 0),
{
    let w = m.len() as int;
    let h = m[0].len() as int;
    assert((x + w) % w == x % w && (y + h) % h == y % h) by (nonlinear_arith)
        requires
            w >= 1 && h >= 1,
    ;
    assert((-1) % w == (w - 1) % w && w % w == 0int % w) by (nonlinear_arith)
        requires
            w >= 1,
    ;
    assert((-1) % h == (h - 1) % h && h % h == 0int % h) by (nonlinear_arith)
        requires
            h >= 1,
    ;
}

/// A toroidal grid of cells, stored as `width` columns of `height` cells.
/// Index arithmetic on lookups wraps modulo the dimensions.
pub struct Grid {
    pub width: usize,
    pub height: usize,
    pub cells: Vec<Vec<Cell>>,
}

/// Relies on rand::random: the standard uniform distribution on the result
/// type; of a random value nothing further can be promised.
pub assume_specification<T>[ rand::random::<T> ]() -> (r: T)
    where
        rand::distr::StandardUniform: rand::distr::Distribution<T>,
;

impl Grid {
    pub open spec fn wf(self) -> bool {
        &&& self.width >= 1
        &&& self.height >= 1
        &&& self.cells@.len() == self.width
        &&& forall|i: int| 0 <= i < self.width ==> (#[trigger] self.cells@[i])@.len()
            == self.height
        &&& self.width * self.height <= usize::MAX
    }

    pub open spec fn model(self) -> Seq<Seq<Cell>> {
        Seq::new(self.cells@.len() as nat, |i: int| self.cells@[i]@)
    }

    pub proof fn lemma_model_wf(self)
        requires
            self.wf(),
        ensures
            grid_model_wf(self.model()),
            self.model().len() == self.width,
            self.model()[0].len() == self.height,
    {
    }

    /// Build a grid from a rectangular block of columns.
    pub fn from_cells(cells: Vec<Vec<Cell>>) -> (g: Grid)
        requires
            cells@.len() >= 1,
            cells@[0]@.len() >= 1,
            forall|i: int| 0 <= i < cells@.len() ==> (#[trigger] cells@[i])@.len()
                == cells@[0]@.len(),
            cells@.len() * cells@[0]@.len() <= usize::MAX,
        ensures
            g.wf(),
            g.width == cells@.len(),
            g.height == cells@[0]@.len(),
            g.model() == Seq::new(cells@.len() as nat, |i: int| cells@[i]@),
    {
        let width = cells.len();
        let height = cells[0].len();
        Grid { width, height, cells }
    }

    /// Direct lookup of a cell inside the bounds.
    pub fn cell_at(&self, x: usize, y: usize) -> (c: Cell)
        requires
            self.wf(),
            x < self.width,
            y < self.height,
        ensures
            c == self.model()[x as int][y as int],
            c == cell_model(self.model(), x as int, y as int),
    {
        proof {
            let w = self.width as int;
            let h = self.height as int;
            assert((x as int) % w == x as int && (y as int) % h == y as int)
                by (nonlinear_arith)
                requires
                    0 <= x < w && 0 <= y < h,
            ;
        }
        self.cells[x][y]
    }

    /// Write one cell in place.
    pub fn set_cell(&mut self, x: usize, y: usize, c: Cell)
        requires
            old(self).wf(),
            x < old(self).width,
            y < old(self).height,
        ensures
            final(self).wf(),
            final(self).width == old(self).width,
            final(self).height == old(self).height,
            final(self).model() == old(self).model().update(
                x as int,
                old(self).model()[x as int].update(y as int, c),
            ),
    {
        self.cells[x][y] = c;
        proof {
            assert(final(self).model() =~= old(self).model().update(
                x as int,
                old(self).model()[x as int].update(y as int, c),
            ));
        }
    }

    /// The 3x3 block centered at `(x, y)`, built from the 8 toroidal
    /// neighbors plus the center itself.
    pub fn area_at(&self, x: usize, y: usize) -> (a: Area)
        requires
            self.wf(),
            x < self.width,
            y < self.height,
        ensures
            a.wf(),
            a.cells@ == area_model(self.model(), x as int, y as int),
    {
        let xm = if x == 0 { self.width - 1 } else { x - 1 };
        let xp = if x + 1 == self.width { 0 } else { x + 1 };
        let ym = if y == 0 { self.height - 1 } else { y - 1 };
        let yp = if y + 1 == self.height { 0 } else { y + 1 };
        proof {
            let w = self.width as int;
            let h = self.height as int;
            assert((x as int) % w == x as int && (y as int) % h == y as int
                && (x - 1) % w == xm as int && (x + 1) % w == xp as int
                && (y - 1) % h == ym as int && (y + 1) % h == yp as int)
                by (nonlinear_arith)
                requires
                    0 <= x < w && 0 <= y < h && w * h <= usize::MAX
                    && xm == (if x == 0 { w - 1 } else { x - 1 })
                    && xp == (if x + 1 == w { 0int } else { x + 1 })
                    && ym == (if y == 0 { h - 1 } else { y - 1 })
                    && yp == (if y + 1 == h { 0int } else { y + 1 }),
            ;
        }
        let mut cs: Vec<Cell> = Vec::new();
        cs.push(self.cells[xm][ym]);
        cs.push(self.cells[x][ym]);
        cs.push(self.cells[xp][ym]);
        cs.push(self.cells[xm][y]);
        cs.push(self.cells[x][y]);
        cs.push(self.cells[xp][y]);
        cs.push(self.cells[xm][yp]);
        cs.push(self.cells[x][yp]);
        cs.push(self.cells[xp][yp]);
        proof {
            assert(cs@ =~= area_model(self.model(), x as int, y as int));
        }
        Area::new(cs)
    }

    /// A cell-for-cell copy of this grid.
    pub fn duplicate(&self) -> (g: Grid)
        requires
            self.wf(),
        ensures
            g.wf(),
            g.width == self.width,
            g.height == self.height,
            g.model() == self.model(),
    {
        let mut cells: Vec<Vec<Cell>> = Vec::new();
        let mut i: usize = 0;
        while i < self.width
            invariant
                self.wf(),
                i <= self.width,
                cells@.len() == i,
                forall|k: int| 0 <= k < i ==> (#[trigger] cells@[k])@ == self.cells@[k]@,
            decreases self.width - i,
        {
            let mut col: Vec<Cell> = Vec::new();
            let mut j: usize = 0;
            while j < self.height
                invariant
                    self.wf(),
                    i < self.width,
                    j <= self.height,
                    col@.len() == j,
                    forall|k: int| 0 <= k < j ==> col@[k] == self.cells@[i as int]@[k],
                decreases self.height - j,
            {
                col.push(self.cells[i][j]);
                j = j + 1;
            }
            proof {
                assert(col@ =~= self.cells@[i as int]@);
            }
            cells.push(col);
            i = i + 1;
        }
        let g = Grid { width: self.width, height: self.height, cells };
        proof {
            assert(g.model() =~= self.model());
        }
        g
    }

    /// A freshly seeded grid: every channel of every cell drawn
    /// independently from the randomness source.
    pub fn random(width: usize, height: usize) -> (g: Grid)
        requires
            width >= 1,
            height >= 1,
            width * height <= usize::MAX,
        ensures
            g.wf(),
            g.width == width,
            g.height == height,
    {
        let mut cells: Vec<Vec<Cell>> = Vec::new();
        let mut i: usize = 0;
        while i < width
            invariant
                i <= width,
                cells@.len() == i,
                forall|k: int| 0 <= k < i ==> (#[trigger] cells@[k])@.len() == height,
            decreases width - i,
        {
            let mut col: Vec<Cell> = Vec::new();
            let mut j: usize = 0;
            while j < height
                invariant
                    j <= height,
                    col@.len() == j,
                decreases height - j,
            {
                let c = Cell {
                    r: rand::random::<u8>(),
                    g: rand::random::<u8>(),
                    b: rand::random::<u8>(),
                };
                col.push(c);
                j = j + 1;
            }
            cells.push(col);
            i = i + 1;
        }
        Grid { width, height, cells }
    }
}

} // verus!
