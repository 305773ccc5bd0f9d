use vstd::prelude::*;

verus! {

/// One color cell: three 8-bit channels (red, green, blue).
#[derive(Clone, Copy, Debug, PartialEq, Eq, Structural)]
pub struct Cell {
    pub r: u8,
    pub g: u8,
    pub b: u8,
}

/// Numeric vectors hold channel values in fixed-point units of 1/255:
/// a component `v` stands for the real quantity `v / 255`, so the canonical
/// range [0, 1] is the component range 0..=255. A well-formed vector never
/// leaves that range.
pub open spec fn vec_wf(v: Seq<u16>) -> bool {
    forall|k: int| 0 <= k < v.len() ==> v[k] <= 255
}

/// Clamp a fixed-point component to the canonical [0, 1] range, then
/// quantize it to one 8-bit channel.
pub open spec fn clamp_channel(x: u16) -> u8 {
    if x > 255 {
        255u8
    } else {
        x as u8
    }
}

/// The cell a 3-component vector decodes to.
pub open spec fn devectorize_spec(v: Seq<u16>) -> Cell
    recommends
        v.len() == 3,
{
    Cell { r: clamp_channel(v[0]), g: clamp_channel(v[1]), b: clamp_channel(v[2]) }
}

impl Cell {
    /// The numeric form of a cell: its three channels, in units of 1/255.
    pub open spec fn vector_spec(self) -> Seq<u16> {
        seq![self.r as u16, self.g as u16, self.b as u16]
    }

    pub fn new(r: u8, g: u8, b: u8) -> (c: Cell)
        ensures
            c == (Cell { r, g, b }),
    {
        Cell { r, g, b }
    }

    /// Encode the cell as its 3-component numeric vector.
    pub fn vectorize(&self) -> (v: Vec<u16>)
        ensures
            v@ == self.vector_spec(),
            v@.len() == 3,
            vec_wf(v@),
    {
        let mut v: Vec<u16> = Vec::new();
        v.push(self.r as u16);
        v.push(self.g as u16);
        v.push(self.b as u16);
        proof {
            assert(v@ =~= self.vector_spec());
        }
        v
    }

    /// Decode a 3-component vector back to a cell, clamping each component
    /// to the canonical [0, 1] range first.
    pub fn devectorize(v: &Vec<u16>) -> (c: Cell)
        requires
            v@.len() == 3,
        ensures
            c == devectorize_spec(v@),
    {
        let r = if v[0] > 255 { 255u8 } else { v[0] as u8 };
        let g = if v[1] > 255 { 255u8 } else { v[1] as u8 };
        let b = if v[2] > 255 { 255u8 } else { v[2] as u8 };
        Cell { r, g, b }
    }
}

/// Round-trip law: decoding the numeric form of any cell reproduces the
/// cell exactly; the 1/255 quantization already present in storage loses
/// nothing.
pub proof fn lemma_vector_round_trip(c: Cell)
    ensures
        devectorize_spec(c.vector_spec()) == c,
{
}

/// One channel of a cell, selected by index 0 (red), 1 (green), 2 (blue).
pub open spec fn channel_of(c: Cell, ch: int) -> u16
    recommends
        0 <= ch < 3,
{
    if ch == 0 {
        c.r as u16
    } else if ch == 1 {
        c.g as u16
    } else {
        c.b as u16
    }
}

/// The context cell of a 3x3 block at context position `c` in 0..8:
/// the 9 cells in row-major order with the center (position 4) skipped.
pub open spec fn context_cell(cells: Seq<Cell>, c: int) -> Cell
    recommends
        cells.len() == 9,
        0 <= c < 8,
{
    if c < 4 {
        cells[c]
    } else {
        cells[c + 1]
    }
}

/// The 24-component numeric form of a 3x3 block: the 8 context cells in
/// row-major order, center excluded, each occupying 3 consecutive slots.
pub open spec fn context_vector_of(cells: Seq<Cell>) -> Seq<u16>
    recommends
        cells.len() == 9,
{
    Seq::new(24, |k: int| channel_of(context_cell(cells, k / 3), k % 3))
}

/// A 3x3 block of cells in row-major order: index `row * 3 + col` holds the
/// cell at row/column offset `(row - 1, col - 1)` from the center. The
/// center (index 4) is the target, the other 8 cells are the context.
pub struct Area {
    pub cells: Vec<Cell>,
}

impl Area {
    pub open spec fn wf(self) -> bool {
        self.cells@.len() == 9
    }

    pub open spec fn vector_spec(self) -> Seq<u16> {
        context_vector_of(self.cells@)
    }

    pub fn new(cells: Vec<Cell>) -> (a: Area)
        requires
            cells@.len() == 9,
        ensures
            a.wf(),
            a.cells@ == cells@,
    {
        Area { cells }
    }

    /// The target: the cell at the center of the block.
    pub fn center(&self) -> (c: Cell)
        requires
            self.wf(),
        ensures
            c == self.cells@[4],
    {
        self.cells[4]
    }

    /// Encode the 8 context cells as the 24-component numeric vector, in
    /// fixed row-major traversal order, skipping the center.
    pub fn vectorize(&self) -> (v: Vec<u16>)
        requires
            self.wf(),
        ensures
            v@ == self.vector_spec(),
            v@.len() == 24,
            vec_wf(v@),
    {
        let mut v: Vec<u16> = Vec::new();
        let mut i: usize = 0;
        while i < 9
            invariant
                self.wf(),
                i <= 9,
                v@.len() == if i <= 4 { 3 * i } else { 3 * (i - 1) },
                forall|k: int|
                    0 <= k < v@.len() ==> v@[k] == channel_of(
                        context_cell(self.cells@, k / 3),
                        k % 3,
                    ),
            decreases 9 - i,
        {
            if i != 4 {
                let c = self.cells[i];
                v.push(c.r as u16);
                v.push(c.g as u16);
                v.push(c.b as u16);
            }
            i = i + 1;
        }
        proof {
            assert(v@ =~= self.vector_spec());
        }
        v
    }
}

} // verus!
