//! The server's world grid: two buffers of cells, one written while the
//! other is read, swapped after each step.
use vstd::prelude::*;

use crate::game::Cell;

verus! {

/// The offset of neighbor `k` of a 3x3 neighborhood, in the order
/// north-west, north, north-east, west, center, east, south-west, south,
/// south-east (y grows northwards).
pub open spec fn offset(k: int) -> (int, int) {
    if k == 0 {
        (-1, 1)
    } else if k == 1 {
        (0, 1)
    } else if k == 2 {
        (1, 1)
    } else if k == 3 {
        (-1, 0)
    } else if k == 4 {
        (0, 0)
    } else if k == 5 {
        (1, 0)
    } else if k == 6 {
        (-1, -1)
    } else if k == 7 {
        (0, -1)
    } else {
        (1, -1)
    }
}

/// `c + d` on 32-bit coordinates, wrapping around at either end.
pub open spec fn shift(c: u32, d: int) -> u32 {
    if c + d < 0 {
        (c + d + 0x1_0000_0000) as u32
    } else if c + d > u32::MAX {
        (c + d - 0x1_0000_0000) as u32
    } else {
        (c + d) as u32
    }
}

/// Where cell (x, y) sits in a buffer of the given height: `height * x + y`,
/// where that fits 32 bits.
pub open spec fn index_of(height: u32, x: u32, y: u32) -> Option<int> {
    if height * x + y <= u32::MAX {
        Some(height * x + y)
    } else {
        None
    }
}

/// The cell at (x, y), where its position lies inside `cells`.
pub open spec fn cell_of(cells: Seq<Cell>, height: u32, x: u32, y: u32) -> Option<Cell> {
    match index_of(height, x, y) {
        Some(i) => if i < cells.len() {
            Some(cells[i])
        } else {
            None
        },
        None => None,
    }
}

/// Neighbor `k` of the cell at (cx, cy).
pub open spec fn neighbor_of(cells: Seq<Cell>, height: u32, cx: u32, cy: u32, k: int) -> Option<
    Cell,
> {
    cell_of(cells, height, shift(cx, offset(k).0), shift(cy, offset(k).1))
}

/// Whether all nine cells around (cx, cy) lie inside `cells`.
pub open spec fn has_neighborhood(cells: Seq<Cell>, height: u32, cx: u32, cy: u32) -> bool {
    forall|k: int| 0 <= k < 9 ==> (#[trigger] neighbor_of(cells, height, cx, cy, k)) is Some
}

fn neighbor_offset(k: usize) -> (r: (i64, i64))
    requires
        k < 9,
    ensures
        r.0 == offset(k as int).0,
        r.1 == offset(k as int).1,
{
    if k == 0 {
        (-1, 1)
    } else if k == 1 {
        (0, 1)
    } else if k == 2 {
        (1, 1)
    } else if k == 3 {
        (-1, 0)
    } else if k == 4 {
        (0, 0)
    } else if k == 5 {
        (1, 0)
    } else if k == 6 {
        (-1, -1)
    } else if k == 7 {
        (0, -1)
    } else {
        (1, -1)
    }
}

fn shift_coord(c: u32, d: i64) -> (r: u32)
    requires
        -1 <= d <= 1,
    ensures
        r == shift(c, d as int),
{
    let s: i64 = c as i64 + d;
    if s < 0 {
        (s + 0x1_0000_0000) as u32
    } else if s > u32::MAX as i64 {
        (s - 0x1_0000_0000) as u32
    } else {
        s as u32
    }
}

/// What a buffer holds: its dimensions and its cells.
pub struct GridView {
    pub width: u32,
    pub height: u32,
    pub cells: Seq<Cell>,
}

pub struct CellsInner {
    width: u32,
    height: u32,
    cells: Vec<Cell>,
}

impl View for CellsInner {
    type V = GridView;

    closed spec fn view(&self) -> GridView {
        GridView { width: self.width, height: self.height, cells: self.cells@ }
    }
}

impl CellsInner {
    /// A buffer of `width * height` empty cells.
    pub fn new(width: u32, height: u32) -> (r: CellsInner)
        requires
            width * height <= usize::MAX,
        ensures
            r@.width == width,
            r@.height == height,
            r@.cells == Seq::new((width * height) as nat, |i: int| Cell::Empty),
    {
        let n = width as usize * height as usize;
        let cells = vec![Cell::Empty; n];
        assert(cells@ =~= Seq::new((width * height) as nat, |i: int| Cell::Empty));
        CellsInner { width, height, cells }
    }

    pub fn cells(&self) -> (r: &[Cell])
        ensures
            r@ == self@.cells,
    {
        self.cells.as_slice()
    }

    /// Where cell (x, y) sits in the buffer, where that fits 32 bits.
    pub fn cell_index(&self, x: u32, y: u32) -> (r: Option<usize>)
        ensures
            match index_of(self@.height, x, y) {
                Some(i) => r == Some(i as usize),
                None => r is None,
            },
    {
        let x_index = self.height.checked_mul(x)?;
        let index = x_index.checked_add(y)?;
        Some(index as usize)
    }

    /// The cell at (x, y), where its position lies inside the buffer.
    pub fn cell_at(&self, x: u32, y: u32) -> (r: Option<Cell>)
        ensures
            r == cell_of(self@.cells, self@.height, x, y),
    {
        let index = self.cell_index(x, y)?;
        if index < self.cells.len() {
            Some(self.cells[index])
        } else {
            None
        }
    }

    /// Writes `cell` at (x, y). Where the position lies outside the buffer
    /// nothing changes and `None` comes back.
    pub fn set_at(&mut self, x: u32, y: u32, cell: Cell) -> (r: Option<()>)
        ensures
            r is Some <==> cell_of(old(self)@.cells, old(self)@.height, x, y) is Some,
            final(self)@ == match index_of(old(self)@.height, x, y) {
                Some(i) => if r is Some {
                    GridView { cells: old(self)@.cells.update(i, cell), ..old(self)@ }
                } else {
                    old(self)@
                },
                None => old(self)@,
            },
    {
        let index = self.cell_index(x, y)?;
        if index < self.cells.len() {
            self.cells.set(index, cell);
            Some(())
        } else {
            None
        }
    }

    /// The nine cells around (cx, cy), where all of them lie inside the
    /// buffer.
    pub fn neighborhood(&self, center_x: u32, center_y: u32) -> (r: Option<[Cell; 9]>)
        ensures
            r is Some <==> has_neighborhood(self@.cells, self@.height, center_x, center_y),
            r is Some ==> forall|k: int|
                0 <= k < 9 ==> Some(r.unwrap()@[k]) == neighbor_of(
                    self@.cells,
                    self@.height,
                    center_x,
                    center_y,
                    k,
                ),
    {
        let mut n: [Cell; 9] = [Cell::Empty; 9];
        let mut k: usize = 0;
        while k < 9
            invariant
                k <= 9,
                forall|j: int|
                    0 <= j < k ==> Some(n@[j]) == neighbor_of(
                        self@.cells,
                        self@.height,
                        center_x,
                        center_y,
                        j,
                    ),
            decreases 9 - k,
        {
            let (dx, dy) = neighbor_offset(k);
            let x = shift_coord(center_x, dx);
            let y = shift_coord(center_y, dy);
            match self.cell_at(x, y) {
                Some(c) => {
                    n.set(k, c);
                },
                None => {
                    assert(neighbor_of(self@.cells, self@.height, center_x, center_y, k as int) is None);
                    return None;
                },
            }
            k = k + 1;
        }
        Some(n)
    }
}

/// Whether (x, y) has all nine neighbors in a buffer depends on the
/// buffer's length alone.
proof fn lemma_neighborhood_len(s1: Seq<Cell>, s2: Seq<Cell>, height: u32, x: u32, y: u32)
    requires
        s1.len() == s2.len(),
    ensures
        has_neighborhood(s1, height, x, y) == has_neighborhood(s2, height, x, y),
{
    assert forall|k: int| 0 <= k < 9 implies (neighbor_of(s1, height, x, y, k) is Some) == (
    neighbor_of(s2, height, x, y, k) is Some) by {}
}

/// Which buffer is written.
#[derive(Clone, Copy, Debug, PartialEq, Eq, Structural)]
pub enum Active {
    A,
    B,
}

impl Active {
    pub fn swap(&self) -> (r: Active)
        ensures
            r != *self,
    {
        match self {
            Active::A => Active::B,
            Active::B => Active::A,
        }
    }
}

/// Both buffers' values of one thing.
#[derive(Clone, Copy, Debug)]
pub struct AB<T> {
    pub a: T,
    pub b: T,
}

/// What a double-buffered grid holds.
pub struct CellsView {
    pub width: u32,
    pub height: u32,
    pub a: GridView,
    pub b: GridView,
    pub active: Active,
}

/// The buffer being written.
pub open spec fn active_of(v: CellsView) -> GridView {
    if v.active == Active::A {
        v.a
    } else {
        v.b
    }
}

/// The buffer being read.
pub open spec fn back_of(v: CellsView) -> GridView {
    if v.active == Active::A {
        v.b
    } else {
        v.a
    }
}

/// Both buffers have the grid's dimensions and one cell per position.
pub open spec fn cells_wf(v: CellsView) -> bool {
    &&& v.a.width == v.width && v.b.width == v.width
    &&& v.a.height == v.height && v.b.height == v.height
    &&& v.a.cells.len() == v.width * v.height
    &&& v.b.cells.len() == v.width * v.height
}

/// Whether position `i` is that of a grid cell (x, y), among those visited
/// before (x_end, y_end) row by row, whose nine neighbors all lie inside a
/// buffer of `len` cells.
pub open spec fn turns_to_stone(
    width: u32,
    height: u32,
    cells: Seq<Cell>,
    x_end: u32,
    y_end: u32,
    i: int,
) -> bool {
    exists|x: u32, y: u32|
        #![trigger index_of(height, x, y)]
        (y < y_end || (y == y_end && x < x_end)) && x < width && y < height && has_neighborhood(
            cells,
            height,
            x,
            y,
        ) && index_of(height, x, y) == Some(i)
}

/// The written buffer after one step: every cell whose nine neighbors lie
/// inside the grid becomes stone.
pub open spec fn stepped(g: GridView) -> Seq<Cell> {
    Seq::new(
        g.cells.len(),
        |i: int|
            if turns_to_stone(g.width, g.height, g.cells, 0, g.height, i) {
                Cell::Stone
            } else {
                g.cells[i]
            },
    )
}

pub struct Cells {
    width: u32,
    height: u32,
    cells_a: CellsInner,
    cells_b: CellsInner,
    active: Active,
}

impl View for Cells {
    type V = CellsView;

    closed spec fn view(&self) -> CellsView {
        CellsView {
            width: self.width,
            height: self.height,
            a: self.cells_a@,
            b: self.cells_b@,
            active: self.active,
        }
    }
}

impl Cells {
    /// A grid of `width * height` empty cells in both buffers; `A` is
    /// written first.
    pub fn new(width: u32, height: u32) -> (r: Cells)
        requires
            width * height <= usize::MAX,
        ensures
            cells_wf(r@),
            r@.width == width,
            r@.height == height,
            r@.active == Active::A,
            r@.a.cells == Seq::new((width * height) as nat, |i: int| Cell::Empty),
            r@.b.cells == Seq::new((width * height) as nat, |i: int| Cell::Empty),
    {
        Cells {
            width,
            height,
            cells_a: CellsInner::new(width, height),
            cells_b: CellsInner::new(width, height),
            active: Active::A,
        }
    }

    fn inner_back(&self) -> (r: &CellsInner)
        ensures
            r@ == back_of(self@),
    {
        match self.active {
            Active::A => &self.cells_b,
            Active::B => &self.cells_a,
        }
    }

    /// The cells of the buffer being read.
    pub fn current(&self) -> (r: &[Cell])
        ensures
            r@ == back_of(self@).cells,
    {
        self.inner_back().cells()
    }

    /// Writes `cell` at (x, y) of the buffer being written; `None` where the
    /// position lies outside it.
    pub fn set_at(&mut self, x: u32, y: u32, cell: Cell) -> (r: Option<()>)
        requires
            cells_wf(old(self)@),
        ensures
            cells_wf(final(self)@),
            r is Some <==> cell_of(active_of(old(self)@).cells, old(self)@.height, x, y) is Some,
            final(self)@.active == old(self)@.active,
            back_of(final(self)@) == back_of(old(self)@),
            active_of(final(self)@) == match index_of(old(self)@.height, x, y) {
                Some(i) => if r is Some {
                    GridView { cells: active_of(old(self)@).cells.update(i, cell), ..active_of(old(self)@) }
                } else {
                    active_of(old(self)@)
                },
                None => active_of(old(self)@),
            },
    {
        match self.active {
            Active::A => self.cells_a.set_at(x, y, cell),
            Active::B => self.cells_b.set_at(x, y, cell),
        }
    }

    /// The nine cells around (cx, cy) in both buffers, where they all lie
    /// inside the grid.
    pub fn neighborhood(&self, center_x: u32, center_y: u32) -> (r: Option<AB<[Cell; 9]>>)
        requires
            cells_wf(self@),
        ensures
            r is Some <==> has_neighborhood(self@.a.cells, self@.height, center_x, center_y),
            r is Some ==> forall|k: int|
                0 <= k < 9 ==> Some(r.unwrap().a@[k]) == neighbor_of(
                    self@.a.cells,
                    self@.height,
                    center_x,
                    center_y,
                    k,
                ) && Some(r.unwrap().b@[k]) == neighbor_of(
                    self@.b.cells,
                    self@.height,
                    center_x,
                    center_y,
                    k,
                ),
    {
        proof {
            lemma_neighborhood_len(self@.a.cells, self@.b.cells, self@.height, center_x, center_y);
        }
        let a = self.cells_a.neighborhood(center_x, center_y)?;
        let b = self.cells_b.neighborhood(center_x, center_y)?;
        Some(AB { a, b })
    }

    /// Swaps the buffers: the one written becomes the one read.
    pub fn swap(&mut self)
        ensures
            final(self)@ == (CellsView { active: if old(self)@.active == Active::A {
                Active::B
            } else {
                Active::A
            }, ..old(self)@ }),
    {
        self.active = self.active.swap();
    }

    /// One step of the world: every cell of the written buffer whose nine
    /// neighbors lie inside the grid becomes stone, then the buffers swap.
    pub fn advance(&mut self)
        requires
            cells_wf(old(self)@),
        ensures
            cells_wf(final(self)@),
            final(self)@.active != old(self)@.active,
            active_of(final(self)@) == back_of(old(self)@),
            back_of(final(self)@).cells == stepped(active_of(old(self)@)),
    {
        let ghost g0 = active_of(self@);
        let ghost back0 = back_of(self@);
        let mut y: u32 = 0;
        assert(active_of(self@).cells =~= Seq::new(
            g0.cells.len(),
            |i: int|
                if turns_to_stone(g0.width, g0.height, g0.cells, 0, 0, i) {
                    Cell::Stone
                } else {
                    g0.cells[i]
                },
        ));
        while y < self.height
            invariant
                cells_wf(self@),
                self@.active == old(self)@.active,
                self@.width == g0.width,
                self@.height == g0.height,
                back_of(self@) == back0,
                active_of(self@).width == g0.width,
                active_of(self@).height == g0.height,
                y <= g0.height,
                active_of(self@).cells == Seq::new(
                    g0.cells.len(),
                    |i: int|
                        if turns_to_stone(g0.width, g0.height, g0.cells, 0, y, i) {
                            Cell::Stone
                        } else {
                            g0.cells[i]
                        },
                ),
            decreases g0.height - y,
        {
            let mut x: u32 = 0;
            while x < self.width
                invariant
                    cells_wf(self@),
                    self@.active == old(self)@.active,
                    self@.width == g0.width,
                    self@.height == g0.height,
                    back_of(self@) == back0,
                    active_of(self@).width == g0.width,
                    active_of(self@).height == g0.height,
                    y < g0.height,
                    x <= g0.width,
                    active_of(self@).cells == Seq::new(
                        g0.cells.len(),
                        |i: int|
                            if turns_to_stone(g0.width, g0.height, g0.cells, x, y, i) {
                                Cell::Stone
                            } else {
                                g0.cells[i]
                            },
                    ),
                decreases g0.width - x,
            {
                let ghost before = active_of(self@).cells;
                let found = self.neighborhood(x, y).is_some();
                proof {
                    lemma_neighborhood_len(self@.a.cells, g0.cells, g0.height, x, y);
                    lemma_neighborhood_len(self@.b.cells, g0.cells, g0.height, x, y);
                }
                if found {
                    proof {
                        assert(neighbor_of(g0.cells, g0.height, x, y, 4) is Some);
                    }
                    let _ = self.set_at(x, y, Cell::Stone);
                }
                proof {
                    let x1 = (x + 1) as u32;
                    let after = active_of(self@).cells;
                    assert forall|i: int| 0 <= i < g0.cells.len() implies after[i] == (if turns_to_stone(
                        g0.width,
                        g0.height,
                        g0.cells,
                        x1,
                        y,
                        i,
                    ) {
                        Cell::Stone
                    } else {
                        g0.cells[i]
                    }) by {
                        if found && index_of(g0.height, x, y) == Some(i) {
                            assert(turns_to_stone(g0.width, g0.height, g0.cells, x1, y, i));
                        } else {
                            if turns_to_stone(g0.width, g0.height, g0.cells, x1, y, i) {
                                let (xx, yy) = choose|xx: u32, yy: u32|
                                    (yy < y || (yy == y && xx < x1)) && xx < g0.width && yy
                                        < g0.height && has_neighborhood(g0.cells, g0.height, xx, yy)
                                        && #[trigger] index_of(g0.height, xx, yy) == Some(i);
                                if xx == x && yy == y {
                                    assert(found);
                                } else {
                                    assert(turns_to_stone(g0.width, g0.height, g0.cells, x, y, i));
                                }
                            } else {
                                assert(!turns_to_stone(g0.width, g0.height, g0.cells, x, y, i));
                            }
                        }
                    }
                    assert(after =~= Seq::new(
                        g0.cells.len(),
                        |i: int|
                            if turns_to_stone(g0.width, g0.height, g0.cells, x1, y, i) {
                                Cell::Stone
                            } else {
                                g0.cells[i]
                            },
                    ));
                }
                x = x + 1;
            }
            proof {
                let y1 = (y + 1) as u32;
                assert forall|i: int| 0 <= i < g0.cells.len() implies turns_to_stone(
                    g0.width,
                    g0.height,
                    g0.cells,
                    x,
                    y,
                    i,
                ) == turns_to_stone(g0.width, g0.height, g0.cells, 0, y1, i) by {
                    if turns_to_stone(g0.width, g0.height, g0.cells, 0, y1, i) {
                        let (xx, yy) = choose|xx: u32, yy: u32|
                            (yy < y1 || (yy == y1 && xx < 0)) && xx < g0.width && yy < g0.height
                                && has_neighborhood(g0.cells, g0.height, xx, yy)
                                && #[trigger] index_of(g0.height, xx, yy) == Some(i);
                        assert(turns_to_stone(g0.width, g0.height, g0.cells, x, y, i));
                    }
                    if turns_to_stone(g0.width, g0.height, g0.cells, x, y, i) {
                        let (xx, yy) = choose|xx: u32, yy: u32|
                            (yy < y || (yy == y && xx < x)) && xx < g0.width && yy < g0.height
                                && has_neighborhood(g0.cells, g0.height, xx, yy)
                                && #[trigger] index_of(g0.height, xx, yy) == Some(i);
                        assert(turns_to_stone(g0.width, g0.height, g0.cells, 0, y1, i));
                    }
                }
                assert(active_of(self@).cells =~= Seq::new(
                    g0.cells.len(),
                    |i: int|
                        if turns_to_stone(g0.width, g0.height, g0.cells, 0, y1, i) {
                            Cell::Stone
                        } else {
                            g0.cells[i]
                        },
                ));
            }
            y = y + 1;
        }
        assert(active_of(self@).cells =~= stepped(g0));
        self.swap();
    }
}

} // verus!
