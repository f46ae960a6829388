//! The grid store: a write-once mapping from in-bounds positions to placed
//! modules, kept as a dense vector indexed by `y * width + x`.
use vstd::prelude::*;

verus! {

/// A cell coordinate; `x` grows eastwards and `y` grows southwards.
#[derive(Clone, Copy, PartialEq, Eq, Structural, Debug, Hash)]
pub struct Position {
    pub x: u32,
    pub y: u32,
}

/// What occupies a cell: the catalog index of the module and its identifier.
#[derive(Clone, Copy, PartialEq, Eq, Structural, Debug)]
pub struct Placement {
    pub module: usize,
    pub id: u32,
}

/// Number of occupied cells in `cells`.
pub open spec fn filled(cells: Seq<Option<Placement>>) -> nat
    decreases cells.len(),
{
    if cells.len() == 0 {
        0
    } else {
        filled(cells.drop_last()) + if cells.last() is Some { 1nat } else { 0nat }
    }
}

/// The mathematical content of a grid.
pub ghost struct GridModel {
    pub width: nat,
    pub height: nat,
    pub cells: Seq<Option<Placement>>,
}

impl GridModel {
    pub open spec fn area(self) -> nat {
        self.width * self.height
    }

    pub open spec fn wf(self) -> bool {
        self.cells.len() == self.area()
    }

    pub open spec fn contains(self, x: int, y: int) -> bool {
        0 <= x < self.width && 0 <= y < self.height
    }

    pub open spec fn in_bounds(self, p: Position) -> bool {
        self.contains(p.x as int, p.y as int)
    }

    pub open spec fn index(self, x: int, y: int) -> int {
        y * self.width + x
    }

    /// The occupant of cell (x, y); absent outside the grid.
    pub open spec fn cell(self, x: int, y: int) -> Option<Placement> {
        if self.contains(x, y) {
            self.cells[self.index(x, y)]
        } else {
            None
        }
    }

    pub open spec fn at(self, p: Position) -> Option<Placement> {
        self.cell(p.x as int, p.y as int)
    }

    pub open spec fn occupied(self, p: Position) -> bool {
        self.at(p) is Some
    }

    pub open spec fn count(self) -> nat {
        filled(self.cells)
    }

    pub open spec fn is_full(self) -> bool {
        self.count() == self.area()
    }

    /// The grid with `p` occupied by `pl`.
    pub open spec fn insert(self, p: Position, pl: Placement) -> GridModel {
        GridModel { cells: self.cells.update(self.index(p.x as int, p.y as int), Some(pl)), ..self }
    }

    /// Every cell occupied in `self` holds the same occupant in `later`.
    pub open spec fn kept_in(self, later: GridModel) -> bool {
        &&& later.width == self.width
        &&& later.height == self.height
        &&& later.cells.len() == self.cells.len()
        &&& forall|i: int|
            0 <= i < self.cells.len() && (#[trigger] self.cells[i]) is Some ==> later.cells[i]
                == self.cells[i]
    }
}

pub proof fn lemma_filled_bounded(cells: Seq<Option<Placement>>)
    ensures
        filled(cells) <= cells.len(),
    decreases cells.len(),
{
    if cells.len() > 0 {
        lemma_filled_bounded(cells.drop_last());
    }
}

pub proof fn lemma_filled_update(cells: Seq<Option<Placement>>, i: int, pl: Placement)
    requires
        0 <= i < cells.len(),
        cells[i] is None,
    ensures
        filled(cells.update(i, Some(pl))) == filled(cells) + 1,
    decreases cells.len(),
{
    let u = cells.update(i, Some(pl));
    if i == cells.len() - 1 {
        assert(u.drop_last() =~= cells.drop_last());
    } else {
        assert(u.drop_last() =~= cells.drop_last().update(i, Some(pl)));
        lemma_filled_update(cells.drop_last(), i, pl);
    }
}

pub proof fn lemma_kept_in_trans(a: GridModel, b: GridModel, c: GridModel)
    requires
        a.kept_in(b),
        b.kept_in(c),
    ensures
        a.kept_in(c),
{
    assert forall|i: int| 0 <= i < a.cells.len() && (#[trigger] a.cells[i]) is Some implies c.cells[i]
        == a.cells[i] by {
        assert(b.cells[i] == a.cells[i]);
    }
}

/// Number of empty cells among the first `i`.
pub open spec fn empties_before(cells: Seq<Option<Placement>>, i: int) -> int {
    i - filled(cells.take(i))
}

pub proof fn lemma_position_of_index(i: int, width: int, height: int)
    requires
        0 <= i < width * height,
        width > 0,
    ensures
        0 <= i % width < width,
        0 <= i / width < height,
        (i / width) * width + i % width == i,
{
    vstd::arithmetic::div_mod::lemma_fundamental_div_mod(i, width);
    vstd::arithmetic::div_mod::lemma_mod_pos_bound(i, width);
    vstd::arithmetic::div_mod::lemma_div_pos_is_pos(i, width);
    let q = i / width;
    let m = i % width;
    assert(q * width == width * q) by (nonlinear_arith);
    assert(q < height) by (nonlinear_arith)
        requires
            i == q * width + m,
            0 <= m,
            i < width * height,
            width > 0,
    ;
}

pub proof fn lemma_index_in_range(width: nat, height: nat, x: int, y: int)
    requires
        0 <= x < width,
        0 <= y < height,
    ensures
        0 <= y * width + x < width * height,
{
    assert(0 <= y * width) by (nonlinear_arith)
        requires
            0 <= y,
    ;
    assert(y * width + x < width * height) by (nonlinear_arith)
        requires
            0 <= x < width,
            0 <= y < height,
    ;
}

/// A grid of `width * height` cells.
pub struct Grid {
    width: u32,
    height: u32,
    cells: Vec<Option<Placement>>,
    count: usize,
}

impl View for Grid {
    type V = GridModel;

    closed spec fn view(&self) -> GridModel {
        GridModel { width: self.width as nat, height: self.height as nat, cells: self.cells@ }
    }
}

impl Grid {
    pub closed spec fn inv(&self) -> bool {
        &&& self@.wf()
        &&& self.count == self@.count()
        &&& self@.area() <= usize::MAX
    }

    pub proof fn lemma_inv(&self)
        requires
            self.inv(),
        ensures
            self@.wf(),
            self@.count() <= self@.area(),
            self@.area() <= usize::MAX,
            self@.width <= u32::MAX,
            self@.height <= u32::MAX,
    {
        lemma_filled_bounded(self@.cells);
    }

    /// An empty grid of the given dimensions.
    pub fn new(width: u32, height: u32) -> (r: Grid)
        requires
            width * height <= usize::MAX,
        ensures
            r.inv(),
            r@.width == width,
            r@.height == height,
            forall|i: int| 0 <= i < r@.cells.len() ==> r@.cells[i] is None,
            r@.count() == 0,
    {
        let area: usize = (width as usize) * (height as usize);
        let mut cells: Vec<Option<Placement>> = Vec::new();
        let mut i: usize = 0;
        while i < area
            invariant
                i <= area,
                cells@.len() == i,
                forall|j: int| 0 <= j < i ==> cells@[j] is None,
                filled(cells@) == 0,
            decreases area - i,
        {
            proof {
                assert(cells@.push(None).drop_last() =~= cells@);
            }
            cells.push(None);
            i = i + 1;
        }
        Grid { width, height, cells, count: 0 }
    }

    pub fn width(&self) -> (r: u32)
        ensures
            r == self@.width,
    {
        self.width
    }

    pub fn height(&self) -> (r: u32)
        ensures
            r == self@.height,
    {
        self.height
    }

    /// Number of occupied cells.
    pub fn count(&self) -> (r: usize)
        requires
            self.inv(),
        ensures
            r == self@.count(),
    {
        self.count
    }

    /// Whether every cell is occupied.
    pub fn is_full(&self) -> (r: bool)
        requires
            self.inv(),
        ensures
            r == self@.is_full(),
    {
        proof {
            lemma_filled_bounded(self@.cells);
        }
        self.count == (self.width as usize) * (self.height as usize)
    }

    fn index(&self, x: u32, y: u32) -> (r: usize)
        requires
            self.inv(),
            self@.contains(x as int, y as int),
        ensures
            r == self@.index(x as int, y as int),
            r < self.cells@.len(),
    {
        proof {
            lemma_index_in_range(self@.width, self@.height, x as int, y as int);
        }
        (y as usize) * (self.width as usize) + (x as usize)
    }

    /// The occupant of `(x, y)`, absent outside the grid.
    pub fn cell(&self, x: u64, y: u64) -> (r: Option<Placement>)
        requires
            self.inv(),
        ensures
            r == self@.cell(x as int, y as int),
    {
        if x < self.width as u64 && y < self.height as u64 {
            let i = self.index(x as u32, y as u32);
            self.cells[i]
        } else {
            None
        }
    }

    /// The occupant of `p`, absent outside the grid.
    pub fn get(&self, p: Position) -> (r: Option<Placement>)
        requires
            self.inv(),
        ensures
            r == self@.at(p),
    {
        self.cell(p.x as u64, p.y as u64)
    }

    pub fn in_bounds(&self, p: Position) -> (r: bool)
        ensures
            r == self@.in_bounds(p),
    {
        p.x < self.width && p.y < self.height
    }

    /// The empty cell that comes `k`-th in row-major order.
    pub fn nth_empty(&self, k: usize) -> (r: Position)
        requires
            self.inv(),
            k < self@.area() - self@.count(),
        ensures
            self@.in_bounds(r),
            !self@.occupied(r),
    {
        let mut seen: usize = 0;
        let mut i: usize = 0;
        while i < self.cells.len()
            invariant
                self.inv(),
                i <= self.cells@.len(),
                seen == empties_before(self.cells@, i as int),
                seen <= k,
                k < self@.area() - self@.count(),
            decreases self.cells.len() - i,
        {
            proof {
                assert(self.cells@.take(i + 1).drop_last() =~= self.cells@.take(i as int));
                lemma_filled_bounded(self.cells@.take(i as int));
            }
            if self.cells[i].is_none() {
                if seen == k {
                    proof {
                        assert(self.width > 0) by (nonlinear_arith)
                            requires
                                (i as int) < (self.width as int) * (self.height as int),
                                self.height >= 0,
                        ;
                        lemma_position_of_index(i as int, self.width as int, self.height as int);
                    }
                    let w = self.width as usize;
                    let p = Position { x: (i % w) as u32, y: (i / w) as u32 };
                    return p;
                }
                seen = seen + 1;
            }
            i = i + 1;
        }
        proof {
            assert(self.cells@.take(i as int) =~= self.cells@);
        }
        Position { x: 0, y: 0 }
    }

    /// Places `pl` at the empty in-bounds cell `p`.
    pub fn insert(&mut self, p: Position, pl: Placement)
        requires
            old(self).inv(),
            old(self)@.in_bounds(p),
            !old(self)@.occupied(p),
        ensures
            final(self).inv(),
            final(self)@ == old(self)@.insert(p, pl),
            final(self)@.count() == old(self)@.count() + 1,
            old(self)@.kept_in(final(self)@),
    {
        let i = self.index(p.x, p.y);
        proof {
            lemma_filled_update(self.cells@, i as int, pl);
            lemma_filled_bounded(self.cells@.update(i as int, Some(pl)));
        }
        self.cells.set(i, Some(pl));
        self.count = self.count + 1;
    }
}

} // verus!
