//! Screen rectangles, and the partition of a rectangle into a grid of cells.
//!
//! A length is cut into parts that differ by at most one: every part gets the
//! whole quotient, and the leading parts take up the remainder, one each. A
//! rectangle is cut into bands that way by its height, and every band into
//! cells by its width.

use vstd::prelude::*;

verus! {

/// A rectangle on the screen: the corner nearest the origin, and its extent.
#[derive(Clone, Copy, Debug, PartialEq, Eq, Structural)]
pub struct Rect {
    pub x: u16,
    pub y: u16,
    pub width: u16,
    pub height: u16,
}

impl Rect {
    /// The first column to the right of the rectangle.
    pub open spec fn right(self) -> int {
        self.x + self.width
    }

    /// The first line below the rectangle.
    pub open spec fn bottom(self) -> int {
        self.y + self.height
    }

    /// Whether the screen position `(px, py)` lies in the rectangle.
    pub open spec fn contains(self, px: int, py: int) -> bool {
        self.x <= px < self.right() && self.y <= py < self.bottom()
    }

    /// Whether the rectangle holds no position at all.
    pub open spec fn spec_is_empty(self) -> bool {
        self.width == 0 || self.height == 0
    }

    /// Whether every position of the rectangle has coordinates that fit in
    /// 16 bits, so that each of its parts can be written as a `Rect` again.
    pub open spec fn on_screen(self) -> bool {
        self.right() <= u16::MAX && self.bottom() <= u16::MAX
    }

    /// The part of the rectangle whose coordinates fit in 16 bits: the same
    /// corner, and the extent cut back to the edge of the coordinate space.
    pub open spec fn spec_clipped(self) -> Rect {
        Rect {
            x: self.x,
            y: self.y,
            width: if self.right() <= u16::MAX {
                self.width
            } else {
                (u16::MAX - self.x) as u16
            },
            height: if self.bottom() <= u16::MAX {
                self.height
            } else {
                (u16::MAX - self.y) as u16
            },
        }
    }

    #[verifier::when_used_as_spec(spec_is_empty)]
    pub fn is_empty(self) -> (empty: bool)
        ensures
            empty == self.spec_is_empty(),
    {
        self.width == 0 || self.height == 0
    }

    #[verifier::when_used_as_spec(spec_clipped)]
    pub fn clipped(self) -> (clip: Rect)
        ensures
            clip == self.spec_clipped(),
            clip.on_screen(),
            self.on_screen() ==> clip == self,
    {
        let room_x: u16 = u16::MAX - self.x;
        let room_y: u16 = u16::MAX - self.y;
        Rect {
            x: self.x,
            y: self.y,
            width: if self.width <= room_x { self.width } else { room_x },
            height: if self.height <= room_y { self.height } else { room_y },
        }
    }
}

/// The length of part `k` when `len` is cut into `parts` parts.
pub open spec fn share(len: int, parts: int, k: int) -> int {
    len / parts + if k < len % parts { 1int } else { 0int }
}

/// Where part `k` begins when `len` is cut into `parts` parts: the lengths of
/// the parts before it, added up.
pub open spec fn offset(len: int, parts: int, k: int) -> int {
    k * (len / parts) + if k < len % parts { k } else { len % parts }
}

/// Part `k` ends where part `k + 1` begins.
pub proof fn offset_step(len: int, parts: int, k: int)
    requires
        0 <= len,
        0 < parts,
        0 <= k,
    ensures
        offset(len, parts, k + 1) == offset(len, parts, k) + share(len, parts, k),
        share(len, parts, k) >= 0,
{
    let q = len / parts;
    assert((k + 1) * q == k * q + q) by (nonlinear_arith);
    assert(q >= 0) by (nonlinear_arith)
        requires
            q == len / parts,
            0 <= len,
            0 < parts,
    ;
}

/// The parts begin at zero and end at `len`.
pub proof fn offset_ends(len: int, parts: int)
    requires
        0 <= len,
        0 < parts,
    ensures
        offset(len, parts, 0) == 0,
        offset(len, parts, parts) == len,
{
    let q = len / parts;
    let r = len % parts;
    assert(0 * q == 0) by (nonlinear_arith);
    assert(0 <= r < parts && len == parts * q + r) by (nonlinear_arith)
        requires
            q == len / parts,
            r == len % parts,
            0 <= len,
            0 < parts,
    ;
}

/// A later part begins no earlier than a part before it.
pub proof fn offset_monotone(len: int, parts: int, k: int, m: int)
    requires
        0 <= len,
        0 < parts,
        0 <= k <= m,
    ensures
        offset(len, parts, k) <= offset(len, parts, m),
    decreases m - k,
{
    if k < m {
        offset_monotone(len, parts, k, m - 1);
        offset_step(len, parts, m - 1);
    }
}

/// The cell in band `i` and column `j` when `area` is cut into `shape.0`
/// bands and every band into `shape.1` cells.
pub open spec fn cell(area: Rect, shape: (usize, usize), i: int, j: int) -> Rect {
    Rect {
        x: (area.x + offset(area.width as int, shape.1 as int, j)) as u16,
        y: (area.y + offset(area.height as int, shape.0 as int, i)) as u16,
        width: share(area.width as int, shape.1 as int, j) as u16,
        height: share(area.height as int, shape.0 as int, i) as u16,
    }
}

/// Whether there is nothing to lay out: no position in the area, or no band,
/// or no column.
pub open spec fn degenerate(area: Rect, shape: (usize, usize)) -> bool {
    area.spec_is_empty() || shape.0 == 0 || shape.1 == 0
}

/// The layout of `area` for a grid of `shape.0` rows and `shape.1` columns:
/// nothing where there is nothing to lay out, else one band of cells for each
/// row.
pub open spec fn spec_layout(area: Rect, shape: (usize, usize)) -> Seq<Seq<Rect>> {
    if degenerate(area, shape) {
        Seq::empty()
    } else {
        Seq::new(shape.0 as nat, |i: int| Seq::new(shape.1 as nat, |j: int| cell(area, shape, i, j)))
    }
}

/// The rows of a grid of rectangles, each as a sequence.
pub open spec fn grid_view(grid: Vec<Vec<Rect>>) -> Seq<Seq<Rect>> {
    Seq::new(grid@.len(), |i: int| grid@[i]@)
}

/// One band of a layout: the cells of row `i`.
fn band(area: Rect, shape: (usize, usize), i: usize, y: u16, height: u16) -> (cells: Vec<Rect>)
    requires
        area.on_screen(),
        !degenerate(area, shape),
        i < shape.0,
        y == area.y + offset(area.height as int, shape.0 as int, i as int),
        height == share(area.height as int, shape.0 as int, i as int),
    ensures
        cells@ == Seq::new(shape.1 as nat, |j: int| cell(area, shape, i as int, j)),
{
    let cols: usize = shape.1;
    let len: usize = area.width as usize;
    let base: usize = len / cols;
    let extra: usize = len % cols;
    let mut cells: Vec<Rect> = Vec::new();
    let mut x: u16 = area.x;
    let mut j: usize = 0;
    proof {
        offset_ends(len as int, cols as int);
    }
    while j < cols
        invariant
            area.on_screen(),
            cols == shape.1,
            cols > 0,
            len == area.width,
            base == len / cols,
            extra == len % cols,
            j <= cols,
            x == area.x + offset(len as int, cols as int, j as int),
            y == area.y + offset(area.height as int, shape.0 as int, i as int),
            height == share(area.height as int, shape.0 as int, i as int),
            cells@.len() == j,
            forall|k: int| 0 <= k < j ==> cells@[k] == cell(area, shape, i as int, k),
        decreases cols - j,
    {
        proof {
            offset_step(len as int, cols as int, j as int);
            offset_monotone(len as int, cols as int, j as int + 1, cols as int);
            offset_ends(len as int, cols as int);
        }
        let width: usize = if j < extra { base + 1 } else { base };
        let piece = Rect { x, y, width: width as u16, height };
        cells.push(piece);
        x = x + width as u16;
        j = j + 1;
    }
    assert(cells@ =~= Seq::new(shape.1 as nat, |j: int| cell(area, shape, i as int, j)));
    cells
}

/// Cuts the part of `area` that is on the screen into one rectangle for each
/// seat of a grid of `shape.0` rows and `shape.1` columns.
///
/// The result is a function of the two arguments and of nothing else: the
/// same area and shape give the same rectangles, whatever was laid out
/// before.
pub fn layout(area: Rect, shape: (usize, usize)) -> (grid: Vec<Vec<Rect>>)
    ensures
        grid_view(grid) == spec_layout(area.spec_clipped(), shape),
        !degenerate(area.spec_clipped(), shape) ==> tiles(grid_view(grid), area.spec_clipped()),
{
    let area = area.clipped();
    let rows: usize = shape.0;
    let mut grid: Vec<Vec<Rect>> = Vec::new();
    if rows == 0 || shape.1 == 0 || area.is_empty() {
        assert(grid_view(grid) =~= spec_layout(area, shape));
        return grid;
    }
    let len: usize = area.height as usize;
    let base: usize = len / rows;
    let extra: usize = len % rows;
    let mut y: u16 = area.y;
    let mut i: usize = 0;
    proof {
        offset_ends(len as int, rows as int);
    }
    while i < rows
        invariant
            area.on_screen(),
            !degenerate(area, shape),
            rows == shape.0,
            len == area.height,
            base == len / rows,
            extra == len % rows,
            i <= rows,
            y == area.y + offset(len as int, rows as int, i as int),
            grid@.len() == i,
            forall|k: int|
                0 <= k < i ==> (#[trigger] grid@[k])@ == Seq::new(
                    shape.1 as nat,
                    |j: int| cell(area, shape, k, j),
                ),
        decreases rows - i,
    {
        proof {
            offset_step(len as int, rows as int, i as int);
            offset_monotone(len as int, rows as int, i as int + 1, rows as int);
            offset_ends(len as int, rows as int);
        }
        let height: usize = if i < extra { base + 1 } else { base };
        let cells = band(area, shape, i, y, height as u16);
        grid.push(cells);
        y = y + height as u16;
        i = i + 1;
    }
    assert(grid_view(grid) =~= spec_layout(area, shape));
    proof {
        layout_tiles(area, shape);
    }
    grid
}

/// The part that holds position `p` of a length cut into parts.
pub proof fn part_of(len: int, parts: int, p: int) -> (k: int)
    requires
        0 < parts,
        0 <= p < len,
    ensures
        0 <= k < parts,
        offset(len, parts, k) <= p < offset(len, parts, k + 1),
{
    offset_ends(len, parts);
    part_from(len, parts, p, 0)
}

/// The part that holds position `p`, sought from part `from` on.
proof fn part_from(len: int, parts: int, p: int, from: int) -> (k: int)
    requires
        0 <= from < parts,
        0 <= p < len,
        offset(len, parts, from) <= p,
    ensures
        from <= k < parts,
        offset(len, parts, k) <= p < offset(len, parts, k + 1),
    decreases parts - from,
{
    if p < offset(len, parts, from + 1) {
        from
    } else {
        offset_ends(len, parts);
        part_from(len, parts, p, from + 1)
    }
}

/// No position lies in two parts of a length cut into parts.
pub proof fn part_unique(len: int, parts: int, p: int, k: int, m: int)
    requires
        0 <= len,
        0 < parts,
        0 <= k,
        0 <= m,
        offset(len, parts, k) <= p < offset(len, parts, k + 1),
        offset(len, parts, m) <= p < offset(len, parts, m + 1),
    ensures
        k == m,
{
    if k < m {
        offset_monotone(len, parts, k + 1, m);
    }
    if m < k {
        offset_monotone(len, parts, m + 1, k);
    }
}

/// The edges of a cell, as positions: a cell spans its part of the width and
/// its part of the height.
pub proof fn cell_edges(area: Rect, shape: (usize, usize), i: int, j: int)
    requires
        area.on_screen(),
        0 <= i < shape.0,
        0 <= j < shape.1,
    ensures
        cell(area, shape, i, j).x == area.x + offset(area.width as int, shape.1 as int, j),
        cell(area, shape, i, j).right() == area.x + offset(
            area.width as int,
            shape.1 as int,
            j + 1,
        ),
        cell(area, shape, i, j).y == area.y + offset(area.height as int, shape.0 as int, i),
        cell(area, shape, i, j).bottom() == area.y + offset(
            area.height as int,
            shape.0 as int,
            i + 1,
        ),
        area.x <= cell(area, shape, i, j).x,
        cell(area, shape, i, j).right() <= area.right(),
        area.y <= cell(area, shape, i, j).y,
        cell(area, shape, i, j).bottom() <= area.bottom(),
{
    let w = area.width as int;
    let h = area.height as int;
    let rows = shape.0 as int;
    let cols = shape.1 as int;
    offset_step(w, cols, j);
    offset_ends(w, cols);
    offset_monotone(w, cols, 0, j);
    offset_monotone(w, cols, j + 1, cols);
    offset_step(h, rows, i);
    offset_ends(h, rows);
    offset_monotone(h, rows, 0, i);
    offset_monotone(h, rows, i + 1, rows);
}

/// Whether the cell in row `i` and column `j` of `grid` holds the position
/// `(px, py)`.
pub open spec fn holds(grid: Seq<Seq<Rect>>, i: int, j: int, px: int, py: int) -> bool {
    0 <= i < grid.len() && 0 <= j < grid[i].len() && grid[i][j].contains(px, py)
}

/// Whether the cells of `grid` tile `area`: no cell reaches outside the area,
/// every position of the area lies in a cell, and in one only.
pub open spec fn tiles(grid: Seq<Seq<Rect>>, area: Rect) -> bool {
    &&& forall|i: int, j: int, px: int, py: int| #[trigger]
        holds(grid, i, j, px, py) ==> area.contains(px, py)
    &&& forall|px: int, py: int| #[trigger]
        area.contains(px, py) ==> exists|i: int, j: int| holds(grid, i, j, px, py)
    &&& forall|i: int, j: int, k: int, l: int, px: int, py: int|
        #![trigger holds(grid, i, j, px, py), holds(grid, k, l, px, py)]
        holds(grid, i, j, px, py) && holds(grid, k, l, px, py) ==> i == k && j == l
}

/// A layout tiles its area: the rectangles that `layout` returns for an area
/// on the screen and a grid with at least one row and one column cover the
/// area exactly, with no gap and no overlap.
pub proof fn layout_tiles(area: Rect, shape: (usize, usize))
    requires
        area.on_screen(),
        !degenerate(area, shape),
    ensures
        tiles(spec_layout(area, shape), area),
{
    let grid = spec_layout(area, shape);
    let w = area.width as int;
    let h = area.height as int;
    let rows = shape.0 as int;
    let cols = shape.1 as int;
    assert forall|i: int, j: int, px: int, py: int| #[trigger]
        holds(grid, i, j, px, py) implies area.contains(px, py) by {
        cell_edges(area, shape, i, j);
    }
    assert forall|px: int, py: int| #[trigger] area.contains(px, py) implies exists|
        i: int,
        j: int,
    |
        holds(grid, i, j, px, py) by {
        let i = part_of(h, rows, py - area.y);
        let j = part_of(w, cols, px - area.x);
        cell_edges(area, shape, i, j);
        assert(holds(grid, i, j, px, py));
    }
    assert forall|i: int, j: int, k: int, l: int, px: int, py: int|
        #![trigger holds(grid, i, j, px, py), holds(grid, k, l, px, py)]
        holds(grid, i, j, px, py) && holds(grid, k, l, px, py) implies i == k && j == l by {
        cell_edges(area, shape, i, j);
        cell_edges(area, shape, k, l);
        part_unique(h, rows, py - area.y, i, k);
        part_unique(w, cols, px - area.x, j, l);
    }
}

/// Every cell of a layout holds a position, where the area has at least as
/// many lines as the grid has rows and at least as many columns as the grid
/// has columns.
pub proof fn layout_cells_hold_positions(area: Rect, shape: (usize, usize), i: int, j: int)
    requires
        !degenerate(area, shape),
        shape.0 <= area.height,
        shape.1 <= area.width,
        0 <= i < shape.0,
        0 <= j < shape.1,
    ensures
        spec_layout(area, shape)[i][j].width > 0,
        spec_layout(area, shape)[i][j].height > 0,
{
    let w = area.width as int;
    let h = area.height as int;
    let rows = shape.0 as int;
    let cols = shape.1 as int;
    assert(w / cols >= 1 && w / cols <= w) by (nonlinear_arith)
        requires
            0 < cols <= w,
    ;
    assert(h / rows >= 1 && h / rows <= h) by (nonlinear_arith)
        requires
            0 < rows <= h,
    ;
    assert(w % cols == 0 ==> w / cols + 1 > 0);
    assert(w / cols + 1 <= w || w % cols == 0) by (nonlinear_arith)
        requires
            0 < cols <= w,
    ;
    assert(h / rows + 1 <= h || h % rows == 0) by (nonlinear_arith)
        requires
            0 < rows <= h,
    ;
}

/// Two layouts of the same area for the same shape are the same layout, row
/// by row and cell by cell.
pub proof fn layout_deterministic(
    area: Rect,
    shape: (usize, usize),
    first: Vec<Vec<Rect>>,
    second: Vec<Vec<Rect>>,
)
    requires
        grid_view(first) == spec_layout(area.spec_clipped(), shape),
        grid_view(second) == spec_layout(area.spec_clipped(), shape),
    ensures
        first@.len() == second@.len(),
        forall|i: int| 0 <= i < first@.len() ==> (#[trigger] first@[i])@ == second@[i]@,
{
    assert(grid_view(first).len() == first@.len());
    assert(grid_view(second).len() == second@.len());
    assert forall|i: int| 0 <= i < first@.len() implies (#[trigger] first@[i])@ == second@[i]@ by {
        assert(grid_view(first)[i] == first@[i]@);
        assert(grid_view(second)[i] == second@[i]@);
    }
}

} // verus!
