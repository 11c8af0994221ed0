//! What one frame shows: the frame with its titles, and every seat with the
//! rectangle that it is drawn into.

use crate::frame::{frame_inner, interior};
use crate::layout::{layout, spec_layout, grid_view, Rect};
use crate::seat::{rectangular, rows_view, shape_of, GridError, Seat, SeatGrid};
use vstd::prelude::*;

verus! {

/// A seat and the rectangle that it is drawn into.
#[derive(Debug, PartialEq, Eq)]
pub struct Placement {
    pub area: Rect,
    pub seat: Seat,
}

/// A key binding as the frame names it: what it does, and the keys for it.
#[derive(Clone, Copy, Debug, PartialEq, Eq)]
pub struct Hint {
    pub action: &'static str,
    pub keys: &'static str,
}

/// What one frame shows.
#[derive(Debug, PartialEq, Eq)]
pub struct Scene {
    /// The area that the frame is drawn round.
    pub area: Rect,
    /// The title, for the middle of the top border.
    pub title: &'static str,
    /// The key bindings, for the middle of the bottom border.
    pub hints: Vec<Hint>,
    /// The seats row by row, each with its rectangle.
    pub cells: Vec<Vec<Placement>>,
}

/// What a scene holds.
pub struct SceneView {
    pub area: Rect,
    pub title: Seq<char>,
    pub hints: Seq<(Seq<char>, Seq<char>)>,
    pub cells: Seq<Seq<Placement>>,
}

impl View for Scene {
    type V = SceneView;

    open spec fn view(&self) -> SceneView {
        SceneView {
            area: self.area,
            title: self.title@,
            hints: Seq::new(self.hints@.len(), |i: int| (self.hints@[i].action@, self.hints@[i].keys@)),
            cells: placements_view(self.cells),
        }
    }
}

/// The rows of a vector of rows of placements, each as a sequence.
pub open spec fn placements_view(cells: Vec<Vec<Placement>>) -> Seq<Seq<Placement>> {
    Seq::new(cells@.len(), |i: int| cells@[i]@)
}

/// The smaller of two lengths.
pub open spec fn shorter(a: nat, b: nat) -> nat {
    if a <= b {
        a
    } else {
        b
    }
}

/// The seats with their rectangles, paired by position: the seat in row `i`
/// and column `j` with the rectangle in row `i` and column `j`. A row, a seat
/// or a rectangle without a partner is left out.
pub open spec fn paired(seats: Seq<Seq<Seat>>, cells: Seq<Seq<Rect>>) -> Seq<Seq<Placement>> {
    Seq::new(
        shorter(seats.len(), cells.len()),
        |i: int|
            Seq::new(
                shorter(seats[i].len(), cells[i].len()),
                |j: int| (Placement { area: cells[i][j], seat: seats[i][j] }),
            ),
    )
}

/// Pairs one row of seats with one row of rectangles.
fn pair_row(seats: &Vec<Seat>, cells: &Vec<Rect>) -> (row: Vec<Placement>)
    ensures
        row@ == Seq::new(
            shorter(seats@.len(), cells@.len()),
            |j: int| (Placement { area: cells@[j], seat: seats@[j] }),
        ),
{
    let count: usize = if seats.len() <= cells.len() { seats.len() } else { cells.len() };
    let mut row: Vec<Placement> = Vec::new();
    let mut j: usize = 0;
    while j < count
        invariant
            count == shorter(seats@.len(), cells@.len()),
            j <= count,
            row@.len() == j,
            forall|k: int| 0 <= k < j ==> row@[k] == (Placement { area: cells@[k], seat: seats@[k] }),
        decreases count - j,
    {
        row.push(Placement { area: cells[j], seat: seats[j].clone() });
        j = j + 1;
    }
    assert(row@ =~= Seq::new(
        shorter(seats@.len(), cells@.len()),
        |j: int| (Placement { area: cells@[j], seat: seats@[j] }),
    ));
    row
}

/// Pairs every seat with the rectangle at its position.
pub fn pair_up(seats: &Vec<Vec<Seat>>, cells: &Vec<Vec<Rect>>) -> (pairs: Vec<Vec<Placement>>)
    ensures
        placements_view(pairs) == paired(rows_view(*seats), grid_view(*cells)),
{
    let count: usize = if seats.len() <= cells.len() { seats.len() } else { cells.len() };
    let mut pairs: Vec<Vec<Placement>> = Vec::new();
    let mut i: usize = 0;
    while i < count
        invariant
            count == shorter(seats@.len(), cells@.len()),
            i <= count,
            pairs@.len() == i,
            forall|k: int|
                0 <= k < i ==> (#[trigger] pairs@[k])@ == paired(
                    rows_view(*seats),
                    grid_view(*cells),
                )[k],
        decreases count - i,
    {
        let row = pair_row(&seats[i], &cells[i]);
        assert(row@ =~= paired(rows_view(*seats), grid_view(*cells))[i as int]);
        pairs.push(row);
        i = i + 1;
    }
    assert(placements_view(pairs) =~= paired(rows_view(*seats), grid_view(*cells)));
    pairs
}

/// The title of the frame.
pub open spec fn spec_title() -> Seq<char> {
    " Shuffle Seats "@
}

/// The key bindings that the frame names: the space bar for the shuffling,
/// and `q` or the escape key for the end.
pub open spec fn spec_hints() -> Seq<(Seq<char>, Seq<char>)> {
    seq![(" Shuffle "@, "<Space>"@), (" Exit "@, "<Q> or <ESC> "@)]
}

/// The shape of a grid as numbers of the machine.
pub open spec fn shape_as_usize(seats: Seq<Seq<Seat>>) -> (usize, usize) {
    (shape_of(seats).0 as usize, shape_of(seats).1 as usize)
}

/// What a frame round `area` shows of `seats`: the frame with its titles,
/// and every seat in its cell of the layout of the area inside the frame.
pub open spec fn spec_scene(seats: Seq<Seq<Seat>>, area: Rect) -> SceneView {
    SceneView {
        area,
        title: spec_title(),
        hints: spec_hints(),
        cells: paired(seats, spec_layout(interior(area).spec_clipped(), shape_as_usize(seats))),
    }
}

/// What a frame round `area` shows of `seats`, for a grid whose rows all have
/// the same length; `InvalidGrid` for any other.
pub fn render(seats: &SeatGrid, area: Rect) -> (scene: Result<Scene, GridError>)
    ensures
        rectangular(seats@) ==> scene is Ok && scene->Ok_0@ == spec_scene(seats@, area),
        !rectangular(seats@) ==> scene is Err && scene->Err_0 == GridError::InvalidGrid,
{
    match seats.shape() {
        Ok(shape) => {
            let cells = layout(frame_inner(area), shape);
            let mut hints: Vec<Hint> = Vec::new();
            hints.push(Hint { action: " Shuffle ", keys: "<Space>" });
            hints.push(Hint { action: " Exit ", keys: "<Q> or <ESC> " });
            let scene = Scene {
                area,
                title: " Shuffle Seats ",
                hints,
                cells: pair_up(seats.rows(), &cells),
            };
            assert(scene@.hints =~= spec_hints());
            Ok(scene)
        },
        Err(error) => Err(error),
    }
}

} // verus!
