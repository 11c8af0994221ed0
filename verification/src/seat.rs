//! Seats, and the grid that holds them in rows.

use crate::deal::{deal, dealt, dealt_rearranges, draw_picks, draws_for, short_row_unchanged};
use vstd::prelude::*;

verus! {

/// One labeled place of the grid, taken or free.
#[derive(Debug, PartialEq, Eq)]
pub struct Seat {
    pub label: String,
    pub occupied: bool,
}

impl Clone for Seat {
    fn clone(&self) -> (copy: Self)
        ensures
            copy == *self,
    {
        Seat { label: self.label.clone(), occupied: self.occupied }
    }
}

impl Seat {
    /// A free seat with the given label.
    pub fn new(label: &str) -> (seat: Seat)
        ensures
            seat.label@ == label@,
            !seat.occupied,
    {
        Seat { label: label.to_owned(), occupied: false }
    }
}

/// What can be wrong with a grid.
#[derive(Clone, Copy, Debug, PartialEq, Eq, Structural)]
pub enum GridError {
    /// The rows of the grid are not all of one length.
    InvalidGrid,
}

/// Whether all rows of `rows` have the same length.
pub open spec fn rectangular(rows: Seq<Seq<Seat>>) -> bool {
    forall|i: int, j: int|
        0 <= i < rows.len() && 0 <= j < rows.len() ==> rows[i].len() == rows[j].len()
}

/// The number of rows, and the length of the first of them: zero where there
/// is none.
pub open spec fn shape_of(rows: Seq<Seq<Seat>>) -> (nat, nat) {
    (rows.len(), if rows.len() == 0 { 0nat } else { rows[0].len() })
}

/// The length of each row.
pub open spec fn row_lengths(rows: Seq<Seq<Seat>>) -> Seq<nat> {
    Seq::new(rows.len(), |i: int| rows[i].len())
}

/// The rows of a vector of rows, each as a sequence.
pub open spec fn rows_view(rows: Vec<Vec<Seat>>) -> Seq<Seq<Seat>> {
    Seq::new(rows@.len(), |i: int| rows@[i]@)
}

/// The seats of a display, in rows.
#[derive(Debug, PartialEq, Eq)]
pub struct SeatGrid {
    rows: Vec<Vec<Seat>>,
}

impl View for SeatGrid {
    type V = Seq<Seq<Seat>>;

    closed spec fn view(&self) -> Seq<Seq<Seat>> {
        rows_view(self.rows)
    }
}

impl Clone for SeatGrid {
    fn clone(&self) -> (copy: Self)
        ensures
            copy@ == self@,
    {
        let rows = self.rows.clone();
        assert(rows_view(rows) =~= rows_view(self.rows)) by {
            assert forall|i: int| 0 <= i < rows@.len() implies rows@[i]@ == self.rows@[i]@ by {
                assert(cloned::<Vec<Seat>>(self.rows@[i], rows@[i]));
                assert(rows@[i]@ =~= self.rows@[i]@);
            }
        }
        SeatGrid { rows }
    }
}

impl SeatGrid {
    /// The grid with the given rows, whatever their lengths.
    pub fn new(rows: Vec<Vec<Seat>>) -> (grid: SeatGrid)
        ensures
            grid@ == rows_view(rows),
    {
        SeatGrid { rows }
    }

    /// The rows as they stand, to read.
    pub fn rows(&self) -> (rows: &Vec<Vec<Seat>>)
        ensures
            self@ == rows_view(*rows),
    {
        &self.rows
    }

    /// The number of rows and of columns, for a grid whose rows all have the
    /// same length; `InvalidGrid` for any other.
    pub fn shape(&self) -> (shape: Result<(usize, usize), GridError>)
        ensures
            rectangular(self@) ==> shape == Ok::<(usize, usize), GridError>(
                (shape_of(self@).0 as usize, shape_of(self@).1 as usize),
            ),
            !rectangular(self@) ==> shape == Err::<(usize, usize), GridError>(
                GridError::InvalidGrid,
            ),
    {
        let count: usize = self.rows.len();
        if count == 0 {
            return Ok((0, 0));
        }
        let width: usize = self.rows[0].len();
        let mut i: usize = 1;
        while i < count
            invariant
                count == self.rows@.len(),
                1 <= i <= count,
                width == self.rows@[0]@.len(),
                forall|k: int| 0 <= k < i ==> (#[trigger] self.rows@[k])@.len() == width,
            decreases count - i,
        {
            if self.rows[i].len() != width {
                assert(self@[i as int].len() != self@[0].len());
                return Err(GridError::InvalidGrid);
            }
            i = i + 1;
        }
        assert(rectangular(self@)) by {
            assert forall|a: int, b: int| 0 <= a < self@.len() && 0 <= b < self@.len() implies self@[a].len()
                == self@[b].len() by {
                assert(self.rows@[a]@.len() == width);
                assert(self.rows@[b]@.len() == width);
            }
        }
        Ok((count, width))
    }
}

/// The seats of the first `r + 1` rows are those of the first `r` rows and
/// then those of row `r`.
proof fn flatten_take_step(rows: Seq<Seq<Seat>>, r: int)
    requires
        0 <= r < rows.len(),
    ensures
        rows.take(r + 1).flatten() == rows.take(r).flatten() + rows[r],
{
    assert(rows.take(r + 1) =~= rows.take(r).push(rows[r]));
    rows.take(r).lemma_flatten_push(rows[r]);
}

/// The seats from row `r` on are those of row `r` and then those of the rows
/// after it.
proof fn flatten_skip_step(rows: Seq<Seq<Seat>>, r: int)
    requires
        0 <= r < rows.len(),
    ensures
        rows.skip(r).flatten() == rows[r] + rows.skip(r + 1).flatten(),
{
    assert(rows.skip(r).drop_first() =~= rows.skip(r + 1));
    assert(rows.skip(r).first() == rows[r]);
}

/// Grids whose rows have the same lengths have the same shape, and the rows
/// of the one are all of one length where those of the other are.
pub proof fn same_lengths_same_shape(a: Seq<Seq<Seat>>, b: Seq<Seq<Seat>>)
    requires
        row_lengths(a) == row_lengths(b),
    ensures
        a.len() == b.len(),
        forall|i: int| 0 <= i < a.len() ==> (#[trigger] a[i]).len() == b[i].len(),
        shape_of(a) == shape_of(b),
        rectangular(a) == rectangular(b),
{
    assert(a.len() == row_lengths(a).len());
    assert(b.len() == row_lengths(b).len());
    assert forall|i: int| 0 <= i < a.len() implies (#[trigger] a[i]).len() == b[i].len() by {
        assert(row_lengths(a)[i] == a[i].len());
        assert(row_lengths(b)[i] == b[i].len());
    }
    if rectangular(a) {
        assert forall|i: int, j: int| 0 <= i < b.len() && 0 <= j < b.len() implies b[i].len()
            == b[j].len() by {
            assert(a[i].len() == a[j].len());
        }
    }
    if rectangular(b) {
        assert forall|i: int, j: int| 0 <= i < a.len() && 0 <= j < a.len() implies a[i].len()
            == a[j].len() by {
            assert(b[i].len() == b[j].len());
        }
    }
}

/// The lengths of its rows and its seats in reading order determine a grid.
pub proof fn grid_determined(a: Seq<Seq<Seat>>, b: Seq<Seq<Seat>>)
    requires
        row_lengths(a) == row_lengths(b),
        a.flatten() == b.flatten(),
    ensures
        a == b,
    decreases a.len(),
{
    assert(a.len() == row_lengths(a).len());
    assert(b.len() == row_lengths(b).len());
    if a.len() == 0 {
        assert(a =~= b);
    } else {
        let n = a[0].len() as int;
        assert(row_lengths(a)[0] == a[0].len());
        assert(row_lengths(b)[0] == b[0].len());
        let ra = a.drop_first();
        let rb = b.drop_first();
        assert(a.flatten() == a[0] + ra.flatten());
        assert(b.flatten() == b[0] + rb.flatten());
        assert(a[0] =~= a.flatten().take(n));
        assert(b[0] =~= b.flatten().take(n));
        assert(ra.flatten() =~= a.flatten().skip(n));
        assert(rb.flatten() =~= b.flatten().skip(n));
        assert(row_lengths(ra) =~= row_lengths(rb)) by {
            assert forall|i: int| 0 <= i < ra.len() implies row_lengths(ra)[i] == row_lengths(
                rb,
            )[i] by {
                assert(row_lengths(a)[i + 1] == a[i + 1].len());
                assert(row_lengths(b)[i + 1] == b[i + 1].len());
            }
        }
        grid_determined(ra, rb);
        assert(a =~= b) by {
            assert forall|i: int| 0 <= i < a.len() implies a[i] == b[i] by {
                if i > 0 {
                    assert(ra[i - 1] == a[i]);
                    assert(rb[i - 1] == b[i]);
                }
            }
        }
    }
}

impl SeatGrid {
    /// Moves the seats out of the grid, in reading order, and leaves the rows
    /// empty.
    fn take_seats(&mut self) -> (taken: (Vec<Seat>, Vec<usize>))
        ensures
            taken.0@ == old(self)@.flatten(),
            taken.1@.len() == old(self)@.len(),
            forall|i: int| 0 <= i < taken.1@.len() ==> taken.1@[i] == (#[trigger] old(self)@[i]).len(),
            final(self).rows@.len() == old(self).rows@.len(),
    {
        let ghost before = self@;
        let mut seats: Vec<Seat> = Vec::new();
        let mut lengths: Vec<usize> = Vec::new();
        let count: usize = self.rows.len();
        let mut r: usize = 0;
        assert(before.take(0) =~= Seq::<Seq<Seat>>::empty());
        while r < count
            invariant
                count == self.rows@.len(),
                count == before.len(),
                r <= count,
                forall|k: int| r <= k < count ==> (#[trigger] self.rows@[k])@ == before[k],
                seats@ == before.take(r as int).flatten(),
                lengths@.len() == r,
                forall|i: int| 0 <= i < r ==> lengths@[i] == (#[trigger] before[i]).len(),
            decreases count - r,
        {
            proof {
                flatten_take_step(before, r as int);
            }
            lengths.push(self.rows[r].len());
            seats.append(&mut self.rows[r]);
            r = r + 1;
        }
        assert(before.take(count as int) =~= before);
        (seats, lengths)
    }

    /// Fills the rows again from `seats`, in reading order, row `i` with
    /// `lengths[i]` of them.
    fn put_seats(&mut self, seats: Vec<Seat>, lengths: &Vec<usize>, Ghost(before): Ghost<Seq<Seq<Seat>>>)
        requires
            old(self).rows@.len() == before.len(),
            lengths@.len() == before.len(),
            forall|i: int| 0 <= i < lengths@.len() ==> lengths@[i] == (#[trigger] before[i]).len(),
            seats@.len() == before.flatten().len(),
        ensures
            row_lengths(final(self)@) == row_lengths(before),
            final(self)@.flatten() == seats@,
    {
        let ghost all = seats@;
        let mut rest = seats;
        let count: usize = self.rows.len();
        let mut r: usize = 0;
        assert(self@.take(0) =~= Seq::<Seq<Seat>>::empty());
        assert(before.skip(0) =~= before);
        while r < count
            invariant
                count == self.rows@.len(),
                count == before.len(),
                lengths@.len() == count,
                forall|i: int| 0 <= i < count ==> lengths@[i] == (#[trigger] before[i]).len(),
                r <= count,
                self@.take(r as int).flatten() + rest@ == all,
                rest@.len() == before.skip(r as int).flatten().len(),
                forall|i: int| 0 <= i < r ==> (#[trigger] self@[i]).len() == before[i].len(),
            decreases count - r,
        {
            let ghost grid = self@;
            proof {
                flatten_skip_step(before, r as int);
            }
            let tail = rest.split_off(lengths[r]);
            let ghost part = rest@;
            self.rows[r] = rest;
            rest = tail;
            proof {
                assert(self@.take(r as int) =~= grid.take(r as int));
                assert(self@[r as int] == part);
                assert forall|i: int| 0 <= i < r implies (#[trigger] self@[i]).len()
                    == before[i].len() by {
                    assert(self@[i] == grid[i]);
                }
                flatten_take_step(self@, r as int);
                assert(self@.take(r as int + 1).flatten() + rest@ =~= all);
            }
            r = r + 1;
        }
        assert(self@.take(count as int) =~= self@);
        assert(before.skip(count as int) =~= Seq::<Seq<Seat>>::empty());
        assert(self@.flatten() + rest@ =~= self@.flatten());
        assert(row_lengths(self@) =~= row_lengths(before));
    }

    /// Rearranges the seats by the given picks and keeps the length of every
    /// row: the seats are read row by row, drawn one by one as `dealt` says,
    /// and put back row by row in the order in which they came out.
    pub fn shuffle_with(&mut self, picks: &Vec<usize>)
        ensures
            row_lengths(final(self)@) == row_lengths(old(self)@),
            final(self)@.flatten() == dealt(old(self)@.flatten(), picks@, 0),
            final(self)@.flatten().to_multiset() == old(self)@.flatten().to_multiset(),
            shape_of(final(self)@) == shape_of(old(self)@),
            rectangular(final(self)@) == rectangular(old(self)@),
    {
        let ghost before = self@;
        let (seats, lengths) = self.take_seats();
        let out = deal(seats, picks);
        proof {
            dealt_rearranges(before.flatten(), picks@, 0);
        }
        self.put_seats(out, &lengths, Ghost(before));
        proof {
            same_lengths_same_shape(self@, before);
        }
    }

    /// Rearranges the seats by chance and keeps the length of every row. The
    /// seats afterwards are the seats before, each as often as before; a grid
    /// of at most one seat stays as it is.
    ///
    /// Every draw asks the `rand` crate for one of the seats that are left.
    /// That each of them is as likely as any other is that crate's word, and
    /// no clause here states it; what is stated is that the draws are of the
    /// kind from which every order comes, each from one run of draws.
    pub fn shuffle(&mut self)
        ensures
            row_lengths(final(self)@) == row_lengths(old(self)@),
            final(self)@.flatten().to_multiset() == old(self)@.flatten().to_multiset(),
            exists|picks: Seq<usize>|
                draws_for(picks, old(self)@.flatten().len()) && final(self)@.flatten() == dealt(
                    old(self)@.flatten(),
                    picks,
                    0,
                ),
            shape_of(final(self)@) == shape_of(old(self)@),
            rectangular(final(self)@) == rectangular(old(self)@),
            old(self)@.flatten().len() <= 1 ==> final(self)@ == old(self)@,
    {
        let ghost before = self@;
        let (seats, lengths) = self.take_seats();
        let picks = draw_picks(seats.len());
        let out = deal(seats, &picks);
        proof {
            dealt_rearranges(before.flatten(), picks@, 0);
        }
        self.put_seats(out, &lengths, Ghost(before));
        proof {
            same_lengths_same_shape(self@, before);
            if before.flatten().len() <= 1 {
                short_row_unchanged(before.flatten(), self@.flatten());
                grid_determined(self@, before);
            }
        }
    }
}

} // verus!
