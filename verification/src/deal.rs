//! Drawing seats one by one: the order in which they come out, and why it is
//! a rearrangement of the seats that went in.

use crate::random::random_below;
use crate::seat::Seat;
use vstd::multiset::Multiset;
use vstd::prelude::*;

verus! {

/// The index that draw number `k` takes from `len` seats: the pick with that
/// number, counted round the seats that are left; zero where `picks` holds no
/// such pick.
pub open spec fn drawn(picks: Seq<usize>, k: int, len: nat) -> int {
    if 0 <= k < picks.len() && len > 0 {
        picks[k] as int % len as int
    } else {
        0
    }
}

/// The order in which `seats` come out when they are drawn one by one, from
/// draw number `k` on: each draw takes the seat at the drawn index, and the
/// last seat that is left moves to the place of the one taken.
pub open spec fn dealt(seats: Seq<Seat>, picks: Seq<usize>, k: int) -> Seq<Seat>
    decreases seats.len(),
{
    if seats.len() == 0 {
        Seq::empty()
    } else {
        let j = drawn(picks, k, seats.len());
        seq![seats[j]] + dealt(seats.update(j, seats.last()).drop_last(), picks, k + 1)
    }
}

/// Whether `picks` holds a draw for each of `count` seats, every draw an
/// index of a seat that is left when it is made.
pub open spec fn draws_for(picks: Seq<usize>, count: nat) -> bool {
    &&& picks.len() == count
    &&& forall|k: int| 0 <= k < count ==> #[trigger] picks[k] < count - k
}

/// Draws the seats one by one, in the order that `picks` gives.
pub(crate) fn deal(seats: Vec<Seat>, picks: &Vec<usize>) -> (out: Vec<Seat>)
    ensures
        out@ == dealt(seats@, picks@, 0),
{
    let ghost all = seats@;
    let mut left = seats;
    let mut out: Vec<Seat> = Vec::new();
    let mut k: usize = 0;
    let count: usize = left.len();
    while left.len() > 0
        invariant
            out@ + dealt(left@, picks@, k as int) == dealt(all, picks@, 0),
            k + left@.len() == count,
        decreases left@.len(),
    {
        let j: usize = if k < picks.len() { picks[k] % left.len() } else { 0 };
        let ghost before = left@;
        let seat = left.swap_remove(j);
        assert(out@.push(seat) + dealt(left@, picks@, k + 1) =~= out@ + dealt(
            before,
            picks@,
            k as int,
        ));
        out.push(seat);
        k = k + 1;
    }
    assert(out@ + dealt(left@, picks@, k as int) =~= out@);
    out
}

/// Draws by chance, for each of `count` seats, one of the seats that are
/// left when its turn comes.
pub(crate) fn draw_picks(count: usize) -> (picks: Vec<usize>)
    ensures
        draws_for(picks@, count as nat),
{
    let mut picks: Vec<usize> = Vec::new();
    let mut k: usize = 0;
    while k < count
        invariant
            k <= count,
            picks@.len() == k,
            forall|i: int| 0 <= i < k ==> #[trigger] picks@[i] < count - i,
        decreases count - k,
    {
        picks.push(random_below(count - k));
        k = k + 1;
    }
    picks
}

/// A draw from seats that are left names one of them.
pub proof fn drawn_is_index(picks: Seq<usize>, k: int, len: nat)
    requires
        len > 0,
    ensures
        0 <= drawn(picks, k, len) < len,
{
    if 0 <= k < picks.len() {
        let pick = picks[k] as int;
        let count = len as int;
        assert(0 <= pick % count && pick % count < count) by (nonlinear_arith)
            requires
                count > 0,
                pick >= 0,
        ;
    }
}

/// A draw within the seats that are left is the index that it names.
proof fn drawn_in_range(picks: Seq<usize>, k: int, len: nat)
    requires
        0 <= k < picks.len(),
        picks[k] < len,
    ensures
        drawn(picks, k, len) == picks[k],
{
    let pick = picks[k] as int;
    let count = len as int;
    assert(pick % count == pick) by (nonlinear_arith)
        requires
            0 <= pick < count,
    ;
}

/// Taking one seat out of a row, the last seat moving to its place, leaves
/// the seats of the row but for the one taken.
proof fn taken_out(seats: Seq<Seat>, j: int)
    requires
        0 <= j < seats.len(),
    ensures
        seats.update(j, seats.last()).drop_last().to_multiset().insert(seats[j])
            == seats.to_multiset(),
        seats.update(j, seats.last()).drop_last().len() == seats.len() - 1,
{
    broadcast use vstd::seq_lib::group_to_multiset_ensures;

    let rest = seats.drop_last();
    assert(rest.push(seats.last()) =~= seats);
    if j == seats.len() - 1 {
        assert(seats.update(j, seats.last()).drop_last() =~= rest);
    } else {
        assert(seats.update(j, seats.last()).drop_last() =~= rest.update(j, seats.last()));
        assert(rest[j] == seats[j]);
        assert(rest.update(j, seats.last()).to_multiset().insert(seats[j])
            =~= seats.to_multiset());
    }
}

/// Taking one seat out of a row of different seats leaves different seats.
proof fn taken_out_of_different(seats: Seq<Seat>, j: int)
    requires
        0 <= j < seats.len(),
        seats.no_duplicates(),
    ensures
        seats.update(j, seats.last()).drop_last().no_duplicates(),
{
}

/// Drawing seats one by one rearranges them: whatever the picks, the seats
/// that come out are the seats that went in, each as often as before.
pub proof fn dealt_rearranges(seats: Seq<Seat>, picks: Seq<usize>, k: int)
    ensures
        dealt(seats, picks, k).to_multiset() == seats.to_multiset(),
        dealt(seats, picks, k).len() == seats.len(),
    decreases seats.len(),
{
    broadcast use vstd::seq_lib::group_to_multiset_ensures;

    if seats.len() == 0 {
        assert(dealt(seats, picks, k) =~= seats);
    } else {
        let j = drawn(picks, k, seats.len());
        drawn_is_index(picks, k, seats.len());
        let rest = seats.update(j, seats.last()).drop_last();
        taken_out(seats, j);
        dealt_rearranges(rest, picks, k + 1);
        let tail = dealt(rest, picks, k + 1);
        vstd::seq_lib::lemma_multiset_commutative(seq![seats[j]], tail);
        assert(seq![seats[j]] =~= Seq::<Seat>::empty().push(seats[j]));
        assert(seq![seats[j]].to_multiset() =~= Multiset::<Seat>::empty().insert(seats[j]));
        assert(dealt(seats, picks, k).to_multiset() =~= seats.to_multiset());
    }
}

/// A row of at most one seat has one order only.
pub(crate) proof fn short_row_unchanged(a: Seq<Seat>, b: Seq<Seat>)
    requires
        a.len() <= 1,
        a.to_multiset() == b.to_multiset(),
    ensures
        a == b,
{
    broadcast use vstd::seq_lib::group_to_multiset_ensures;

    a.to_multiset_ensures();
    b.to_multiset_ensures();
    assert(a.len() == b.len());
    if a.len() == 1 {
        assert(a.contains(a[0]));
        assert(b.to_multiset().count(a[0]) > 0);
        assert(b.contains(a[0]));
    }
    assert(a =~= b);
}

/// The order in which seats come out depends on the picks from the current
/// draw on only.
proof fn dealt_by_later_picks(seats: Seq<Seat>, a: Seq<usize>, b: Seq<usize>, k: int)
    requires
        0 <= k,
        a.len() == b.len(),
        forall|i: int| k <= i < a.len() ==> a[i] == b[i],
    ensures
        dealt(seats, a, k) == dealt(seats, b, k),
    decreases seats.len(),
{
    if seats.len() > 0 {
        let j = drawn(a, k, seats.len());
        assert(j == drawn(b, k, seats.len()));
        dealt_by_later_picks(seats.update(j, seats.last()).drop_last(), a, b, k + 1);
    }
}

/// The picks that deal `seats` into `order`, from draw number `k` on.
proof fn picks_for(seats: Seq<Seat>, order: Seq<Seat>, k: nat) -> (picks: Seq<usize>)
    requires
        seats.len() <= usize::MAX,
        order.to_multiset() == seats.to_multiset(),
    ensures
        picks.len() == k + seats.len(),
        forall|i: int| 0 <= i < seats.len() ==> #[trigger] picks[k + i] < seats.len() - i,
        dealt(seats, picks, k as int) == order,
    decreases seats.len(),
{
    broadcast use vstd::seq_lib::group_to_multiset_ensures;

    seats.to_multiset_ensures();
    order.to_multiset_ensures();
    if seats.len() == 0 {
        assert(order =~= Seq::<Seat>::empty());
        Seq::new(k, |i: int| 0usize)
    } else {
        let first = order[0];
        assert(order.contains(first));
        assert(seats.to_multiset().count(first) > 0);
        assert(seats.contains(first));
        let j = choose|j: int| 0 <= j < seats.len() && seats[j] == first;
        let rest = seats.update(j, seats.last()).drop_last();
        let later = order.drop_first();
        taken_out(seats, j);
        assert(later.to_multiset() =~= rest.to_multiset()) by {
            assert(seq![first] + later =~= order);
            vstd::seq_lib::lemma_multiset_commutative(seq![first], later);
            assert(seq![first] =~= Seq::<Seat>::empty().push(first));
            assert(seq![first].to_multiset() =~= Multiset::<Seat>::empty().insert(first));
            assert(later.to_multiset().insert(first) =~= rest.to_multiset().insert(first));
            assert(later.to_multiset() =~= later.to_multiset().insert(first).remove(first));
            assert(rest.to_multiset() =~= rest.to_multiset().insert(first).remove(first));
        }
        let tail = picks_for(rest, later, (k + 1) as nat);
        let picks = tail.update(k as int, j as usize);
        dealt_by_later_picks(rest, picks, tail, k as int + 1);
        drawn_in_range(picks, k as int, seats.len());
        assert forall|i: int| 0 <= i < seats.len() implies #[trigger] picks[k + i] < seats.len()
            - i by {
            if i > 0 {
                assert(picks[k + i] == tail[(k + 1) + (i - 1)]);
            }
        }
        assert(dealt(seats, picks, k as int) =~= seq![first] + later);
        picks
    }
}

/// Every order can be dealt: for each rearrangement of the seats there are
/// draws, each of them among the seats that are left at its turn, that bring
/// the seats into that order.
pub proof fn every_order_can_be_dealt(seats: Seq<Seat>, order: Seq<Seat>)
    requires
        seats.len() <= usize::MAX,
        order.to_multiset() == seats.to_multiset(),
    ensures
        exists|picks: Seq<usize>| draws_for(picks, seats.len()) && dealt(seats, picks, 0) == order,
{
    let picks = picks_for(seats, order, 0);
    assert(draws_for(picks, seats.len())) by {
        assert forall|k: int| 0 <= k < seats.len() implies #[trigger] picks[k] < seats.len()
            - k by {
            assert(picks[0 + k] < seats.len() - k);
        }
    }
}

/// The order tells the draws: where no seat occurs twice, draws that bring
/// the seats into the same order took the same seat at every turn. Together
/// with `every_order_can_be_dealt`: each order comes from one run of draws
/// and no other, so that draws of equal chance give orders of equal chance.
pub proof fn order_tells_the_draws(seats: Seq<Seat>, a: Seq<usize>, b: Seq<usize>, k: int, i: int)
    requires
        seats.no_duplicates(),
        dealt(seats, a, k) == dealt(seats, b, k),
        0 <= i < seats.len(),
    ensures
        drawn(a, k + i, (seats.len() - i) as nat) == drawn(b, k + i, (seats.len() - i) as nat),
    decreases seats.len(),
{
    let ja = drawn(a, k, seats.len());
    let jb = drawn(b, k, seats.len());
    drawn_is_index(a, k, seats.len());
    drawn_is_index(b, k, seats.len());
    let ta = dealt(seats.update(ja, seats.last()).drop_last(), a, k + 1);
    let tb = dealt(seats.update(jb, seats.last()).drop_last(), b, k + 1);
    assert(dealt(seats, a, k)[0] == seats[ja]);
    assert(dealt(seats, b, k)[0] == seats[jb]);
    assert(ja == jb);
    if i > 0 {
        assert(ta =~= dealt(seats, a, k).drop_first());
        assert(tb =~= dealt(seats, b, k).drop_first());
        taken_out_of_different(seats, ja);
        order_tells_the_draws(seats.update(ja, seats.last()).drop_last(), a, b, k + 1, i - 1);
    }
}

} // verus!
