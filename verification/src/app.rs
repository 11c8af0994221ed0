//! The state of the display: the seats, whether they are being shuffled, and
//! whether the display is to end.

use crate::event::{Event, Key, KeyEvent, KeyKind};
use crate::layout::Rect;
use crate::scene::{render, spec_scene, Scene};
use crate::deal::{dealt, dealt_rearranges, draws_for};
use crate::seat::{rectangular, row_lengths, GridError, Seat, SeatGrid};
use vstd::prelude::*;

verus! {

/// How long one turn of the loop waits for input, in milliseconds.
pub const POLL_TIMEOUT_MS: u64 = 50;

/// The display.
#[derive(Debug)]
pub struct App {
    seats: SeatGrid,
    shuffling: bool,
    exit: bool,
}

/// What a display holds.
pub struct AppView {
    pub seats: Seq<Seq<Seat>>,
    pub shuffling: bool,
    pub exit: bool,
}

impl View for App {
    type V = AppView;

    closed spec fn view(&self) -> AppView {
        AppView { seats: self.seats@, shuffling: self.shuffling, exit: self.exit }
    }
}

/// The state after the key `key` went down in `state`: the escape key and
/// `q` end the display, the space bar turns the shuffling on or off, and
/// every other key leaves the state as it is.
pub open spec fn after_key(state: AppView, key: Key) -> AppView {
    match key {
        Key::Esc => AppView { exit: true, ..state },
        Key::Char(c) => if c == 'q' {
            AppView { exit: true, ..state }
        } else if c == ' ' {
            AppView { shuffling: !state.shuffling, ..state }
        } else {
            state
        },
        Key::Other => state,
    }
}

/// The state after `event` in `state`: a key that went down acts as
/// `after_key` says, and nothing else acts at all.
pub open spec fn after_event(state: AppView, event: Event) -> AppView {
    match event {
        Event::Key(key) => if key.kind == KeyKind::Press {
            after_key(state, key.code)
        } else {
            state
        },
        Event::Other => state,
    }
}

/// The state after what the input source gave within its time: an event, or
/// nothing.
pub open spec fn after_input(state: AppView, input: Option<Event>) -> AppView {
    match input {
        Some(event) => after_event(state, event),
        None => state,
    }
}

/// Whether `post` can follow `pre` by one tick: the flags stay; while the
/// display shuffles, the seats are rearranged by draws and every row keeps
/// its length, and while it does not, the seats stay as they are.
pub open spec fn ticked(pre: AppView, post: AppView) -> bool {
    &&& post.shuffling == pre.shuffling
    &&& post.exit == pre.exit
    &&& if pre.shuffling {
        &&& row_lengths(post.seats) == row_lengths(pre.seats)
        &&& exists|picks: Seq<usize>|
            draws_for(picks, pre.seats.flatten().len()) && post.seats.flatten() == dealt(
                pre.seats.flatten(),
                picks,
                0,
            )
    } else {
        post.seats == pre.seats
    }
}

/// Whether `post` can follow `pre` by one turn of the loop in which the input
/// source gave `input`: a tick, and then the input. A display that is to end
/// takes no turn: it stays as it is.
pub open spec fn stepped(pre: AppView, input: Option<Event>, post: AppView) -> bool {
    if pre.exit {
        post == pre
    } else {
        exists|mid: AppView| ticked(pre, mid) && post == after_input(mid, input)
    }
}

/// Turns without input change nothing while the display does not shuffle:
/// where every state of `states` follows the one before it by a turn in
/// which the input source gave nothing, and the first of them does not
/// shuffle, all of them are the first.
pub proof fn idle_turns_change_nothing(states: Seq<AppView>, n: int)
    requires
        0 <= n < states.len(),
        !states[0].shuffling,
        forall|i: int|
            0 <= i < states.len() - 1 ==> stepped(
                #[trigger] states[i],
                None::<Event>,
                states[i + 1],
            ),
    ensures
        states[n] == states[0],
    decreases n,
{
    if n > 0 {
        idle_turns_change_nothing(states, n - 1);
        assert(stepped(states[n - 1], None::<Event>, states[n]));
    }
}

/// A display that is to end stays as it is, whatever the input source gives.
pub proof fn end_is_final(pre: AppView, input: Option<Event>, post: AppView)
    requires
        pre.exit,
        stepped(pre, input, post),
    ensures
        post == pre,
{
}

/// A turn keeps the seats and the lengths of the rows, whatever it does to
/// their order.
pub proof fn turn_keeps_seats(pre: AppView, input: Option<Event>, post: AppView)
    requires
        stepped(pre, input, post),
    ensures
        post.seats.flatten().to_multiset() == pre.seats.flatten().to_multiset(),
        row_lengths(post.seats) == row_lengths(pre.seats),
        !pre.shuffling ==> post.seats == pre.seats,
{
    if !pre.exit {
        let mid = choose|mid: AppView| ticked(pre, mid) && post == after_input(mid, input);
        assert(post.seats == mid.seats);
        if pre.shuffling {
            let picks = choose|picks: Seq<usize>|
                draws_for(picks, pre.seats.flatten().len()) && mid.seats.flatten() == dealt(
                    pre.seats.flatten(),
                    picks,
                    0,
                );
            dealt_rearranges(pre.seats.flatten(), picks, 0);
        }
    }
}

impl App {
    /// A display of `seats` that neither shuffles nor ends.
    pub fn new(seats: SeatGrid) -> (app: App)
        ensures
            app@ == (AppView { seats: seats@, shuffling: false, exit: false }),
    {
        App { seats, shuffling: false, exit: false }
    }

    /// A copy of the seats as they stand.
    pub fn get_seats(&self) -> (seats: SeatGrid)
        ensures
            seats@ == self@.seats,
    {
        self.seats.clone()
    }

    /// Whether the display shuffles its seats on every tick.
    pub fn is_shuffling(&self) -> (shuffling: bool)
        ensures
            shuffling == self@.shuffling,
    {
        self.shuffling
    }

    /// Whether the display is to end.
    pub fn should_exit(&self) -> (exit: bool)
        ensures
            exit == self@.exit,
    {
        self.exit
    }

    /// Ends the display.
    pub fn exit(&mut self)
        ensures
            final(self)@ == (AppView { exit: true, ..old(self)@ }),
    {
        self.exit = true;
    }

    /// Acts on a key that went down.
    pub fn handle_key_event(&mut self, key_event: KeyEvent)
        ensures
            final(self)@ == after_key(old(self)@, key_event.code),
    {
        match key_event.code {
            Key::Esc => self.exit(),
            Key::Char(c) => {
                if c == 'q' {
                    self.exit();
                } else if c == ' ' {
                    self.shuffling = !self.shuffling;
                }
            },
            Key::Other => {},
        }
    }

    /// Acts on one event of the input source.
    pub fn handle_event(&mut self, event: Event)
        ensures
            final(self)@ == after_event(old(self)@, event),
    {
        match event {
            Event::Key(key_event) => {
                if key_event.kind == KeyKind::Press {
                    self.handle_key_event(key_event);
                }
            },
            Event::Other => {},
        }
    }

    /// What a frame round `area` shows of the display as it stands. The
    /// display itself stays as it is.
    pub fn render(&self, area: Rect) -> (scene: Result<Scene, GridError>)
        ensures
            rectangular(self@.seats) ==> scene is Ok && scene->Ok_0@ == spec_scene(
                self@.seats,
                area,
            ),
            !rectangular(self@.seats) ==> scene is Err && scene->Err_0 == GridError::InvalidGrid,
    {
        render(&self.seats, area)
    }

    /// Lets one tick pass: shuffles the seats once while the display
    /// shuffles, and does nothing while it does not.
    pub fn tick(&mut self)
        ensures
            ticked(old(self)@, final(self)@),
            final(self)@.seats.flatten().to_multiset() == old(self)@.seats.flatten().to_multiset(),
    {
        if self.shuffling {
            self.seats.shuffle();
        }
    }

    /// One turn of the loop after the screen was drawn: a tick, and then what
    /// the input source gave within its time, if it gave anything. A display
    /// that is to end takes no turn.
    pub fn step(&mut self, input: Option<Event>)
        ensures
            stepped(old(self)@, input, final(self)@),
            !old(self)@.exit && !old(self)@.shuffling ==> final(self)@ == after_input(
                old(self)@,
                input,
            ),
            final(self)@.seats.flatten().to_multiset() == old(self)@.seats.flatten().to_multiset(),
    {
        if self.exit {
            return ;
        }
        self.tick();
        let ghost mid = self@;
        match input {
            Some(event) => self.handle_event(event),
            None => {},
        }
        assert(ticked(old(self)@, mid) && self@ == after_input(mid, input));
    }
}

} // verus!
