use shuffle_seats::app::{App, POLL_TIMEOUT_MS};
use shuffle_seats::event::{Event, Key, KeyEvent, KeyKind};
use shuffle_seats::seat::{Seat, SeatGrid};

fn six_seats() -> SeatGrid {
    SeatGrid::new(vec![
        vec![Seat::new("A1"), Seat::new("A2"), Seat::new("A3")],
        vec![Seat::new("B1"), Seat::new("B2"), Seat::new("B3")],
    ])
}

fn press(code: Key) -> Event {
    Event::Key(KeyEvent::press(code))
}

fn sorted_labels(grid: &SeatGrid) -> Vec<String> {
    let mut all: Vec<String> =
        grid.rows().iter().flatten().map(|seat| seat.label.clone()).collect();
    all.sort();
    all
}

#[test]
fn new_app_neither_shuffles_nor_exits() {
    let app = App::new(six_seats());
    assert!(!app.is_shuffling());
    assert!(!app.should_exit());
    assert_eq!(app.get_seats(), six_seats());
}

#[test]
fn key_press_is_a_press() {
    assert_eq!(KeyEvent::press(Key::Esc), KeyEvent { code: Key::Esc, kind: KeyKind::Press });
}

#[test]
fn pressing_q_exits() {
    let mut app = App::new(six_seats());
    app.handle_event(press(Key::Char('q')));
    assert!(app.should_exit());
    assert!(!app.is_shuffling());
    assert_eq!(app.get_seats(), six_seats());
}

#[test]
fn pressing_esc_exits() {
    let mut app = App::new(six_seats());
    app.handle_event(press(Key::Esc));
    assert!(app.should_exit());
    assert!(!app.is_shuffling());
}

#[test]
fn pressing_space_twice_turns_shuffling_on_and_off() {
    let mut app = App::new(six_seats());
    app.handle_event(press(Key::Char(' ')));
    assert!(app.is_shuffling());
    assert!(!app.should_exit());
    app.handle_event(press(Key::Char(' ')));
    assert!(!app.is_shuffling());
    assert!(!app.should_exit());
}

#[test]
fn pressing_any_other_key_changes_nothing() {
    let mut app = App::new(six_seats());
    for code in [Key::Char('a'), Key::Char('Q'), Key::Char('\n'), Key::Other] {
        app.handle_event(press(code));
        assert!(!app.is_shuffling());
        assert!(!app.should_exit());
    }
    app.handle_event(press(Key::Char(' ')));
    app.handle_event(press(Key::Char('a')));
    assert!(app.is_shuffling());
    assert!(!app.should_exit());
}

#[test]
fn keys_that_did_not_go_down_are_ignored() {
    let mut app = App::new(six_seats());
    for kind in [KeyKind::Release, KeyKind::Repeat] {
        for code in [Key::Esc, Key::Char('q'), Key::Char(' ')] {
            app.handle_event(Event::Key(KeyEvent { code, kind }));
            assert!(!app.is_shuffling());
            assert!(!app.should_exit());
        }
    }
}

#[test]
fn events_that_are_no_keys_are_ignored() {
    let mut app = App::new(six_seats());
    app.handle_event(Event::Other);
    assert!(!app.is_shuffling());
    assert!(!app.should_exit());
}

#[test]
fn handle_key_event_acts_whatever_the_kind() {
    let mut app = App::new(six_seats());
    app.handle_key_event(KeyEvent { code: Key::Char(' '), kind: KeyKind::Release });
    assert!(app.is_shuffling());
    app.handle_key_event(KeyEvent { code: Key::Esc, kind: KeyKind::Repeat });
    assert!(app.should_exit());
}

#[test]
fn exit_sets_the_flag_and_nothing_else() {
    let mut app = App::new(six_seats());
    app.handle_event(press(Key::Char(' ')));
    app.exit();
    assert!(app.should_exit());
    assert!(app.is_shuffling());
    assert_eq!(app.get_seats(), six_seats());
}

#[test]
fn idle_ticks_leave_the_seats_as_they_are() {
    let mut app = App::new(six_seats());
    for _ in 0..100 {
        app.tick();
        assert_eq!(app.get_seats(), six_seats());
    }
    assert!(!app.is_shuffling());
    assert!(!app.should_exit());
}

#[test]
fn idle_turns_leave_the_state_as_it_is() {
    let mut app = App::new(six_seats());
    for _ in 0..100 {
        app.step(None);
    }
    assert_eq!(app.get_seats(), six_seats());
    assert!(!app.is_shuffling());
    assert!(!app.should_exit());
}

#[test]
fn a_turn_ticks_before_it_reads_the_input() {
    let mut app = App::new(six_seats());
    app.step(Some(press(Key::Char(' '))));
    assert!(app.is_shuffling());
    assert_eq!(app.get_seats(), six_seats());
}

#[test]
fn a_turn_after_the_end_does_nothing() {
    let mut app = App::new(six_seats());
    app.step(Some(press(Key::Char(' '))));
    app.step(Some(press(Key::Char('q'))));
    assert!(app.should_exit());
    let seats = app.get_seats();
    for _ in 0..20 {
        app.step(Some(press(Key::Char(' '))));
        assert!(app.should_exit());
        assert!(app.is_shuffling());
        assert_eq!(app.get_seats(), seats);
    }
}

#[test]
fn shuffling_ticks_keep_the_seats_and_the_shape() {
    let mut app = App::new(six_seats());
    app.handle_event(press(Key::Char(' ')));
    for _ in 0..50 {
        app.tick();
        let seats = app.get_seats();
        assert_eq!(seats.shape(), Ok((2, 3)));
        assert_eq!(sorted_labels(&seats), sorted_labels(&six_seats()));
        assert!(app.is_shuffling());
    }
}

#[test]
fn end_to_end() {
    let mut app = App::new(six_seats());
    for _ in 0..100 {
        app.step(None);
    }
    assert_eq!(app.get_seats(), six_seats());

    app.step(Some(press(Key::Char(' '))));
    assert!(app.is_shuffling());
    let mut moved = false;
    for _ in 0..50 {
        app.step(None);
        moved = moved || app.get_seats() != six_seats();
        assert_eq!(sorted_labels(&app.get_seats()), vec!["A1", "A2", "A3", "B1", "B2", "B3"]);
        assert_eq!(app.get_seats().shape(), Ok((2, 3)));
    }
    assert!(moved);

    app.step(Some(press(Key::Char(' '))));
    let settled = app.get_seats();
    for _ in 0..10 {
        app.step(None);
    }
    assert_eq!(app.get_seats(), settled);

    app.step(Some(press(Key::Esc)));
    assert!(app.should_exit());
}

#[test]
fn poll_timeout_is_fifty_milliseconds() {
    assert_eq!(POLL_TIMEOUT_MS, 50);
}
