use shuffle_seats::app::App;
use shuffle_seats::layout::{layout, Rect};
use shuffle_seats::scene::{pair_up, render, Hint, Placement};
use shuffle_seats::seat::{GridError, Seat, SeatGrid};

fn rect(x: u16, y: u16, width: u16, height: u16) -> Rect {
    Rect { x, y, width, height }
}

fn row(labels: &[&str]) -> Vec<Seat> {
    labels.iter().map(|label| Seat::new(label)).collect()
}

fn six_seats() -> SeatGrid {
    SeatGrid::new(vec![row(&["A1", "A2", "A3"]), row(&["B1", "B2", "B3"])])
}

fn placed(x: u16, y: u16, width: u16, height: u16, label: &str) -> Placement {
    Placement { area: rect(x, y, width, height), seat: Seat::new(label) }
}

#[test]
fn render_places_every_seat_inside_the_frame() {
    let scene = render(&six_seats(), rect(0, 0, 12, 7)).unwrap();
    assert_eq!(scene.area, rect(0, 0, 12, 7));
    assert_eq!(
        scene.cells,
        vec![
            vec![placed(1, 1, 4, 3, "A1"), placed(5, 1, 3, 3, "A2"), placed(8, 1, 3, 3, "A3")],
            vec![placed(1, 4, 4, 2, "B1"), placed(5, 4, 3, 2, "B2"), placed(8, 4, 3, 2, "B3")],
        ]
    );
}

#[test]
fn render_names_the_title_and_the_key_bindings() {
    let scene = render(&six_seats(), rect(0, 0, 40, 10)).unwrap();
    assert_eq!(scene.title, " Shuffle Seats ");
    assert_eq!(
        scene.hints,
        vec![
            Hint { action: " Shuffle ", keys: "<Space>" },
            Hint { action: " Exit ", keys: "<Q> or <ESC> " },
        ]
    );
}

#[test]
fn render_moves_with_the_area() {
    let scene = render(&six_seats(), rect(10, 20, 8, 4)).unwrap();
    assert_eq!(
        scene.cells,
        vec![
            vec![placed(11, 21, 2, 1, "A1"), placed(13, 21, 2, 1, "A2"), placed(15, 21, 2, 1, "A3")],
            vec![placed(11, 22, 2, 1, "B1"), placed(13, 22, 2, 1, "B2"), placed(15, 22, 2, 1, "B3")],
        ]
    );
}

#[test]
fn render_places_nothing_where_the_frame_leaves_no_room() {
    for area in [rect(0, 0, 2, 10), rect(0, 0, 10, 2), rect(0, 0, 0, 0), rect(4, 4, 1, 1)] {
        let scene = render(&six_seats(), area).unwrap();
        assert_eq!(scene.area, area);
        assert!(scene.cells.is_empty());
    }
}

#[test]
fn render_of_an_empty_grid_places_nothing() {
    let scene = render(&SeatGrid::new(vec![]), rect(0, 0, 20, 10)).unwrap();
    assert!(scene.cells.is_empty());
    assert_eq!(scene.title, " Shuffle Seats ");
}

#[test]
fn render_of_a_ragged_grid_is_invalid() {
    let ragged = SeatGrid::new(vec![row(&["a", "b"]), row(&["c"])]);
    assert_eq!(render(&ragged, rect(0, 0, 20, 10)), Err(GridError::InvalidGrid));
    assert_eq!(App::new(ragged).render(rect(0, 0, 20, 10)), Err(GridError::InvalidGrid));
}

#[test]
fn render_at_the_edge_of_the_coordinate_space_stays_inside_it() {
    let scene = render(&six_seats(), rect(65530, 65530, 100, 100)).unwrap();
    assert_eq!(scene.cells.len(), 2);
    assert_eq!(scene.cells[0][0], placed(65531, 65531, 2, 2, "A1"));
    assert_eq!(scene.cells[1][2], placed(65534, 65533, 1, 2, "B3"));
}

#[test]
fn app_render_shows_the_seats_as_they_stand_and_keeps_them() {
    let app = App::new(six_seats());
    let scene = app.render(rect(0, 0, 12, 7)).unwrap();
    assert_eq!(Ok(scene), render(&six_seats(), rect(0, 0, 12, 7)));
    assert_eq!(app.get_seats(), six_seats());
    assert!(!app.is_shuffling());
    assert!(!app.should_exit());
}

#[test]
fn app_render_follows_the_shuffle() {
    let mut seats = six_seats();
    seats.shuffle_with(&vec![5, 4, 3, 2, 1, 0]);
    let scene = App::new(seats).render(rect(0, 0, 12, 7)).unwrap();
    assert_eq!(
        scene.cells,
        vec![
            vec![placed(1, 1, 4, 3, "B3"), placed(5, 1, 3, 3, "B2"), placed(8, 1, 3, 3, "B1")],
            vec![placed(1, 4, 4, 2, "A3"), placed(5, 4, 3, 2, "A2"), placed(8, 4, 3, 2, "A1")],
        ]
    );
}

#[test]
fn pair_up_pairs_by_position() {
    let seats = vec![row(&["a", "b"]), row(&["c", "d"])];
    let cells = layout(rect(0, 0, 4, 2), (2, 2));
    assert_eq!(
        pair_up(&seats, &cells),
        vec![
            vec![placed(0, 0, 2, 1, "a"), placed(2, 0, 2, 1, "b")],
            vec![placed(0, 1, 2, 1, "c"), placed(2, 1, 2, 1, "d")],
        ]
    );
}

#[test]
fn pair_up_drops_what_has_no_partner() {
    let seats = vec![row(&["a", "b", "c"]), row(&["d"]), row(&["e", "f"])];
    let cells = vec![
        vec![rect(0, 0, 1, 1), rect(1, 0, 1, 1)],
        vec![rect(0, 1, 1, 1), rect(1, 1, 1, 1)],
    ];
    assert_eq!(
        pair_up(&seats, &cells),
        vec![
            vec![placed(0, 0, 1, 1, "a"), placed(1, 0, 1, 1, "b")],
            vec![placed(0, 1, 1, 1, "d")],
        ]
    );
    assert_eq!(pair_up(&seats, &vec![]), Vec::<Vec<Placement>>::new());
    assert_eq!(pair_up(&vec![], &cells), Vec::<Vec<Placement>>::new());
}
