use shuffle_seats::layout::{layout, Rect};

fn rect(x: u16, y: u16, width: u16, height: u16) -> Rect {
    Rect { x, y, width, height }
}

fn inside(r: &Rect, px: u32, py: u32) -> bool {
    let (x, y) = (u32::from(r.x), u32::from(r.y));
    x <= px && px < x + u32::from(r.width) && y <= py && py < y + u32::from(r.height)
}

fn holders(grid: &[Vec<Rect>], px: u32, py: u32) -> usize {
    grid.iter().flatten().filter(|r| inside(r, px, py)).count()
}

#[test]
fn layout_gives_the_remainder_to_the_leading_parts() {
    let grid = layout(rect(1, 2, 10, 5), (2, 3));
    assert_eq!(
        grid,
        vec![
            vec![rect(1, 2, 4, 3), rect(5, 2, 3, 3), rect(8, 2, 3, 3)],
            vec![rect(1, 5, 4, 2), rect(5, 5, 3, 2), rect(8, 5, 3, 2)],
        ]
    );
}

#[test]
fn layout_divides_evenly_without_remainder() {
    let grid = layout(rect(0, 0, 6, 4), (2, 2));
    assert_eq!(
        grid,
        vec![
            vec![rect(0, 0, 3, 2), rect(3, 0, 3, 2)],
            vec![rect(0, 2, 3, 2), rect(3, 2, 3, 2)],
        ]
    );
}

#[test]
fn layout_of_one_cell_is_the_area() {
    assert_eq!(layout(rect(3, 4, 20, 9), (1, 1)), vec![vec![rect(3, 4, 20, 9)]]);
}

#[test]
fn layout_matches_the_shape() {
    let grid = layout(rect(0, 0, 80, 24), (4, 7));
    assert_eq!(grid.len(), 4);
    for row in &grid {
        assert_eq!(row.len(), 7);
    }
}

#[test]
fn layout_of_an_area_without_width_is_empty() {
    assert!(layout(rect(0, 0, 0, 10), (2, 3)).is_empty());
}

#[test]
fn layout_of_an_area_without_height_is_empty() {
    assert!(layout(rect(5, 5, 10, 0), (2, 3)).is_empty());
}

#[test]
fn layout_for_no_rows_is_empty() {
    assert!(layout(rect(0, 0, 10, 10), (0, 3)).is_empty());
}

#[test]
fn layout_for_no_columns_is_empty() {
    assert!(layout(rect(0, 0, 10, 10), (2, 0)).is_empty());
}

#[test]
fn layout_tiles_the_area() {
    for &(area, shape) in &[
        (rect(0, 0, 10, 5), (2, 3)),
        (rect(3, 7, 17, 11), (4, 5)),
        (rect(1, 1, 1, 1), (1, 1)),
        (rect(2, 2, 7, 3), (3, 7)),
        (rect(0, 0, 3, 2), (5, 4)),
    ] {
        let grid = layout(area, shape);
        for py in 0..u32::from(area.y) + u32::from(area.height) + 2 {
            for px in 0..u32::from(area.x) + u32::from(area.width) + 2 {
                let expected = if inside(&area, px, py) { 1 } else { 0 };
                assert_eq!(holders(&grid, px, py), expected, "at ({px}, {py}) of {area:?}");
            }
        }
    }
}

#[test]
fn layout_cells_are_never_empty_where_the_area_has_room() {
    for &(area, shape) in &[
        (rect(0, 0, 10, 5), (2, 3)),
        (rect(0, 0, 10, 5), (5, 10)),
        (rect(9, 9, 31, 17), (4, 6)),
    ] {
        for cell in layout(area, shape).iter().flatten() {
            assert!(cell.width > 0 && cell.height > 0, "{cell:?} of {area:?}");
        }
    }
}

#[test]
fn layout_with_more_columns_than_room_leaves_trailing_cells_empty() {
    let grid = layout(rect(0, 0, 3, 1), (1, 5));
    assert_eq!(
        grid,
        vec![vec![
            rect(0, 0, 1, 1),
            rect(1, 0, 1, 1),
            rect(2, 0, 1, 1),
            rect(3, 0, 0, 1),
            rect(3, 0, 0, 1),
        ]]
    );
}

#[test]
fn layout_is_deterministic() {
    let area = rect(2, 3, 77, 21);
    assert_eq!(layout(area, (5, 6)), layout(area, (5, 6)));
    let first = layout(area, (3, 3));
    let _other = layout(rect(0, 0, 10, 10), (2, 2));
    assert_eq!(layout(area, (3, 3)), first);
}

#[test]
fn layout_cells_differ_by_at_most_one() {
    let grid = layout(rect(0, 0, 100, 40), (7, 9));
    let widths: Vec<u16> = grid[0].iter().map(|c| c.width).collect();
    let heights: Vec<u16> = grid.iter().map(|row| row[0].height).collect();
    assert_eq!(widths, vec![12, 11, 11, 11, 11, 11, 11, 11, 11]);
    assert_eq!(heights, vec![6, 6, 6, 6, 6, 5, 5]);
}

#[test]
fn layout_clips_an_area_that_leaves_the_coordinate_space() {
    let grid = layout(rect(65530, 65533, 100, 100), (1, 2));
    assert_eq!(grid, vec![vec![rect(65530, 65533, 3, 2), rect(65533, 65533, 2, 2)]]);
    assert_eq!(rect(65530, 65533, 100, 100).clipped(), rect(65530, 65533, 5, 2));
    assert_eq!(rect(1, 2, 3, 4).clipped(), rect(1, 2, 3, 4));
}

#[test]
fn layout_of_an_area_at_the_edge_of_the_coordinate_space_is_empty() {
    assert!(layout(rect(65535, 0, 5, 5), (1, 1)).is_empty());
}

#[test]
fn rect_is_empty_without_width_or_height() {
    assert!(rect(0, 0, 0, 3).is_empty());
    assert!(rect(0, 0, 3, 0).is_empty());
    assert!(!rect(0, 0, 1, 1).is_empty());
}
