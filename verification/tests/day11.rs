use advent_of_rust_2019::day11::{Color, Hull};

#[test]
fn colours_from_numbers() {
    assert_eq!(Color::try_from(0), Ok(Color::Black));
    assert_eq!(Color::try_from(1), Ok(Color::White));
    assert_eq!(Color::try_from(2), Err(2));
    assert_eq!(Color::try_from(-1), Err(-1));
    assert_eq!(Color::Black.code(), 0);
    assert_eq!(Color::White.code(), 1);
    assert_eq!(Color::default(), Color::Black);
}

#[test]
fn the_camera_shows_what_was_painted_last() {
    let mut hull = Hull::new();
    assert_eq!(hull.current_location(), (0, 0));
    assert_eq!(hull.camera(), 0);
    assert_eq!(hull.painted_count(), 0);
    hull.paint(Color::White);
    assert_eq!(hull.camera(), 1);
    assert_eq!(hull.painted_count(), 1);
    hull.paint(Color::Black);
    assert_eq!(hull.camera(), 0);
    assert_eq!(hull.painted_count(), 1);
    hull.advance(-1, 0);
    assert_eq!(hull.current_location(), (-1, 0));
    assert_eq!(hull.camera(), 0);
    hull.paint(Color::White);
    hull.advance(1, 0);
    assert_eq!(hull.camera(), 0);
    assert_eq!(hull.painted_count(), 2);
}

#[test]
fn bounds_of_the_painted_part() {
    let mut hull = Hull::new();
    assert_eq!(
        hull.painted_bounds(),
        ((isize::MIN, isize::MIN), (isize::MAX, isize::MAX))
    );
    hull.advance(2, -3);
    hull.paint(Color::White);
    assert_eq!(hull.painted_bounds(), ((2, -3), (2, -3)));
    hull.advance(-5, 4);
    hull.paint(Color::Black);
    assert_eq!(hull.painted_bounds(), ((2, 1), (-3, -3)));
}

#[test]
fn pictures_run_from_the_top_and_from_the_right() {
    let mut hull = Hull::new();
    hull.paint(Color::White);
    hull.advance(1, 0);
    hull.paint(Color::White);
    hull.advance(0, 1);
    hull.paint(Color::Black);
    hull.advance(1, 1);
    hull.paint(Color::White);
    // White at (0, 0), (1, 0) and (2, 2); the margin is one panel wide.
    let (max, min) = hull.painted_bounds();
    assert_eq!((max, min), ((2, 2), (0, 0)));
    assert_eq!(
        hull.render(max, min),
        Some(".....\n.#...\n.....\n..##.\n.....".to_string())
    );
    assert_eq!(hull.render((0, 0), (0, 0)), Some("...\n##.\n...".to_string()));
    assert_eq!(hull.render((-1, 0), (-1, 0)), Some("...\n#..\n...".to_string()));
    // Corners the wrong way round: nothing to draw.
    assert_eq!(hull.render((0, 0), (5, 5)), Some("".to_string()));
    assert_eq!(hull.render((isize::MAX, 0), (0, 0)), None);
    assert_eq!(hull.render((0, 0), (0, isize::MIN)), None);
}
