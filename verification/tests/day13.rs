use advent_of_rust_2019::day13::{star_one, star_two, Tile};

#[test]
fn tiles_from_numbers() {
    assert_eq!(Tile::try_from(0), Ok(Tile::Empty));
    assert_eq!(Tile::try_from(1), Ok(Tile::Wall));
    assert_eq!(Tile::try_from(2), Ok(Tile::Block));
    assert_eq!(Tile::try_from(3), Ok(Tile::HPaddle));
    assert_eq!(Tile::try_from(4), Ok(Tile::Ball));
    assert_eq!(Tile::try_from(5), Err(5));
    assert_eq!(Tile::try_from(-1), Err(-1));
}

#[test]
fn counting_blocks() {
    // A block at (1, 2), a wall at (3, 4). After the halt the last output is
    // read three times more: a wall at (1, 1).
    assert_eq!(star_one("104,1,104,2,104,2,104,3,104,4,104,1,99"), Some(1));
    // The same position drawn twice counts once, with what was drawn last.
    assert_eq!(
        star_one("104,1,104,2,104,2,104,1,104,2,104,0,104,7,104,7,104,2,104,0,104,0,104,0,99"),
        Some(1)
    );
}

#[test]
fn the_last_output_is_read_again_after_the_halt() {
    // A block at (5, 6), and then a block at (2, 2) from the last output.
    assert_eq!(star_one("104,5,104,6,104,2,99"), Some(2));
}

#[test]
fn screens_that_cannot_be_drawn() {
    assert_eq!(star_one("104,1,104,1,104,9,99"), None);
    assert_eq!(star_one("99"), None);
    assert_eq!(star_one("104,1,104,1,98"), None);
    assert_eq!(star_one("104,1,x"), None);
    assert_eq!(star_one(""), None);
}

#[test]
fn the_score_is_what_follows_minus_one() {
    // Cell 0 becomes 2: cell 30 = cell 0 * cell 0. Then -1, 0, 42.
    assert_eq!(star_two("1,0,0,30,104,-1,104,0,104,42,99"), Some(42));
}

#[test]
fn the_joystick_follows_the_ball() {
    // Ball in column 3, paddle in column 1: the joystick goes right, and the
    // program shows what it reads from the joystick as the score.
    let program = "1,0,0,30,104,3,104,0,104,4,104,1,104,0,104,3,3,50,104,-1,104,0,4,50,99";
    assert_eq!(star_two(program), Some(1));
    // Ball in column 1, paddle in column 3: the joystick goes left.
    let program = "1,0,0,30,104,1,104,0,104,4,104,3,104,0,104,3,3,50,104,-1,104,0,4,50,99";
    assert_eq!(star_two(program), Some(-1));
    // Only the ball is known: the joystick stays in the middle.
    let program = "1,0,0,30,104,1,104,0,104,4,3,50,104,-1,104,0,4,50,99";
    assert_eq!(star_two(program), Some(0));
}

#[test]
fn games_that_cannot_be_played() {
    assert_eq!(star_two(""), None);
    assert_eq!(star_two("1,0,0,30,104,1,104,1,104,9,99"), None);
    assert_eq!(star_two("1,0,0,30,99"), None);
    assert_eq!(star_two("1,0,0,x"), None);
}
