//! An arcade cabinet: a program that draws tiles on a screen, three
//! outputs for each tile, and takes the position of a joystick as input.

use crate::grid::{Point, PointMap};
use crate::intcode_computer::{
    Computer,
    ConstantInput,
    Machine,
    CYCLE_LIMIT,
};
use crate::parsing::{fields, integers, parse_custom_separated};
use vstd::prelude::*;

verus! {

/// What a position of the screen shows.
#[derive(Debug, Copy, Clone, Eq, PartialEq, Structural)]
pub enum Tile {
    Empty,
    Wall,
    Block,
    HPaddle,
    Ball,
}

/// The tile that a number stands for: 0 to 4 in the order of the
/// variants. Any other number is handed back as the error.
pub open spec fn spec_tile(value: isize) -> Result<Tile, isize> {
    if value == 0 {
        Ok(Tile::Empty)
    } else if value == 1 {
        Ok(Tile::Wall)
    } else if value == 2 {
        Ok(Tile::Block)
    } else if value == 3 {
        Ok(Tile::HPaddle)
    } else if value == 4 {
        Ok(Tile::Ball)
    } else {
        Err(value)
    }
}

impl Tile {
    /// The tile that a number stands for.
    pub fn try_from(value: isize) -> (tile: Result<Tile, isize>)
        ensures
            tile == spec_tile(value),
    {
        if value == 0 {
            Ok(Tile::Empty)
        } else if value == 1 {
            Ok(Tile::Wall)
        } else if value == 2 {
            Ok(Tile::Block)
        } else if value == 3 {
            Ok(Tile::HPaddle)
        } else if value == 4 {
            Ok(Tile::Ball)
        } else {
            Err(value)
        }
    }
}

/// The largest number of tiles, or of rounds of the game, that a program
/// is given.
pub const ROUND_LIMIT: u64 = 0xffff_ffff_ffff_ffff;

/// The machine after a run that pauses at each output. There is none where
/// the run ends in a fault.
pub open spec fn after_run(machine: Machine<ConstantInput>) -> Option<Machine<ConstantInput>> {
    let (next, result) = machine.run(true, CYCLE_LIMIT as nat);
    if result is Ok {
        Some(next)
    } else {
        None
    }
}

/// The machine after such a run, and its last output. There is none
/// where the run fails or the machine has never output anything.
pub open spec fn next_value(machine: Machine<ConstantInput>) -> Option<
    (Machine<ConstantInput>, isize),
> {
    match after_run(machine) {
        Some(next) => if next.outputs.len() > 0 {
            Some((next, next.outputs.last()))
        } else {
            None
        },
        None => None,
    }
}

/// The machine after three such runs, with what they gave: a position
/// and a tile. There is none where a run fails or the third value stands
/// for no tile.
pub open spec fn next_tile(machine: Machine<ConstantInput>) -> Option<
    (Machine<ConstantInput>, Point, Tile),
> {
    match next_value(machine) {
        Some((first, x)) => match next_value(first) {
            Some((second, y)) => match next_value(second) {
                Some((third, value)) => match spec_tile(value) {
                    Ok(tile) => Some((third, (x, y), tile)),
                    Err(_) => None,
                },
                None => None,
            },
            None => None,
        },
        None => None,
    }
}

/// The screen once the machine has halted. While it has not, the next
/// three values are taken as a tile, also where the machine halts on the
/// way and the last output is read again. There is none where a tile
/// cannot be had or the rounds do not suffice.
pub open spec fn draw(machine: Machine<ConstantInput>, screen: Map<Point, Tile>, rounds: nat)
    -> Option<Map<Point, Tile>>
    decreases rounds,
{
    if machine.halted {
        Some(screen)
    } else if rounds == 0 {
        None
    } else {
        match next_tile(machine) {
            Some((next, point, tile)) => draw(next, screen.insert(point, tile), (rounds - 1) as nat),
            None => None,
        }
    }
}

/// The positions of the screen that show a block.
pub open spec fn blocks(screen: Map<Point, Tile>) -> Set<Point> {
    screen.dom().filter(|point: Point| screen[point] == Tile::Block)
}

/// The number of blocks on the screen when the program in `text` has
/// halted, with the joystick left in the middle.
pub open spec fn spec_star_one(text: Seq<char>) -> Option<usize> {
    match integers(fields(text, seq![','])) {
        Some(program) => match draw(
            Machine::load(program, Some(ConstantInput { value: Some(0) })),
            Map::empty(),
            ROUND_LIMIT as nat,
        ) {
            Some(screen) => Some(blocks(screen).len() as usize),
            None => None,
        },
        None => None,
    }
}

/// Runs the machine up to its next output or its halt.
fn run_on(computer: &mut Computer<ConstantInput>) -> (done: bool)
    ensures
        match after_run(old(computer)@) {
            Some(next) => done && final(computer)@ == next,
            None => !done,
        },
{
    match computer.run_until_halt_or_paused(true) {
        Ok(_) => true,
        Err(_) => false,
    }
}

/// Runs the machine up to its next output or its halt and gives its last output.
fn read_value(computer: &mut Computer<ConstantInput>) -> (value: Option<isize>)
    ensures
        match next_value(old(computer)@) {
            Some((next, output)) => value == Some(output) && final(computer)@ == next,
            None => value is None,
        },
{
    if run_on(computer) {
        computer.last_output()
    } else {
        None
    }
}

/// Reads a position and a tile from the machine.
fn read_tile(computer: &mut Computer<ConstantInput>) -> (drawn: Option<(Point, Tile)>)
    ensures
        match next_tile(old(computer)@) {
            Some((next, point, tile)) => drawn == Some((point, tile)) && final(computer)@ == next,
            None => drawn is None,
        },
{
    let x = match read_value(computer) {
        Some(x) => x,
        None => { return None; },
    };
    let y = match read_value(computer) {
        Some(y) => y,
        None => { return None; },
    };
    let value = match read_value(computer) {
        Some(value) => value,
        None => { return None; },
    };
    match Tile::try_from(value) {
        Ok(tile) => Some(((x, y), tile)),
        Err(_) => None,
    }
}

/// How many of the points show a block.
pub open spec fn count_blocks(screen: Map<Point, Tile>, points: Seq<Point>) -> nat
    decreases points.len(),
{
    if points.len() == 0 {
        0
    } else {
        count_blocks(screen, points.drop_last()) + if screen[points.last()] == Tile::Block {
            1nat
        } else {
            0nat
        }
    }
}

proof fn lemma_count_blocks(screen: Map<Point, Tile>, points: Seq<Point>)
    requires
        points.no_duplicates(),
    ensures
        points.to_set().filter(|point: Point| screen[point] == Tile::Block).finite(),
        count_blocks(screen, points) == points.to_set().filter(
            |point: Point| screen[point] == Tile::Block,
        ).len(),
        count_blocks(screen, points) <= points.len(),
    decreases points.len(),
{
    let shows_block = |point: Point| screen[point] == Tile::Block;
    if points.len() == 0 {
        assert(points.to_set().filter(shows_block) =~= Set::<Point>::empty());
    } else {
        let before = points.drop_last();
        let last = points.last();
        lemma_count_blocks(screen, before);
        assert(points.to_set() =~= before.to_set().insert(last)) by {
            assert forall|point: Point| #[trigger]
                points.to_set().contains(point) <==> before.to_set().insert(last).contains(
                    point,
                ) by {
                if points.contains(point) {
                    let i = choose|i: int| 0 <= i < points.len() && points[i] == point;
                    if i < before.len() {
                        assert(before[i] == point);
                    }
                }
            }
        }
        if shows_block(last) {
            assert(points.to_set().filter(shows_block) =~= before.to_set().filter(
                shows_block,
            ).insert(last));
        } else {
            assert(points.to_set().filter(shows_block) =~= before.to_set().filter(shows_block));
        }
    }
}

/// The number of positions of the screen that show a block.
fn count_block_tiles(tiles: &PointMap<Tile>) -> (count: usize)
    requires
        tiles.wf(),
    ensures
        count == blocks(tiles@).len(),
{
    let total = tiles.len();
    let mut count: usize = 0;
    let mut position: usize = 0;
    proof {
        tiles.lemma_keys();
    }
    while position < total
        invariant
            position <= total == tiles.keys().len(),
            tiles.wf(),
            count == count_blocks(tiles@, tiles.keys().take(position as int)),
            count <= position,
            forall|point: Point| #[trigger]
                tiles.keys().contains(point) <==> tiles@.contains_key(point),
        decreases total - position,
    {
        let point = tiles.key_at(position);
        assert(tiles.keys().contains(point));
        assert(tiles.keys().take(position + 1).drop_last() =~= tiles.keys().take(position as int));
        match tiles.get(point) {
            Some(tile) => {
                if *tile == Tile::Block {
                    count = count + 1;
                }
            },
            None => {},
        }
        position = position + 1;
    }
    proof {
        assert(tiles.keys().take(total as int) =~= tiles.keys());
        lemma_count_blocks(tiles@, tiles.keys());
        assert(tiles.keys().to_set() =~= tiles@.dom());
    }
    count
}

/// The number of blocks on the screen when the program in `input` has halted.
pub fn star_one(input: &str) -> (count: Option<usize>)
    ensures
        count == spec_star_one(input@),
{
    proof {
        reveal_strlit(",");
        assert(","@ =~= seq![',']);
    }
    let program = match parse_custom_separated(input, ",") {
        Some(program) => program,
        None => { return None; },
    };
    let mut computer = Computer::new(program);
    computer.set_input(ConstantInput::new(0));
    let mut tiles: PointMap<Tile> = PointMap::new();
    let ghost start = computer@;
    let mut rounds: u64 = ROUND_LIMIT;
    while !computer.is_halted()
        invariant
            tiles.wf(),
            integers(fields(input@, seq![','])) == Some(program@),
            start == Machine::load(program@, Some(ConstantInput { value: Some(0) })),
            draw(start, Map::empty(), ROUND_LIMIT as nat) == draw(computer@, tiles@, rounds as nat),
        decreases rounds,
    {
        if rounds == 0 {
            return None;
        }
        match read_tile(&mut computer) {
            Some((point, tile)) => {
                tiles.insert(point, tile);
            },
            None => {
                return None;
            },
        }
        rounds = rounds - 1;
    }
    Some(count_block_tiles(&tiles))
}

/// Where the joystick goes: towards the ball, as far as both the ball
/// and the paddle have been seen.
pub open spec fn joystick(ball: Option<isize>, paddle: Option<isize>) -> isize {
    match (ball, paddle) {
        (Some(target), Some(location)) => if target < location {
            -1isize
        } else if target > location {
            1isize
        } else {
            0isize
        },
        _ => 0isize,
    }
}

/// What is known of the game between two rounds.
pub struct Game {
    pub machine: Machine<ConstantInput>,
    pub screen: Map<Point, Tile>,
    pub score: Option<isize>,
    /// The column of the ball, once it has been drawn.
    pub ball: Option<isize>,
    /// The column of the paddle, once it has been drawn.
    pub paddle: Option<isize>,
}

/// The game after one round. The machine runs to its next output. Where
/// that is -1, or the machine has halted, two more runs follow and the last
/// output is the score. Else the output is the column of a tile, whose row
/// and kind the next two runs give; the tile is drawn and the joystick set.
/// There is none where a run fails or a value is missing.
pub open spec fn round(game: Game) -> Option<Game> {
    match next_value(game.machine) {
        Some((first, x)) => if x == -1 || first.halted {
            match after_run(first) {
                Some(second) => match after_run(second) {
                    Some(third) => Some(
                        Game {
                            machine: third,
                            score: if third.outputs.len() > 0 {
                                Some(third.outputs.last())
                            } else {
                                None
                            },
                            ..game
                        },
                    ),
                    None => None,
                },
                None => None,
            }
        } else {
            match next_value(first) {
                Some((second, y)) => match next_value(second) {
                    Some((third, value)) => match spec_tile(value) {
                        Ok(tile) => {
                            let ball = if tile == Tile::Ball {
                                Some(x)
                            } else {
                                game.ball
                            };
                            let paddle = if tile == Tile::HPaddle {
                                Some(x)
                            } else {
                                game.paddle
                            };
                            Some(
                                Game {
                                    machine: Machine {
                                        input: Some(
                                            ConstantInput { value: Some(joystick(ball, paddle)) },
                                        ),
                                        ..third
                                    },
                                    screen: game.screen.insert((x, y), tile),
                                    score: game.score,
                                    ball,
                                    paddle,
                                },
                            )
                        },
                        Err(_) => None,
                    },
                    None => None,
                },
                None => None,
            }
        },
        None => None,
    }
}

/// The score when the game is over: after the first round at whose end
/// no block is left on the screen and the machine has halted. There is
/// none where a round fails, where the rounds do not suffice, or where no
/// score has been shown by then.
pub open spec fn play(game: Game, rounds: nat) -> Option<isize>
    decreases rounds,
{
    if rounds == 0 {
        None
    } else {
        match round(game) {
            Some(next) => if blocks(next.screen).len() == 0 && next.machine.halted {
                next.score
            } else {
                play(next, (rounds - 1) as nat)
            },
            None => None,
        }
    }
}

/// The score at the end of the game that the program in `text` plays
/// once its first cell is set to 2, with the joystick following the ball.
pub open spec fn spec_star_two(text: Seq<char>) -> Option<isize> {
    match integers(fields(text, seq![','])) {
        Some(program) => if program.len() == 0 {
            None
        } else {
            play(
                Game {
                    machine: Machine::load(
                        program.update(0, 2),
                        Some(ConstantInput { value: Some(0) }),
                    ),
                    screen: Map::empty(),
                    score: None,
                    ball: None,
                    paddle: None,
                },
                ROUND_LIMIT as nat,
            )
        },
        None => None,
    }
}

/// The score at the end of the game that the program in `input` plays.
pub fn star_two(input: &str) -> (final_score: Option<isize>)
    ensures
        final_score == spec_star_two(input@),
{
    proof {
        reveal_strlit(",");
        assert(","@ =~= seq![',']);
    }
    let mut program = match parse_custom_separated(input, ",") {
        Some(program) => program,
        None => { return None; },
    };
    if program.len() == 0 {
        return None;
    }
    let ghost original = program@;
    program.set(0, 2);
    let mut computer = Computer::new(program);
    computer.set_input(ConstantInput::new(0));
    let mut tiles: PointMap<Tile> = PointMap::new();
    let mut score: Option<isize> = None;
    let mut paddle_target_location: Option<isize> = None;
    let mut paddle_location: Option<isize> = None;
    let mut rounds: u64 = ROUND_LIMIT;
    while rounds > 0
        invariant
            tiles.wf(),
            integers(fields(input@, seq![','])) == Some(original),
            original.len() > 0,
            spec_star_two(input@) == play(
                Game {
                    machine: computer@,
                    screen: tiles@,
                    score,
                    ball: paddle_target_location,
                    paddle: paddle_location,
                },
                rounds as nat,
            ),
        decreases rounds,
    {
        let x = match read_value(&mut computer) {
            Some(x) => x,
            None => { return None; },
        };
        if x == -1 || computer.is_halted() {
            if !run_on(&mut computer) {
                return None;
            }
            if !run_on(&mut computer) {
                return None;
            }
            score = computer.last_output();
        } else {
            let y = match read_value(&mut computer) {
                Some(y) => y,
                None => { return None; },
            };
            let value = match read_value(&mut computer) {
                Some(value) => value,
                None => { return None; },
            };
            let tile = match Tile::try_from(value) {
                Ok(tile) => tile,
                Err(_) => { return None; },
            };
            match tile {
                Tile::Ball => {
                    paddle_target_location = Some(x);
                },
                Tile::HPaddle => {
                    paddle_location = Some(x);
                },
                _ => (),
            }
            let next_input: isize = match (paddle_target_location, paddle_location) {
                (Some(target_location), Some(location)) => if target_location < location {
                    -1
                } else if target_location > location {
                    1
                } else {
                    0
                },
                _ => 0,
            };
            computer.set_input(ConstantInput::new(next_input));
            tiles.insert((x, y), tile);
        }
        if count_block_tiles(&tiles) == 0 && computer.is_halted() {
            return score;
        }
        rounds = rounds - 1;
    }
    None
}

} // verus!
