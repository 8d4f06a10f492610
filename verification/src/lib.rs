//! Solutions to a series of programming puzzles, built around a small virtual
//! machine for programs written as flat lists of signed integers.

pub mod day01;
pub mod day02;
pub mod day03;
pub mod day04;
pub mod day05;
pub mod day06;
pub mod day07;
pub mod day08;
pub mod day09;
pub mod day10;
pub mod day11;
pub mod day12;
pub mod day13;
pub mod day14;
pub mod day15;
pub mod day16;
pub mod digits;
pub mod grid;
pub mod intcode_computer;
pub mod math;
pub mod names;
pub mod pairs;
pub mod parsing;
pub mod quine;

pub use digits::DigitIterator;
pub use parsing::{parse_custom_separated, parse_lines, parse_whitespace_separated};
