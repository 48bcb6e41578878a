//! Verified solvers for a collection of small text puzzles.
//!
//! The heart of the crate is the signal-propagation simulator in [`pulse`]:
//! a directed graph of stateful logic modules exchanging boolean pulses in
//! strict first-in-first-out causal order, together with the periodicity
//! analysis in [`period`] that answers long-horizon queries by combining
//! per-watcher cycle lengths with least common multiples from [`euclid`].
//! The remaining modules are independent, self-contained puzzle solvers.

pub mod arith;
pub mod day01;
pub mod day01_2;
pub mod day02_2;
pub mod day03_1;
pub mod day03_2;
pub mod day04_1;
pub mod day04_2;
pub mod day05_2;
pub mod day06_1;
pub mod day06_2;
pub mod day07_1;
pub mod day08_1;
pub mod day08_2;
pub mod day09_2;
pub mod day11_1;
pub mod day11_2;
pub mod day13_1;
pub mod day14_1;
pub mod day15_1;
pub mod day15_2;
pub mod day18_1;
pub mod day18_2;
pub mod euclid;
pub mod period;
pub mod pulse;
pub mod text;
