//! The shared vocabulary of the puzzle solvers: the shape of an answer,
//! the errors a solver can report, and the interface a solver offers.

use vstd::prelude::*;

use crate::advent2::IntcodeError;

verus! {

/// The answer a solver produces.
#[derive(Debug, PartialEq, Eq)]
pub enum Solution {
    Number(i64),
}

/// Everything a solver can report instead of an answer.
#[derive(Debug, PartialEq, Eq)]
pub enum RiddleError {
    UnknownRiddle(String),
    IO(String),
    ArgumentsCount(u8, u8),
    Generic(String),
    NoSolutionFound,
    Intcode(IntcodeError),
}

/// A puzzle solver: it computes an answer from the lines of its input.
pub trait Riddle {
    fn solve(&self, lines: &Vec<String>) -> Result<Solution, RiddleError>;
}

} // verus!
