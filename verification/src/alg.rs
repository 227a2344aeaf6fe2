//! The objective framework: generic contracts that map a population of one
//! encoding to a per-individual output value.

pub mod dimacs;
pub mod objectives;
pub mod text;

use vstd::prelude::*;
use crate::population::{Encoding, Population};

verus! {

/// A scoring contract over one encoding: the binding between encoding and
/// objective is fixed when the objective is composed.
pub trait Objective<E: Encoding> {
    type Output;

    fn eval(&self, pop: &Population<E>) -> Self::Output;
}

/// Turns an objective's raw output into a fitness score.
pub trait Fitness<E, O> where E: Encoding, O: Objective<E> {
    type Score;

    fn eval(input: O::Output) -> Self::Score;
}

} // verus!
