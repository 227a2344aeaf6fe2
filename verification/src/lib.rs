//! An evolutionary-computation toolkit: genotype encodings, stochastic
//! population generation, and a DIMACS CNF boolean-formula parser and
//! evaluator used to score binary-encoded candidates against a
//! satisfiability objective.

pub mod alg;
pub mod population;
mod rng;
