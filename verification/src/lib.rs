//! A small library of verified numeric routines: scalar utilities
//! (capitalization, summation, power-of-three search, greatest common
//! divisor), binomial-coefficient rows, sequence zipping, and 2x2 integer
//! matrix algebra with fast exponentiation, used to compute Fibonacci
//! numbers.

pub mod combinatorics;
pub mod matrix;
pub mod scalar;
pub mod sequences;
