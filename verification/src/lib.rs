//! A verified collection of small algorithmic routines together with a JSON
//! document parser: a lexer, a single-token-lookahead cursor, a
//! recursive-descent parser, and a typed value model with narrowing accessors.

pub mod calc_time;
pub mod conjecture;
pub mod count_distinct;
pub mod converter;
pub mod fib;
pub mod fibnacci;
pub mod json;
pub mod prime_factor;
pub mod primes;
pub mod rec_mc;
pub mod retirement;
pub mod sum_bits;
pub mod text;
