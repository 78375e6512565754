//! Prime factorization of unsigned integers by trial division, together with
//! the line-oriented session logic that drives it: choosing a run mode,
//! reading numbers from text, and rendering factor lists as output lines.

pub mod arith;
pub mod decimal;
pub mod factorizer;
pub mod session;
pub mod text;
