//! A cooperative, tick-driven task engine: units of work ("runners") are
//! stepped once per host tick against a shared context, composed by
//! combinators, and awaited in order by a reactor.

pub mod output;
pub mod token;
pub mod runner;
pub mod delay;
pub mod once;
pub mod wait;
pub mod pipe;
pub mod then;
pub mod remake;
pub mod omit;
pub mod switch;
pub mod either;
pub mod reactor;
pub mod host;
