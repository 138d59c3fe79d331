//! Verified core of a command-line probe for compiled Faust programs: what
//! it decides and computes on integers and text, with the laws that tie its
//! parts together.

pub mod text;
pub mod lines;

pub mod audio;
pub mod cli;
pub mod engine;
pub mod eval;
pub mod factory;
pub mod freqresp;
pub mod input;
pub mod number;
pub mod readback;
pub mod train;
