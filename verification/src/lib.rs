//! An interpreter for 5D Brainfuck With Multiverse Time Travel: a lexer and
//! bracket matcher for the program text, and the step semantics of the
//! timelines that run it.
pub mod interpreter;
pub mod model;
pub mod parser;
