//! A single-threaded, stackful coroutine scheduler, and the syntax of the
//! small expression language that runs on top of it.
//!
//! The scheduler is a state machine. Every operation on a coroutine is a
//! transition of a [`coroutine::Environment`], whose mathematical value is a
//! [`scheduler::Scheduler`]. The one thing the scheduler does not do is leave
//! one machine stack for another: where that is due, the operation returns
//! the [`scheduler::Transfer`] to perform. What holds of every state that the
//! scheduler can reach is stated and proved in [`laws`].
//!
//! The language side is a lexer, a grammar and a parser that is proved to
//! return what the grammar says, and a writer for the syntax.

pub mod ast;
pub mod coroutine;
pub mod error;
pub mod grammar;
pub mod laws;
pub mod lexer;
pub mod operations;
pub mod options;
pub mod parser;
pub mod render;
pub mod scheduler;
pub mod stack;
pub mod state;
