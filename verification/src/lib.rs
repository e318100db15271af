//! An event-driven parsing engine.
//!
//! The parser turns a token stream into a linear log of structural events
//! (node starts, token consumption, node finishes, diagnostics). A later pass
//! replays that log to build a syntax tree. Nodes are opened through markers,
//! which lets a rule open a node before its kind is known and lets a finished
//! node be wrapped in a new parent after the fact.

pub mod counting;
pub mod env;
pub mod event;
pub mod grammar;
pub mod log_steps;
pub mod nesting;
pub mod parser;
pub mod replay;
pub mod source;
pub mod syntax;
pub mod values;
