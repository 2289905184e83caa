//! Hotstring text expansion: a rolling buffer of typed characters, a table of
//! triggers matched against its tail, and the actions that replace a typed
//! trigger with its expansion.

pub mod buffer;
pub mod table;
pub mod matcher;
pub mod keymap;
pub mod executor;
pub mod engine;
