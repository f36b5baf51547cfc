//! A relation in a SQLite table.

pub mod admission;
pub mod definition;
pub mod error;
pub mod fields;
pub mod laws;
pub mod meaning;
pub mod replay;
pub mod row;
pub mod run;
pub mod runtime;
pub mod state;
pub mod statements;
pub mod target;
pub mod write;
