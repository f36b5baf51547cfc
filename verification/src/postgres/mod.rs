//! A relation in a PostgreSQL table.

pub mod admission;
pub mod config;
pub mod definition;
pub mod error;
pub mod fields;
pub mod meaning;
pub mod row;
pub mod run;
pub mod runtime;
pub mod schema;
pub mod state;
pub mod statements;
pub mod target;
pub mod write;
