//! A relation in an Apache Doris table, seen through a view.

pub mod config;
pub mod definition;
pub mod error;
pub mod fields;
pub mod meaning;
pub mod row;
pub mod schema;
pub mod sql;
pub mod statements;
pub mod target;
