//! Relational sinks: exact multiset relations materialised in SQL databases.

pub mod address;
pub mod buffered;
pub mod bytes;
pub mod change;
pub mod clickhouse;
pub mod denotation;
pub mod discard;
pub mod doris;
pub mod encoding;
pub mod json;
pub mod notation;
pub mod postgres;
pub mod reading;
pub mod relation;
pub mod sqlite;
pub mod text;
