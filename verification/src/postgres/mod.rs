//! The postgres plugin family: source and destination over one connection layer.

pub mod array;
pub mod bytea;
pub mod cells;
pub mod conn;
pub mod copy;
pub mod destination;
pub mod hstore;
pub mod source;
pub mod sql;
pub mod temporal;
pub mod types;
