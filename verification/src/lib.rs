//! The decisions of the Loadsmith plugin set: a Postgres source and destination, JSONL, Parquet and
//! null destinations, a local copy sink, and a file config provider.

pub mod file_provider;
pub mod float_text;
pub mod json;
pub mod jsonl;
pub mod laws;
pub mod local_copy;
pub mod null;
pub mod number;
pub mod parquet;
pub mod parquet_run;
pub mod path;
pub mod postgres;
pub mod text;
