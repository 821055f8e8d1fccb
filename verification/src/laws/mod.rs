//! What the library promises, in terms of what goes into its operations and what comes out, apart
//! from how their parts are defined.

pub mod columns;
pub mod connection;
pub mod extract;
pub mod literals;
pub mod load;
pub mod numbers;
pub mod parquet_files;
pub mod paths;
pub mod wordings;
