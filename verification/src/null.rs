//! The null destination: it discards every batch and counts the rows.

use vstd::prelude::*;

verus! {

/// A destination that discards every batch, counting rows only, for tests of throughput where the
/// output does not matter.
#[derive(Debug)]
pub struct NullPlugin {
    pub rows_written: u64,
}

impl NullPlugin {
    pub fn new() -> (p: NullPlugin)
        ensures
            p.rows_written == 0,
    {
        NullPlugin { rows_written: 0 }
    }

    /// The name of the plugin.
    pub fn plugin_name(&self) -> (name: &'static str)
        ensures
            name@ == "loadsmith-destination-null"@,
    {
        "loadsmith-destination-null"
    }

    /// Whether the count of rows stays in range with `rows` more.
    pub fn can_count(&self, rows: usize) -> (b: bool)
        ensures
            b == (self.rows_written + rows <= u64::MAX),
    {
        self.rows_written <= u64::MAX - rows as u64
    }

    /// Counts the rows of a batch.
    pub fn write_batch(&mut self, num_rows: usize)
        requires
            old(self).rows_written + num_rows <= u64::MAX,
        ensures
            final(self).rows_written == old(self).rows_written + num_rows,
    {
        self.rows_written = self.rows_written + num_rows as u64;
    }

    /// How many rows there were.
    pub fn finalize(&self) -> (n: u64)
        ensures
            n == self.rows_written,
    {
        self.rows_written
    }
}

} // verus!
