//! The JSONL destination: one JSON text per row, each on a line of its own.

use crate::json;
use crate::json::{json_error_text, json_to_line};
use crate::text;
use vstd::prelude::*;

verus! {

/// The configuration of the destination.
#[derive(Debug)]
pub struct JsonlConfig {
    /// The file to write. Without one, the rows go to standard output.
    pub path: Option<String>,
}

/// Where the rows go.
#[derive(Debug)]
pub enum OutputTarget {
    File(String),
    Stdout,
}

/// A row cannot be written as JSON, for the given reason.
#[derive(Debug)]
pub struct SerializeError {
    pub reason: String,
}

impl SerializeError {
    /// What an error says of the row.
    pub fn message(&self) -> (m: &'static str)
        ensures
            m@ == "json serialize error"@,
    {
        "json serialize error"
    }
}

/// Frames the JSON text of a row as a line.
pub fn frame_line(json: Result<String, String>) -> (r: Result<String, SerializeError>)
    ensures
        match (r, json) {
            (Ok(line), Ok(s)) => line@ == s@.push('\n'),
            (Err(e), Err(reason)) => e.reason@ == reason@,
            _ => false,
        },
{
    match json {
        Ok(s) => {
            let mut line = s;
            line.push('\n');
            Ok(line)
        },
        Err(reason) => Err(SerializeError { reason }),
    }
}

/// The line of a row: its JSON text, in which no line feed stands, and a line feed. Every row has
/// one.
pub fn row_line(row: &serde_json::Value) -> (r: Result<String, SerializeError>)
    ensures
        r matches Ok(line) && line@ == json::json_content(*row).json_text().push('\n'),
        r matches Ok(line) ==> forall|i: int|
            0 <= i < line@.len() - 1 ==> #[trigger] line@[i] != '\n',
{
    let json = match json_to_line(row) {
        Ok(s) => Ok(s),
        Err(e) => Err(json_error_text(&e)),
    };
    frame_line(json)
}

/// The state of the destination over a run.
#[derive(Debug)]
pub struct JsonlPlugin {
    pub config: Option<JsonlConfig>,
    pub rows_written: u64,
}

impl JsonlPlugin {
    pub fn new() -> (p: JsonlPlugin)
        ensures
            p.config is None,
            p.rows_written == 0,
    {
        JsonlPlugin { config: None, rows_written: 0 }
    }

    /// The name of the plugin.
    pub fn plugin_name(&self) -> (name: &'static str)
        ensures
            name@ == "loadsmith-destination-jsonl"@,
    {
        "loadsmith-destination-jsonl"
    }

    /// Takes a configuration.
    pub fn configure(&mut self, cfg: JsonlConfig)
        ensures
            *final(self) == (JsonlPlugin { config: Some(cfg), ..*old(self) }),
    {
        self.config = Some(cfg);
    }

    /// Where the rows go: into the configured file, which is created, or to standard output.
    pub fn prepare(&self) -> (target: OutputTarget)
        requires
            self.config is Some,
        ensures
            match (target, self.config->0.path) {
                (OutputTarget::File(f), Some(p)) => f@ == p@,
                (OutputTarget::Stdout, None) => true,
                _ => false,
            },
    {
        match &self.config.as_ref().unwrap().path {
            Some(p) => OutputTarget::File(p.clone()),
            None => OutputTarget::Stdout,
        }
    }

    /// Whether another row can be counted.
    pub fn can_count(&self) -> (b: bool)
        ensures
            b == (self.rows_written < u64::MAX),
    {
        self.rows_written < u64::MAX
    }

    /// Counts a row whose line is written.
    pub fn row_written(&mut self)
        requires
            old(self).rows_written < u64::MAX,
        ensures
            *final(self) == (JsonlPlugin {
                rows_written: (old(self).rows_written + 1) as u64,
                ..*old(self)
            }),
    {
        self.rows_written = self.rows_written + 1;
    }

    /// How many rows were written.
    pub fn finalize(&self) -> (n: u64)
        ensures
            n == self.rows_written,
    {
        self.rows_written
    }
}

/// What is written can be cut at its line feeds: the lines of the output are the JSON texts of the
/// rows, one for each row.
pub proof fn output_has_a_line_for_each_row(lines: Seq<Seq<char>>)
    requires
        forall|k: int, i: int|
            0 <= k < lines.len() && 0 <= i < lines[k].len() ==> #[trigger] lines[k][i] != '\n',
    ensures
        text::lines_of(text::ended_lines(lines)) == lines,
{
    text::lines_round_trip(lines);
}

} // verus!
