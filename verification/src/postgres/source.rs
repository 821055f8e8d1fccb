//! The Postgres source: a server-side cursor over a query, read batch by batch, with an optional
//! watermark from which the next run resumes.

use crate::json;
use crate::json::{json_string, json_to_text, text_or_json, JsonValue, TextOrJson};
use crate::number;
use crate::number::decimal_text;
use crate::postgres::conn::ConnectionConfig;
use crate::postgres::sql;
use crate::postgres::sql::{quote, quote_ident};
use crate::postgres::types;
use crate::postgres::types::{
    columns_to_schema, try_rows_to_batch_text, ColumnData, ColumnError, Field, PgColumn,
};
use crate::text;
use crate::text::same_text;
use vstd::prelude::*;

verus! {

/// The isolation level of the cursor's transaction.
#[derive(Debug, Clone, Copy, PartialEq, Eq, Structural)]
pub enum TransactionIsolation {
    ReadCommitted,
    RepeatableRead,
    Serializable,
}

/// An incremental load: reading resumes strictly after the watermark of `cursor_column`.
#[derive(Debug)]
pub struct IncrementalConfig {
    pub cursor_column: String,
    /// The watermark of the very first run. Without one, the first run reads everything.
    pub initial_value: Option<String>,
}

/// The configuration of the source.
#[derive(Debug)]
pub struct PostgresConfig {
    pub conn: ConnectionConfig,
    pub query: String,
    pub batch_size: usize,
    pub transaction_isolation: Option<TransactionIsolation>,
    pub incremental: Option<IncrementalConfig>,
}

/// How many rows a batch has where nothing else is configured.
pub fn default_batch_size() -> (n: usize)
    ensures
        n == 1000,
{
    1000
}

impl PostgresConfig {
    /// A configuration with everything left at its default but for what has none.
    pub fn new(conn: ConnectionConfig, query: String) -> (cfg: PostgresConfig)
        ensures
            cfg.conn == conn,
            cfg.query == query,
            cfg.batch_size == 1000,
            cfg.transaction_isolation is None,
            cfg.incremental is None,
    {
        PostgresConfig {
            conn,
            query,
            batch_size: default_batch_size(),
            transaction_isolation: None,
            incremental: None,
        }
    }
}

/// The statement that opens a transaction at the given level.
pub open spec fn begin_statement(level: Option<TransactionIsolation>) -> Seq<char> {
    match level {
        None => "BEGIN"@,
        Some(TransactionIsolation::ReadCommitted) => "BEGIN ISOLATION LEVEL READ COMMITTED"@,
        Some(TransactionIsolation::RepeatableRead) => "BEGIN ISOLATION LEVEL REPEATABLE READ"@,
        Some(TransactionIsolation::Serializable) => "BEGIN ISOLATION LEVEL SERIALIZABLE"@,
    }
}

/// The condition that leaves only rows behind the watermark.
pub open spec fn where_clause(column: Seq<char>, bound: Option<Seq<char>>) -> Seq<char> {
    match bound {
        Some(v) => " WHERE _ls."@ + sql::ident(column) + " > "@ + sql::quoted(v, '\''),
        None => Seq::empty(),
    }
}

/// The query that the cursor runs over: the configured one or, with a cursor column, the rows of
/// the configured one behind the watermark, in the order of the cursor column.
pub open spec fn cursor_query_of(
    query: Seq<char>,
    column: Option<Seq<char>>,
    bound: Option<Seq<char>>,
) -> Seq<char> {
    match column {
        None => query,
        Some(c) => "SELECT * FROM ("@ + query + ") AS _ls"@ + where_clause(c, bound)
            + " ORDER BY _ls."@ + sql::ident(c) + " ASC"@,
    }
}

/// The first position of `name` among the names.
pub open spec fn first_position(names: Seq<Seq<char>>, name: Seq<char>) -> Option<int>
    decreases names.len(),
{
    if names.len() == 0 {
        None
    } else if names[0] == name {
        Some(0)
    } else {
        match first_position(names.drop_first(), name) {
            Some(i) => Some(i + 1),
            None => None,
        }
    }
}

/// The value of the cursor column in a row, where there is such a column and its cell is not
/// absent.
pub open spec fn cursor_value(
    names: Seq<Seq<char>>,
    row: Seq<Option<Seq<char>>>,
    column: Option<Seq<char>>,
) -> Option<Seq<char>> {
    match column {
        None => None,
        Some(c) => match first_position(names, c) {
            Some(i) => row[i],
            None => None,
        },
    }
}

/// The watermark once rows are read that came with the given column names: the cursor value of the
/// last row, where it has one.
pub open spec fn moved_watermark(
    watermark: Option<Seq<char>>,
    names: Seq<Seq<char>>,
    rows: Seq<Vec<Option<String>>>,
    column: Option<Seq<char>>,
) -> Option<Seq<char>> {
    if rows.len() == 0 {
        watermark
    } else {
        match cursor_value(names, text::opt_views(rows.last()@), column) {
            Some(v) => Some(v),
            None => watermark,
        }
    }
}

/// What the source does next.
#[derive(Debug)]
pub enum SourceAction {
    /// Open the transaction and declare the cursor.
    OpenCursor { begin: String, declare: String },
    /// Fetch the next rows.
    Fetch(String),
    /// There is nothing more to read.
    Finished,
}

/// What fetched rows come to.
#[derive(Debug)]
pub enum Fetched {
    /// There were no more rows. The statement ends the cursor and its transaction.
    End(&'static str),
    /// The columns of a batch, or why there are none.
    Batch(Result<Vec<ColumnData>, ColumnError>),
    /// A byte string cannot be cut into pairs.
    Misaligned,
}

fn position_of(names: &Vec<String>, name: &str) -> (r: Option<usize>)
    ensures
        match (r, first_position(text::views(names@), name@)) {
            (Some(i), Some(k)) => i == k && i < names@.len(),
            (None, None) => true,
            _ => false,
        },
{
    let ghost all = text::views(names@);
    assert(all.skip(0) =~= all);
    for i in 0..names.len()
        invariant
            all == text::views(names@),
            match (first_position(all, name@), first_position(all.skip(i as int), name@)) {
                (Some(k), Some(n)) => k == i + n,
                (None, None) => true,
                _ => false,
            },
    {
        assert(all.skip(i as int).drop_first() =~= all.skip(i + 1));
        if same_text(names[i].as_str(), name) {
            return Some(i);
        }
    }
    None
}

fn copy_optional(s: &Option<String>) -> (r: Option<String>)
    ensures
        text::opt_view(r) == text::opt_view(*s),
{
    match s {
        Some(t) => Some(t.clone()),
        None => None,
    }
}

/// The state of the source over a run.
#[derive(Debug)]
pub struct PostgresSourcePlugin {
    pub schema: Option<Vec<Field>>,
    pub batch_size: usize,
    pub exhausted: bool,
    /// The configured query.
    pub query: String,
    /// The statement that opens the cursor's transaction.
    pub begin_sql: String,
    /// Set where the load is incremental.
    pub cursor_column: Option<String>,
    /// The watermark of the first run, used where there is none to resume from.
    pub initial_value: Option<String>,
    /// The watermark of the run before.
    pub resume_value: Option<String>,
    /// The value of the cursor column in the last row read in this run.
    pub last_cursor_value: Option<String>,
    /// The cursor is declared with the first batch, once the watermark is known.
    pub cursor_declared: bool,
}

impl Default for PostgresSourcePlugin {
    fn default() -> (p: PostgresSourcePlugin)
        ensures
            p.is_new(),
    {
        PostgresSourcePlugin::new()
    }
}

impl PostgresSourcePlugin {
    /// Whether the source is as a new one.
    pub open spec fn is_new(self) -> bool {
        &&& self.schema is None
        &&& self.batch_size == 1000
        &&& !self.exhausted
        &&& self.query@.len() == 0
        &&& self.begin_sql@ == "BEGIN"@
        &&& self.cursor_column is None
        &&& self.initial_value is None
        &&& self.resume_value is None
        &&& self.last_cursor_value is None
        &&& !self.cursor_declared
    }

    pub fn new() -> (p: PostgresSourcePlugin)
        ensures
            p.is_new(),
    {
        PostgresSourcePlugin {
            schema: None,
            batch_size: 1000,
            exhausted: false,
            query: String::new(),
            begin_sql: "BEGIN".to_owned(),
            cursor_column: None,
            initial_value: None,
            resume_value: None,
            last_cursor_value: None,
            cursor_declared: false,
        }
    }

    /// The name of the plugin.
    pub fn plugin_name(&self) -> (name: &'static str)
        ensures
            name@ == "loadsmith-source-postgres"@,
    {
        "loadsmith-source-postgres"
    }

    /// What the source can do. Whether a load is incremental is up to its configuration.
    pub fn capabilities(&self) -> (c: Vec<String>)
        ensures
            text::views(c@) == seq!["batch_read"@, "schema_inference"@, "incremental_state"@],
    {
        let mut c: Vec<String> = Vec::new();
        c.push("batch_read".to_owned());
        c.push("schema_inference".to_owned());
        c.push("incremental_state".to_owned());
        assert(text::views(c@) =~= seq!["batch_read"@, "schema_inference"@, "incremental_state"@]);
        c
    }

    /// The watermark that reading starts behind: that of the run before, else the configured one.
    pub open spec fn bound(self) -> Option<Seq<char>> {
        match self.resume_value {
            Some(v) => Some(v@),
            None => text::opt_view(self.initial_value),
        }
    }

    /// The query that the cursor runs over.
    pub open spec fn cursor_text(self) -> Seq<char> {
        cursor_query_of(self.query@, text::opt_view(self.cursor_column), self.bound())
    }

    /// Builds the query that the cursor runs over. Without a cursor column this is the configured
    /// query as it stands. With one, the configured query becomes a subquery, filtered by the
    /// watermark and ordered by the cursor column, so that the last row read carries the new
    /// watermark. The watermark is a quoted literal, which Postgres reads as the type of the
    /// cursor column.
    pub fn cursor_query(&self) -> (s: String)
        ensures
            s@ == self.cursor_text(),
    {
        match &self.cursor_column {
            None => self.query.clone(),
            Some(col) => {
                let ident = quote_ident(col.as_str());
                let bound = match &self.resume_value {
                    Some(v) => Some(v),
                    None => self.initial_value.as_ref(),
                };
                let mut s = String::new();
                s.append("SELECT * FROM (");
                s.append(self.query.as_str());
                s.append(") AS _ls");
                match bound {
                    Some(v) => {
                        let literal = quote(v.as_str(), '\'');
                        s.append(" WHERE _ls.");
                        s.append(ident.as_str());
                        s.append(" > ");
                        s.append(literal.as_str());
                    },
                    None => {},
                }
                s.append(" ORDER BY _ls.");
                s.append(ident.as_str());
                s.append(" ASC");
                assert(s@ =~= self.cursor_text());
                s
            },
        }
    }

    /// Takes the watermark of the run before: a string as it is, any other JSON value as its text.
    pub fn resume_from(&mut self, cursor_value: Option<serde_json::Value>)
        ensures
            *final(self) == (PostgresSourcePlugin {
                resume_value: final(self).resume_value,
                ..*old(self)
            }),
            text::opt_view(final(self).resume_value) == match cursor_value {
                Some(v) => Some(json::json_content(v).plain_text()),
                None => None,
            },
    {
        self.resume_value = match cursor_value {
            None => None,
            Some(v) => match text_or_json(v) {
                TextOrJson::Text(s) => Some(s),
                TextOrJson::Json(other) => Some(json_to_text(&other)),
            },
        };
    }

    /// The watermark to keep for the next run: a string.
    pub fn current_watermark(&self) -> (r: Option<serde_json::Value>)
        ensures
            match (r, self.last_cursor_value) {
                (Some(v), Some(s)) => json::json_content(v) == JsonValue::Text(s@),
                (None, None) => true,
                _ => false,
            },
    {
        match &self.last_cursor_value {
            Some(s) => Some(json_string(s.clone())),
            None => None,
        }
    }

    /// Takes a configuration, and the columns that the database gives the query. There is a cursor
    /// column exactly where the configuration has an `incremental` block.
    pub fn configure(&mut self, cfg: PostgresConfig, columns: &Vec<PgColumn>)
        ensures
            final(self).begin_sql@ == begin_statement(cfg.transaction_isolation),
            final(self).query == cfg.query,
            final(self).batch_size == cfg.batch_size,
            final(self).schema matches Some(schema) && schema@.len() == columns@.len() && forall|
                i: int,
            |
                0 <= i < columns@.len() ==> types::is_field_of(#[trigger] schema@[i], columns@[i]),
            match cfg.incremental {
                Some(inc) => {
                    &&& final(self).cursor_column == Some(inc.cursor_column)
                    &&& final(self).initial_value == inc.initial_value
                },
                None => {
                    &&& final(self).cursor_column is None
                    &&& final(self).initial_value is None
                },
            },
            cfg.incremental is None ==> final(self).cursor_text() == cfg.query@,
            final(self).resume_value == old(self).resume_value,
            final(self).last_cursor_value == old(self).last_cursor_value,
            final(self).cursor_declared == old(self).cursor_declared,
            final(self).exhausted == old(self).exhausted,
    {
        self.begin_sql = match cfg.transaction_isolation {
            None => "BEGIN".to_owned(),
            Some(TransactionIsolation::ReadCommitted) => {
                "BEGIN ISOLATION LEVEL READ COMMITTED".to_owned()
            },
            Some(TransactionIsolation::RepeatableRead) => {
                "BEGIN ISOLATION LEVEL REPEATABLE READ".to_owned()
            },
            Some(TransactionIsolation::Serializable) => {
                "BEGIN ISOLATION LEVEL SERIALIZABLE".to_owned()
            },
        };
        match cfg.incremental {
            Some(inc) => {
                self.cursor_column = Some(inc.cursor_column);
                self.initial_value = inc.initial_value;
            },
            None => {
                self.cursor_column = None;
                self.initial_value = None;
            },
        }
        self.query = cfg.query;
        self.schema = Some(columns_to_schema(columns));
        self.batch_size = cfg.batch_size;
    }

    /// What the source does next: it opens the cursor before the first fetch, fetches as long as
    /// there are rows, and does nothing once there are none.
    pub fn next_action(&self) -> (action: SourceAction)
        ensures
            match action {
                SourceAction::Finished => self.exhausted,
                SourceAction::OpenCursor { begin, declare } => {
                    &&& !self.exhausted
                    &&& !self.cursor_declared
                    &&& begin@ == self.begin_sql@
                    &&& declare@ == "DECLARE ls_cursor NO SCROLL CURSOR FOR ("@ + self.cursor_text()
                        + ")"@
                },
                SourceAction::Fetch(s) => {
                    &&& !self.exhausted
                    &&& self.cursor_declared
                    &&& s@ == "FETCH FORWARD "@ + number::decimal(self.batch_size as nat)
                        + " FROM ls_cursor"@
                },
            },
    {
        if self.exhausted {
            return SourceAction::Finished;
        }
        let mut s = String::new();
        if !self.cursor_declared {
            let query = self.cursor_query();
            s.append("DECLARE ls_cursor NO SCROLL CURSOR FOR (");
            s.append(query.as_str());
            s.append(")");
            assert(s@ =~= "DECLARE ls_cursor NO SCROLL CURSOR FOR ("@ + self.cursor_text() + ")"@);
            return SourceAction::OpenCursor { begin: self.begin_sql.clone(), declare: s };
        }
        let count = decimal_text(self.batch_size as u128);
        s.append("FETCH FORWARD ");
        s.append(count.as_str());
        s.append(" FROM ls_cursor");
        assert(s@ =~= "FETCH FORWARD "@ + number::decimal(self.batch_size as nat)
            + " FROM ls_cursor"@);
        SourceAction::Fetch(s)
    }

    /// Notes that the cursor is declared.
    pub fn cursor_opened(&mut self)
        ensures
            *final(self) == (PostgresSourcePlugin { cursor_declared: true, ..*old(self) }),
    {
        self.cursor_declared = true;
    }

    /// Takes fetched rows, with the column names that the last of them came with. Without rows the
    /// source is exhausted. Else the watermark moves to the cursor value of the last row, also
    /// where the rows make no batch.
    pub fn rows_fetched(&mut self, names: &Vec<String>, rows: &Vec<Vec<Option<String>>>) -> (r:
        Fetched)
        requires
            old(self).schema is Some,
            forall|i: int|
                0 <= i < rows@.len() ==> old(self).schema->0@.len() <= #[trigger] rows@[i]@.len(),
            rows@.len() > 0 ==> names@.len() == rows@.last()@.len(),
        ensures
            *final(self) == (PostgresSourcePlugin {
                exhausted: final(self).exhausted,
                last_cursor_value: final(self).last_cursor_value,
                ..*old(self)
            }),
            final(self).exhausted == (old(self).exhausted || rows@.len() == 0),
            text::opt_view(final(self).last_cursor_value) == moved_watermark(
                text::opt_view(old(self).last_cursor_value),
                text::views(names@),
                rows@,
                text::opt_view(old(self).cursor_column),
            ),
            match r {
                Fetched::End(s) => rows@.len() == 0 && s@ == "CLOSE ls_cursor; COMMIT"@,
                Fetched::Misaligned => {
                    &&& rows@.len() > 0
                    &&& types::is_misaligned_batch(old(self).schema->0@, rows@)
                },
                Fetched::Batch(batch) => {
                    &&& rows@.len() > 0
                    &&& !types::is_misaligned_batch(old(self).schema->0@, rows@)
                    &&& match (batch, types::batch_reading(old(self).schema->0@, rows@)) {
                        (Ok(v), Ok(s)) => types::column_views(v@) == s,
                        (Err(e), Err(f)) => e@ == f,
                        _ => false,
                    }
                },
            },
    {
        if rows.len() == 0 {
            self.exhausted = true;
            return Fetched::End("CLOSE ls_cursor; COMMIT");
        }
        let last = &rows[rows.len() - 1];
        let mut seen: Option<String> = None;
        match &self.cursor_column {
            Some(col) => {
                match position_of(names, col.as_str()) {
                    Some(i) => {
                        assert(text::opt_views(last@)[i as int] == text::opt_view(last@[i as int]));
                        seen = copy_optional(&last[i]);
                    },
                    None => {},
                }
            },
            None => {},
        }
        if seen.is_some() {
            self.last_cursor_value = seen;
        }
        match try_rows_to_batch_text(rows, self.schema.as_ref().unwrap()) {
            Some(batch) => Fetched::Batch(batch),
            None => Fetched::Misaligned,
        }
    }

    /// The statement that ends the cursor of an unfinished run.
    pub fn cancel(&self) -> (s: &'static str)
        ensures
            s@ == "CLOSE ls_cursor; ROLLBACK"@,
    {
        "CLOSE ls_cursor; ROLLBACK"
    }
}

/// The watermark that one run reports, taken by the next run, is the bound of its query: a string
/// literal that the database reads as exactly the value that the last row had, whatever is in it,
/// and an identifier that it reads as exactly the cursor column.
pub proof fn watermark_bounds_next_run(
    earlier: PostgresSourcePlugin,
    later: PostgresSourcePlugin,
    watermark: serde_json::Value,
    column: Seq<char>,
    rest: Seq<char>,
)
    requires
        earlier.last_cursor_value is Some,
        json::json_content(watermark) == JsonValue::Text(earlier.last_cursor_value->0@),
        text::opt_view(later.resume_value) == Some(json::json_content(watermark).plain_text()),
        text::opt_view(later.cursor_column) == Some(column),
        rest.len() > 0 ==> rest[0] != '\'' && rest[0] != '"',
    ensures
        later.bound() == Some(earlier.last_cursor_value->0@),
        later.cursor_text() == "SELECT * FROM ("@ + later.query@ + ") AS _ls"@ + (" WHERE _ls."@
            + sql::ident(column) + " > "@ + sql::quoted(earlier.last_cursor_value->0@, '\''))
            + " ORDER BY _ls."@ + sql::ident(column) + " ASC"@,
        sql::quoted_reading(
            sql::quoted(earlier.last_cursor_value->0@, '\'') + rest,
            '\'',
        ) == Some((earlier.last_cursor_value->0@, rest)),
        sql::quoted_reading(sql::ident(column) + rest, '"') == Some((column, rest)),
{
    sql::quote_round_trip(earlier.last_cursor_value->0@, '\'', rest);
    sql::quote_round_trip(column, '"', rest);
}

/// Reading never loses the watermark, reading nothing leaves it, and a last row with a cursor value
/// sets it.
pub proof fn watermark_follows_last_row(
    watermark: Option<Seq<char>>,
    names: Seq<Seq<char>>,
    rows: Seq<Vec<Option<String>>>,
    column: Seq<char>,
)
    ensures
        watermark is Some ==> moved_watermark(watermark, names, rows, Some(column)) is Some,
        rows.len() == 0 ==> moved_watermark(watermark, names, rows, Some(column)) == watermark,
        moved_watermark(watermark, names, rows, None) == watermark,
        forall|i: int|
            rows.len() > 0 && 0 <= i < names.len() && names.len() == rows.last()@.len()
                && names[i] == column && (forall|k: int| 0 <= k < i ==> names[k] != column)
                && rows.last()@[i] is Some ==> moved_watermark(
                watermark,
                names,
                rows,
                Some(column),
            ) == text::opt_view(#[trigger] rows.last()@[i]),
{
    assert forall|i: int|
        rows.len() > 0 && 0 <= i < names.len() && names.len() == rows.last()@.len() && names[i]
            == column && (forall|k: int| 0 <= k < i ==> names[k] != column)
            && rows.last()@[i] is Some implies moved_watermark(
        watermark,
        names,
        rows,
        Some(column),
    ) == text::opt_view(#[trigger] rows.last()@[i]) by {
        lemma_first_position(names, column, i);
    }
}

pub proof fn lemma_first_position(names: Seq<Seq<char>>, name: Seq<char>, i: int)
    requires
        0 <= i < names.len(),
        names[i] == name,
        forall|k: int| 0 <= k < i ==> names[k] != name,
    ensures
        first_position(names, name) == Some(i),
    decreases i,
{
    if i > 0 {
        let tail = names.drop_first();
        assert(tail[i - 1] == names[i]);
        assert forall|k: int| 0 <= k < i - 1 implies tail[k] != name by {
            assert(tail[k] == names[k + 1]);
        }
        lemma_first_position(tail, name, i - 1);
    }
}

/// The configured watermark counts only where there is none of a run before.
pub proof fn resume_takes_priority(p: PostgresSourcePlugin)
    ensures
        p.resume_value is Some ==> p.bound() == text::opt_view(p.resume_value),
        p.resume_value is None ==> p.bound() == text::opt_view(p.initial_value),
{
}

} // verus!
