//! What a read from Postgres asks of the database, and where the next run goes on.

use crate::postgres::source;
use crate::postgres::source::{PostgresSourcePlugin, TransactionIsolation};
use crate::postgres::sql;
use crate::text;
use vstd::prelude::*;

verus! {

/// A transaction is opened with `BEGIN`, and with the configured level behind it, where one is
/// configured.
pub proof fn transaction_has_configured_level(level: Option<TransactionIsolation>)
    ensures
        text::starts_with(source::begin_statement(level), "BEGIN"@),
        level is None <==> source::begin_statement(level) == "BEGIN"@,
        level is Some ==> text::ends_with(
            source::begin_statement(level),
            " ISOLATION LEVEL "@ + (match level->0 {
                TransactionIsolation::ReadCommitted => "READ COMMITTED"@,
                TransactionIsolation::RepeatableRead => "REPEATABLE READ"@,
                TransactionIsolation::Serializable => "SERIALIZABLE"@,
            }),
        ),
{
    reveal_strlit("BEGIN");
    reveal_strlit("BEGIN ISOLATION LEVEL READ COMMITTED");
    reveal_strlit("BEGIN ISOLATION LEVEL REPEATABLE READ");
    reveal_strlit("BEGIN ISOLATION LEVEL SERIALIZABLE");
    reveal_strlit(" ISOLATION LEVEL ");
    reveal_strlit("READ COMMITTED");
    reveal_strlit("REPEATABLE READ");
    reveal_strlit("SERIALIZABLE");
    let s = source::begin_statement(level);
    assert(s.take(5) =~= "BEGIN"@);
    if let Some(l) = level {
        let tail = " ISOLATION LEVEL "@ + (match l {
            TransactionIsolation::ReadCommitted => "READ COMMITTED"@,
            TransactionIsolation::RepeatableRead => "REPEATABLE READ"@,
            TransactionIsolation::Serializable => "SERIALIZABLE"@,
        });
        assert(s.skip(s.len() - tail.len()) =~= tail);
    }
}

/// A full load runs the configured query as it stands.
pub proof fn full_load_runs_query(p: PostgresSourcePlugin)
    requires
        p.cursor_column is None,
    ensures
        p.cursor_text() == p.query@,
{
}

/// An incremental load runs the configured query as a subquery, takes the rows whose cursor column
/// is strictly above the watermark, where there is one, and reads them in ascending order of that
/// column. Without a watermark it takes all rows.
pub proof fn incremental_load_goes_on_behind_watermark(p: PostgresSourcePlugin, column: Seq<char>)
    requires
        text::opt_view(p.cursor_column) == Some(column),
    ensures
        ({
            let watermark = if p.resume_value is Some {
                text::opt_view(p.resume_value)
            } else {
                text::opt_view(p.initial_value)
            };
            let name = sql::quoted(column, '"');
            let head = "SELECT * FROM ("@ + p.query@ + ") AS _ls"@;
            let tail = " ORDER BY _ls."@ + name + " ASC"@;
            match watermark {
                Some(v) => p.cursor_text() == head + (" WHERE _ls."@ + name + " > "@ + sql::quoted(
                    v,
                    '\'',
                )) + tail,
                None => p.cursor_text() == head + tail,
            }
        }),
{
    let name = sql::quoted(column, '"');
    let head = "SELECT * FROM ("@ + p.query@ + ") AS _ls"@;
    let tail = " ORDER BY _ls."@ + name + " ASC"@;
    match p.bound() {
        Some(v) => {
            let clause = " WHERE _ls."@ + name + " > "@ + sql::quoted(v, '\'');
            assert(p.cursor_text() =~= head + clause + tail);
        },
        None => {
            assert(p.cursor_text() =~= head + tail);
        },
    }
}

/// A last row without the cursor column, or with nothing in it, leaves the watermark as it was.
/// The rows before the last do not count.
pub proof fn watermark_stays_without_value(
    watermark: Option<Seq<char>>,
    names: Seq<Seq<char>>,
    rows: Seq<Vec<Option<String>>>,
    column: Seq<char>,
    i: int,
)
    requires
        rows.len() > 0,
    ensures
        (forall|k: int| 0 <= k < names.len() ==> names[k] != column) ==> source::moved_watermark(
            watermark,
            names,
            rows,
            Some(column),
        ) == watermark,
        0 <= i < names.len() && names.len() == rows.last()@.len() && names[i] == column && (forall|
            k: int,
        |
            0 <= k < i ==> names[k] != column) && rows.last()@[i] is None ==> source::moved_watermark(
            watermark,
            names,
            rows,
            Some(column),
        ) == watermark,
        forall|earlier: Seq<Vec<Option<String>>>| #[trigger]
            source::moved_watermark(watermark, names, earlier + rows, Some(column))
                == source::moved_watermark(watermark, names, rows, Some(column)),
{
    if forall|k: int| 0 <= k < names.len() ==> names[k] != column {
        lemma_no_position(names, column);
    }
    if 0 <= i < names.len() && names.len() == rows.last()@.len() && names[i] == column && (forall|
        k: int,
    |
        0 <= k < i ==> names[k] != column) && rows.last()@[i] is None {
        source::lemma_first_position(names, column, i);
        assert(text::opt_views(rows.last()@)[i] == text::opt_view(rows.last()@[i]));
    }
    assert forall|earlier: Seq<Vec<Option<String>>>| #[trigger]
        source::moved_watermark(watermark, names, earlier + rows, Some(column))
            == source::moved_watermark(watermark, names, rows, Some(column)) by {
        assert((earlier + rows).last() == rows.last());
    }
}

proof fn lemma_no_position(names: Seq<Seq<char>>, name: Seq<char>)
    requires
        forall|k: int| 0 <= k < names.len() ==> names[k] != name,
    ensures
        source::first_position(names, name) is None,
    decreases names.len(),
{
    if names.len() > 0 {
        let tail = names.drop_first();
        assert forall|k: int| 0 <= k < tail.len() implies tail[k] != name by {
            assert(tail[k] == names[k + 1]);
        }
        lemma_no_position(tail, name);
    }
}

/// A new source has read nothing, knows no schema and no watermark, and fetches a thousand rows at
/// a time.
pub proof fn new_source_has_read_nothing(p: PostgresSourcePlugin)
    ensures
        p.is_new() <==> p.schema is None && p.batch_size == 1000 && !p.exhausted && p.query@.len()
            == 0 && p.begin_sql@ == "BEGIN"@ && p.cursor_column is None && p.initial_value is None
            && p.resume_value is None && p.last_cursor_value is None && !p.cursor_declared,
{
}

} // verus!
