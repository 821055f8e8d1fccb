//! What a load into Postgres does with its tables.

use crate::laws::literals;
use crate::number;
use crate::postgres::bytea;
use crate::postgres::copy;
use crate::postgres::copy::{Batch, CopyColumn, CopyFault};
use crate::postgres::destination;
use crate::postgres::destination::{CommitMode, PostgresDestConfig};
use crate::postgres::sql;
use crate::postgres::temporal;
use crate::postgres::types::ScalarSeq;
use crate::text;
use vstd::prelude::*;

verus! {

/// The table that a `COPY` statement writes, where its name has no space in it.
pub open spec fn copied_table(statement: Seq<char>) -> Seq<char> {
    text::up_to(statement.skip(5), ' ')
}

/// A staged load goes through one table: the one that each `COPY` writes is the one that the
/// opening creates and the one that the `MERGE` reads. It is not the target, unless the target has
/// the very name of the staging table.
pub proof fn staged_load_goes_through_one_table(
    cfg: PostgresDestConfig,
    columns: Seq<Seq<char>>,
    ending: Seq<Seq<char>>,
)
    requires
        cfg.mode == CommitMode::StagedMerge,
        columns.len() > 0,
        destination::closing(cfg, columns) == Ok::<Seq<Seq<char>>, Seq<char>>(ending),
    ensures
        ({
            let copy = destination::copy_sql(cfg, columns);
            let table = copied_table(copy);
            let opening = destination::opening(cfg);
            &&& text::starts_with(copy, "COPY "@ + table + " (\""@)
            &&& opening.len() == 2
            &&& opening[0] == "BEGIN"@
            &&& text::starts_with(
                opening[1],
                "CREATE TEMP TABLE "@ + table + " (LIKE "@ + cfg.target_table@ + " "@,
            )
            &&& text::ends_with(opening[1], " ON COMMIT DROP"@)
            &&& ending.len() == 2
            &&& text::starts_with(
                ending[0],
                "MERGE INTO "@ + cfg.target_table@ + " t USING "@ + table + " s ON "@,
            )
            &&& ending[1] == "COMMIT"@
            &&& table == "_ls_staging"@
            &&& cfg.target_table@ != "_ls_staging"@ ==> table != cfg.target_table@
        }),
{
    let copy = destination::copy_sql(cfg, columns);
    let table = "_ls_staging"@;
    let opening = destination::opening(cfg);
    let idents = sql::idents(columns, ""@);
    reveal_strlit("_ls_staging");
    reveal_strlit("COPY ");
    reveal_strlit(" (");
    reveal_strlit(" (\"");
    reveal_strlit("");
    let behind = copy.skip(5);
    let rest = copy.skip(16);
    assert(behind =~= table + rest);
    assert(rest[0] == ' ');
    text::lemma_word_up_to(table, rest, ' ');
    lemma_joined_idents_start(columns);
    assert(copy.take(19) =~= "COPY "@ + table + " (\""@);
    let created = "CREATE TEMP TABLE "@ + table + " (LIKE "@ + cfg.target_table@ + " "@;
    reveal_strlit(" INCLUDING DEFAULTS) ON COMMIT DROP");
    reveal_strlit(" ON COMMIT DROP");
    reveal_strlit(" ");
    assert(opening[1].take(created.len() as int) =~= created);
    assert(opening[1].skip(opening[1].len() - " ON COMMIT DROP"@.len()) =~= " ON COMMIT DROP"@);
    let merged = "MERGE INTO "@ + cfg.target_table@ + " t USING "@ + table + " s ON "@;
    assert(ending[0].take(merged.len() as int) =~= merged);
}

proof fn lemma_joined_idents_start(columns: Seq<Seq<char>>)
    requires
        columns.len() > 0,
    ensures
        text::joined(sql::idents(columns, ""@), ", "@).len() > 0,
        text::joined(sql::idents(columns, ""@), ", "@)[0] == '"',
{
    reveal_strlit("");
    let idents = sql::idents(columns, ""@);
    assert(idents[0] == ""@ + sql::ident(columns[0]));
    assert(idents[0][0] == '"');
}

/// An atomic load writes straight into the target, in one transaction.
pub proof fn atomic_load_writes_target(cfg: PostgresDestConfig, columns: Seq<Seq<char>>)
    requires
        cfg.mode == CommitMode::Atomic,
    ensures
        text::starts_with(
            destination::copy_sql(cfg, columns),
            "COPY "@ + cfg.target_table@ + " ("@,
        ),
        destination::opening(cfg) == seq!["BEGIN"@],
        destination::closing(cfg, columns) == Ok::<Seq<Seq<char>>, Seq<char>>(seq!["COMMIT"@]),
{
    let head = "COPY "@ + cfg.target_table@ + " ("@;
    assert(destination::copy_sql(cfg, columns).take(head.len() as int) =~= head);
}

/// A list of quoted identifiers, each behind `prefix`, with a comma and a space between two.
pub open spec fn name_list(names: Seq<Seq<char>>, prefix: Seq<char>) -> Seq<char> {
    text::joined(
        Seq::new(names.len(), |i: int| prefix + sql::quoted(names[i], '"')),
        ", "@,
    )
}

/// The columns of a `COPY` are those of the data, all of them, in order, and each quoted.
pub proof fn copy_lists_every_column(cfg: PostgresDestConfig, columns: Seq<Seq<char>>)
    ensures
        text::ends_with(
            destination::copy_sql(cfg, columns),
            " ("@ + name_list(columns, ""@) + ") FROM STDIN WITH (FORMAT text)"@,
        ),
{
    let tail = " ("@ + name_list(columns, ""@) + ") FROM STDIN WITH (FORMAT text)"@;
    let s = destination::copy_sql(cfg, columns);
    assert(sql::idents(columns, ""@) =~= Seq::new(
        columns.len(),
        |i: int| ""@ + sql::quoted(columns[i], '"'),
    ));
    assert(s.skip(s.len() - tail.len()) =~= tail);
}

/// A `MERGE` matches a staged row with a row of the target where they agree on every key, and on
/// nothing else. A row without a match is inserted whole, with every column and its staged value,
/// in the same order. A row with a match gets the staged value of every column that is no key, and
/// stays as it is where there is no such column.
pub proof fn merge_goes_by_keys(
    target: Seq<char>,
    staging: Seq<char>,
    columns: Seq<Seq<char>>,
    keys: Seq<Seq<char>>,
)
    ensures
        ({
            let matches_on = text::joined(
                Seq::new(
                    keys.len(),
                    |i: int|
                        "t."@ + sql::quoted(keys[i], '"') + " = s."@ + sql::quoted(keys[i], '"'),
                ),
                " AND "@,
            );
            let head = "MERGE INTO "@ + target + " t USING "@ + staging + " s ON "@ + matches_on
                + " WHEN MATCHED THEN "@;
            let tail = " WHEN NOT MATCHED THEN INSERT ("@ + name_list(columns, ""@) + ") VALUES ("@
                + name_list(columns, "s."@) + ")"@;
            let others = columns.filter(|c: Seq<char>| !keys.contains(c));
            let action = if others.len() == 0 {
                "DO NOTHING"@
            } else {
                "UPDATE SET "@ + text::joined(
                    Seq::new(
                        others.len(),
                        |i: int| sql::quoted(others[i], '"') + " = s."@ + sql::quoted(others[i], '"'),
                    ),
                    ", "@,
                )
            };
            destination::merge_sql(target, staging, columns, keys) == head + action + tail
        }),
{
    let equal_keys = Seq::new(
        keys.len(),
        |i: int| "t."@ + sql::quoted(keys[i], '"') + " = s."@ + sql::quoted(keys[i], '"'),
    );
    let head = "MERGE INTO "@ + target + " t USING "@ + staging + " s ON "@ + text::joined(
        equal_keys,
        " AND "@,
    ) + " WHEN MATCHED THEN "@;
    let tail = " WHEN NOT MATCHED THEN INSERT ("@ + name_list(columns, ""@) + ") VALUES ("@
        + name_list(columns, "s."@) + ")"@;
    let others = columns.filter(|c: Seq<char>| !keys.contains(c));
    let set = Seq::new(
        others.len(),
        |i: int| sql::quoted(others[i], '"') + " = s."@ + sql::quoted(others[i], '"'),
    );
    assert(sql::equations(keys, "t."@) =~= equal_keys);
    assert(sql::idents(columns, ""@) =~= Seq::new(
        columns.len(),
        |i: int| ""@ + sql::quoted(columns[i], '"'),
    ));
    assert(sql::idents(columns, "s."@) =~= Seq::new(
        columns.len(),
        |i: int| "s."@ + sql::quoted(columns[i], '"'),
    ));
    assert(destination::non_keys(columns, keys) == others);
    reveal_strlit("");
    reveal_strlit(" ");
    reveal_strlit("DO NOTHING");
    reveal_strlit("UPDATE SET ");
    reveal_strlit(" WHEN MATCHED THEN ");
    reveal_strlit("WHEN MATCHED THEN DO NOTHING");
    reveal_strlit("WHEN MATCHED THEN UPDATE SET ");
    assert forall|i: int| 0 <= i < others.len() implies sql::equations(others, ""@)[i] == set[i] by {
        assert(sql::equations(others, ""@)[i] =~= set[i]);
    }
    assert(sql::equations(others, ""@) =~= set);
    let whole = destination::merge_sql(target, staging, columns, keys);
    assert(" "@ + "WHEN MATCHED THEN DO NOTHING"@ =~= " WHEN MATCHED THEN "@ + "DO NOTHING"@);
    assert(" "@ + "WHEN MATCHED THEN UPDATE SET "@ =~= " WHEN MATCHED THEN "@ + "UPDATE SET "@);
    let before = "MERGE INTO "@ + target + " t USING "@ + staging + " s ON "@ + text::joined(
        equal_keys,
        " AND "@,
    );
    if others.len() == 0 {
        assert(whole =~= before + (" "@ + "WHEN MATCHED THEN DO NOTHING"@) + tail);
        assert(whole =~= head + "DO NOTHING"@ + tail);
    } else {
        let action = "UPDATE SET "@ + text::joined(set, ", "@);
        assert(whole =~= before + (" "@ + "WHEN MATCHED THEN UPDATE SET "@) + text::joined(
            set,
            ", "@,
        ) + tail);
        assert(whole =~= head + action + tail);
    }
}

/// The columns that are updated are those that are no keys, each as often as the data has it, and
/// in the order of the data.
pub proof fn updated_columns_keep_their_order(
    a: Seq<Seq<char>>,
    b: Seq<Seq<char>>,
    c: Seq<char>,
    keys: Seq<Seq<char>>,
)
    ensures
        destination::non_keys(a + b, keys) == destination::non_keys(a, keys)
            + destination::non_keys(b, keys),
        keys.contains(c) ==> destination::non_keys(seq![c], keys).len() == 0,
        !keys.contains(c) ==> destination::non_keys(seq![c], keys) == seq![c],
{
    let p = |c: Seq<char>| !keys.contains(c);
    Seq::filter_distributes_over_add(a, b, p);
    reveal(Seq::filter);
    assert(seq![c].drop_last() =~= Seq::<Seq<char>>::empty());
    assert(Seq::<Seq<char>>::empty().filter(p) =~= Seq::<Seq<char>>::empty());
    assert(seq![c].filter(p) =~= if p(c) {
        seq![c]
    } else {
        Seq::<Seq<char>>::empty()
    });
}

/// A staged load is closed only where every key is a column; else the first key that is none is
/// named. A load without data, and an atomic load, only commits.
pub proof fn load_closes_where_keys_are_columns(
    cfg: PostgresDestConfig,
    columns: Seq<Seq<char>>,
    i: int,
)
    requires
        cfg.mode == CommitMode::StagedMerge,
    ensures
        columns.len() == 0 ==> destination::closing(cfg, columns) == Ok::<
            Seq<Seq<char>>,
            Seq<char>,
        >(seq!["COMMIT"@]),
        columns.len() > 0 ==> (destination::closing(cfg, columns) is Ok <==> forall|k: int|
            0 <= k < cfg.merge_key@.len() ==> columns.contains((#[trigger] cfg.merge_key@[k])@)),
        columns.len() > 0 && 0 <= i < cfg.merge_key@.len() && !columns.contains(
            cfg.merge_key@[i]@,
        ) && (forall|k: int| 0 <= k < i ==> columns.contains((#[trigger] cfg.merge_key@[k])@))
            ==> destination::closing(cfg, columns) == Err::<Seq<Seq<char>>, Seq<char>>(
            cfg.merge_key@[i]@,
        ),
{
    let keys = text::views(cfg.merge_key@);
    assert(keys.len() == cfg.merge_key@.len());
    destination::missing_key_is_named(keys, columns);
    if forall|k: int| 0 <= k < cfg.merge_key@.len() ==> columns.contains(
        (#[trigger] cfg.merge_key@[k])@,
    ) {
        assert forall|k: int| 0 <= k < keys.len() implies columns.contains(#[trigger] keys[k]) by {
            assert(keys[k] == cfg.merge_key@[k]@);
        }
    }
    if forall|k: int| 0 <= k < keys.len() ==> columns.contains(#[trigger] keys[k]) {
        assert forall|k: int| 0 <= k < cfg.merge_key@.len() implies columns.contains(
            (#[trigger] cfg.merge_key@[k])@,
        ) by {
            assert(keys[k] == cfg.merge_key@[k]@);
        }
    }
    if 0 <= i < cfg.merge_key@.len() && !columns.contains(cfg.merge_key@[i]@) && (forall|k: int|
        0 <= k < i ==> columns.contains((#[trigger] cfg.merge_key@[k])@)) {
        assert forall|k: int| 0 <= k < i implies columns.contains(#[trigger] keys[k]) by {
            assert(keys[k] == cfg.merge_key@[k]@);
        }
        lemma_first_missing(keys, columns, i);
    }
}

proof fn lemma_first_missing(keys: Seq<Seq<char>>, columns: Seq<Seq<char>>, i: int)
    requires
        0 <= i < keys.len(),
        !columns.contains(keys[i]),
        forall|k: int| 0 <= k < i ==> columns.contains(#[trigger] keys[k]),
    ensures
        destination::first_missing(keys, columns) == Some(keys[i]),
    decreases i,
{
    if i > 0 {
        assert(columns.contains(keys[0]));
        let tail = keys.drop_first();
        assert forall|k: int| 0 <= k < i - 1 implies columns.contains(#[trigger] tail[k]) by {
            assert(tail[k] == keys[k + 1]);
        }
        lemma_first_missing(tail, columns, i - 1);
    }
}

/// A value is written as the database writes it: integers in decimal digits, truth values as one
/// letter, byte strings in hexadecimal digits, dates and times as `chrono` writes them, and texts
/// and floating-point numbers as they are. An absent value has no text.
pub proof fn values_are_written_as_sent(
    numbers: Seq<Option<i32>>,
    large: Seq<Option<i64>>,
    texts: Seq<Option<Seq<char>>>,
    truths: Seq<Option<bool>>,
    bytes: Seq<Option<Seq<u8>>>,
    row: int,
)
    ensures
        copy::scalar_rendering(ScalarSeq::Int32(numbers), row) == Ok::<
            Option<Seq<char>>,
            CopyFault,
        >(
            match numbers[row] {
                Some(n) => Some(number::signed_decimal(n as int)),
                None => None,
            },
        ),
        copy::scalar_rendering(ScalarSeq::Int64(large), row) == Ok::<Option<Seq<char>>, CopyFault>(
            match large[row] {
                Some(n) => Some(number::signed_decimal(n as int)),
                None => None,
            },
        ),
        copy::scalar_rendering(ScalarSeq::Float32(texts), row) == Ok::<
            Option<Seq<char>>,
            CopyFault,
        >(texts[row]),
        copy::scalar_rendering(ScalarSeq::Float64(texts), row) == Ok::<
            Option<Seq<char>>,
            CopyFault,
        >(texts[row]),
        copy::scalar_rendering(ScalarSeq::Utf8(texts), row) == Ok::<Option<Seq<char>>, CopyFault>(
            texts[row],
        ),
        copy::scalar_rendering(ScalarSeq::Boolean(truths), row) == Ok::<
            Option<Seq<char>>,
            CopyFault,
        >(
            match truths[row] {
                Some(true) => Some("t"@),
                Some(false) => Some("f"@),
                None => None,
            },
        ),
        copy::scalar_rendering(ScalarSeq::Binary(bytes), row) == Ok::<Option<Seq<char>>, CopyFault>(
            match bytes[row] {
                Some(b) => Some(bytea::bytea_literal(b)),
                None => None,
            },
        ),
{
}

/// A date or a time is written as `chrono` writes it, and refused, with its number, exactly where
/// `chrono` has no such date or time.
pub proof fn times_are_written_within_range(
    days: Seq<Option<i32>>,
    millis: Seq<Option<i64>>,
    row: int,
)
    ensures
        match days[row] {
            None => copy::scalar_rendering(ScalarSeq::Date32(days), row) == Ok::<
                Option<Seq<char>>,
                CopyFault,
            >(None),
            Some(d) => {
                &&& -96_465_292 <= d <= 95_026_236 ==> copy::scalar_rendering(
                    ScalarSeq::Date32(days),
                    row,
                ) == Ok::<Option<Seq<char>>, CopyFault>(temporal::formatted_date(d, "%Y-%m-%d"@))
                &&& !(-96_465_292 <= d <= 95_026_236) ==> copy::scalar_rendering(
                    ScalarSeq::Date32(days),
                    row,
                ) == Err::<Option<Seq<char>>, CopyFault>(CopyFault::DateOutOfRange(d))
            },
        },
        match millis[row] {
            None => copy::scalar_rendering(ScalarSeq::TimestampMillisecond(millis), row) == Ok::<
                Option<Seq<char>>,
                CopyFault,
            >(None),
            Some(m) => {
                &&& -8_334_601_228_800_000 <= m <= 8_210_266_876_799_999 ==> copy::scalar_rendering(
                    ScalarSeq::TimestampMillisecond(millis),
                    row,
                ) == Ok::<Option<Seq<char>>, CopyFault>(
                    temporal::formatted_date_time(m, "%Y-%m-%d %H:%M:%S%.f"@),
                )
                &&& !(-8_334_601_228_800_000 <= m <= 8_210_266_876_799_999)
                    ==> copy::scalar_rendering(ScalarSeq::TimestampMillisecond(millis), row) == Err::<
                    Option<Seq<char>>,
                    CopyFault,
                >(CopyFault::TimestampOutOfRange(m))
            },
        },
{
}

/// A column of long texts is written as it is, and a column of a type that cannot be written is
/// refused at the first value that is there.
pub proof fn other_columns_are_written_or_refused(column: CopyColumn, row: int)
    ensures
        column matches CopyColumn::LargeUtf8(v) ==> copy::cell_rendering(column, row) == Ok::<
            Option<Seq<char>>,
            CopyFault,
        >(
            match v@[row] {
                Some(t) => Some(t@),
                None => None,
            },
        ),
        column matches CopyColumn::Unsupported { data_type, absent } ==> copy::cell_rendering(
            column,
            row,
        ) == if absent@[row] {
            Ok::<Option<Seq<char>>, CopyFault>(None)
        } else {
            Err(CopyFault::Unsupported(data_type@))
        },
        column matches CopyColumn::Flat(values) ==> copy::cell_rendering(column, row)
            == copy::scalar_rendering(values@, row),
{
}

/// The payload of a batch is a line for each row, ended by a line feed: the cells of the row,
/// escaped, with a tab between two of them.
pub proof fn payload_is_line_per_row(batch: Batch, cells: Seq<Seq<Option<Seq<char>>>>)
    requires
        cells.len() == batch.num_rows,
        forall|r: int|
            0 <= r < cells.len() ==> (#[trigger] cells[r]).len() == batch.columns@.len(),
        forall|r: int, c: int|
            0 <= r < cells.len() && 0 <= c < batch.columns@.len() ==> copy::cell_rendering(
                batch.columns@[c],
                r,
            ) == Ok::<Option<Seq<char>>, CopyFault>(#[trigger] cells[r][c]),
    ensures
        copy::payload(batch) == Ok::<Seq<char>, CopyFault>(
            text::ended_lines(
                Seq::new(cells.len(), |r: int| line_text(cells[r])),
            ),
        ),
{
    lemma_lines(batch.columns@, cells, cells.len());
    let lines = Seq::new(cells.len(), |r: int| line_text(cells[r]));
    assert(lines.take(cells.len() as int) =~= lines);
}

/// The fields of a row: its cells, escaped, and `\N` for an absent cell.
pub open spec fn fields_of(cells: Seq<Option<Seq<char>>>) -> Seq<Seq<char>> {
    Seq::new(
        cells.len(),
        |c: int|
            match cells[c] {
                Some(t) => copy::escaped(t),
                None => seq!['\\', 'N'],
            },
    )
}

/// The fields of a row, with a tab between two of them.
pub open spec fn line_text(cells: Seq<Option<Seq<char>>>) -> Seq<char> {
    text::joined(fields_of(cells), seq!['\t'])
}

proof fn lemma_fields(columns: Seq<CopyColumn>, row: int, cells: Seq<Option<Seq<char>>>, n: nat)
    requires
        n <= columns.len(),
        cells.len() == columns.len(),
        forall|c: int|
            0 <= c < columns.len() ==> copy::cell_rendering(columns[c], row) == Ok::<
                Option<Seq<char>>,
                CopyFault,
            >(#[trigger] cells[c]),
    ensures
        copy::fields_text(columns, row, n) == Ok::<Seq<char>, CopyFault>(
            line_text(cells.take(n as int)),
        ),
    decreases n,
{
    if n == 0 {
        assert(line_text(cells.take(0)) =~= Seq::<char>::empty());
    } else {
        let m = (n - 1) as nat;
        lemma_fields(columns, row, cells, m);
        let before = fields_of(cells.take(m as int));
        let all = fields_of(cells.take(n as int));
        let last = seq![all[n - 1]];
        assert(copy::cell_rendering(columns[n - 1], row) == Ok::<Option<Seq<char>>, CopyFault>(
            cells[n - 1],
        ));
        assert(all =~= before + last);
        literals::join_puts_separator_between(before, last, seq!['\t']);
        literals::join_puts_separator_between(last, last, seq!['\t']);
        if n == 1 {
            assert(all =~= last);
        } else {
            assert(text::joined(before, seq!['\t']).push('\t') + last[0] =~= text::joined(
                before,
                seq!['\t'],
            ) + seq!['\t'] + last[0]);
        }
    }
}

proof fn lemma_lines(columns: Seq<CopyColumn>, cells: Seq<Seq<Option<Seq<char>>>>, n: nat)
    requires
        n <= cells.len(),
        forall|r: int| 0 <= r < cells.len() ==> (#[trigger] cells[r]).len() == columns.len(),
        forall|r: int, c: int|
            0 <= r < cells.len() && 0 <= c < columns.len() ==> copy::cell_rendering(columns[c], r)
                == Ok::<Option<Seq<char>>, CopyFault>(#[trigger] cells[r][c]),
    ensures
        copy::lines_text(columns, n) == Ok::<Seq<char>, CopyFault>(
            text::ended_lines(
                Seq::new(cells.len(), |r: int| line_text(cells[r])).take(n as int),
            ),
        ),
    decreases n,
{
    let lines = Seq::new(cells.len(), |r: int| line_text(cells[r]));
    if n == 0 {
        assert(lines.take(0).len() == 0);
    } else {
        lemma_lines(columns, cells, (n - 1) as nat);
        let row = cells[n - 1];
        assert(row.len() == columns.len());
        lemma_fields(columns, n - 1, row, columns.len());
        assert(row.take(columns.len() as int) =~= row);
        let before = lines.take(n - 1);
        assert(lines.take(n as int) =~= before.push(line_text(row)));
        lemma_ended_push(before, line_text(row));
    }
}

proof fn lemma_ended_push(lines: Seq<Seq<char>>, line: Seq<char>)
    ensures
        text::ended_lines(lines.push(line)) == (text::ended_lines(lines) + line).push('\n'),
    decreases lines.len(),
{
    if lines.len() == 0 {
        assert(lines.push(line).drop_first() =~= Seq::<Seq<char>>::empty());
        reveal_with_fuel(text::ended_lines, 2);
        assert(text::ended_lines(lines.push(line)) =~= (text::ended_lines(lines) + line).push('\n'));
    } else {
        assert(lines.push(line).drop_first() =~= lines.drop_first().push(line));
        lemma_ended_push(lines.drop_first(), line);
        assert(text::ended_lines(lines.push(line)) =~= (text::ended_lines(lines) + line).push('\n'));
    }
}

/// Where a batch cannot be written, the first cell that cannot be, row by row, says why.
pub proof fn first_bad_value_is_reported(batch: Batch, row: int, column: int, f: CopyFault)
    requires
        0 <= row < batch.num_rows,
        0 <= column < batch.columns@.len(),
        copy::cell_rendering(batch.columns@[column], row) == Err::<Option<Seq<char>>, CopyFault>(f),
        forall|r: int, c: int|
            0 <= r < row && 0 <= c < batch.columns@.len() ==> (#[trigger] copy::cell_rendering(
                batch.columns@[c],
                r,
            )) is Ok,
        forall|c: int|
            0 <= c < column ==> (#[trigger] copy::cell_rendering(batch.columns@[c], row)) is Ok,
    ensures
        copy::payload(batch) == Err::<Seq<char>, CopyFault>(f),
{
    let columns = batch.columns@;
    lemma_fields_fail(columns, row, column, f, columns.len());
    lemma_lines_fail(columns, row, f, batch.num_rows as nat);
}

proof fn lemma_fields_fail(
    columns: Seq<CopyColumn>,
    row: int,
    column: int,
    f: CopyFault,
    n: nat,
)
    requires
        0 <= column < columns.len(),
        n <= columns.len(),
        copy::cell_rendering(columns[column], row) == Err::<Option<Seq<char>>, CopyFault>(f),
        forall|c: int| 0 <= c < column ==> (#[trigger] copy::cell_rendering(columns[c], row)) is Ok,
    ensures
        n <= column ==> copy::fields_text(columns, row, n) is Ok,
        n > column ==> copy::fields_text(columns, row, n) == Err::<Seq<char>, CopyFault>(f),
    decreases n,
{
    if n > 0 {
        lemma_fields_fail(columns, row, column, f, (n - 1) as nat);
    }
}

proof fn lemma_fields_succeed(columns: Seq<CopyColumn>, row: int, n: nat)
    requires
        n <= columns.len(),
        forall|c: int|
            0 <= c < columns.len() ==> (#[trigger] copy::cell_rendering(columns[c], row)) is Ok,
    ensures
        copy::fields_text(columns, row, n) is Ok,
    decreases n,
{
    if n > 0 {
        lemma_fields_succeed(columns, row, (n - 1) as nat);
        assert(copy::cell_rendering(columns[n - 1], row) is Ok);
    }
}

proof fn lemma_lines_fail(columns: Seq<CopyColumn>, row: int, f: CopyFault, n: nat)
    requires
        0 <= row,
        copy::fields_text(columns, row, columns.len()) == Err::<Seq<char>, CopyFault>(f),
        forall|r: int, c: int|
            0 <= r < row && 0 <= c < columns.len() ==> (#[trigger] copy::cell_rendering(
                columns[c],
                r,
            )) is Ok,
    ensures
        n <= row ==> copy::lines_text(columns, n) is Ok,
        n > row ==> copy::lines_text(columns, n) == Err::<Seq<char>, CopyFault>(f),
    decreases n,
{
    if n > 0 {
        lemma_lines_fail(columns, row, f, (n - 1) as nat);
        if n <= row {
            lemma_fields_succeed(columns, n - 1, columns.len());
        }
    }
}

/// The statements that are executed are the texts that they hold, one by one.
pub proof fn statements_are_their_texts(statements: Seq<destination::Statement>, i: int)
    requires
        0 <= i < statements.len(),
    ensures
        destination::sqls(statements).len() == statements.len(),
        destination::sqls(statements)[i] == statements[i].sql@,
{
}

} // verus!
