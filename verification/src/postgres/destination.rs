//! The Postgres destination: which statements load the batches of a run, in one transaction,
//! straight into the target table or through a staging table and a `MERGE`.

use crate::postgres::conn::ConnectionConfig;
use crate::postgres::copy;
use crate::postgres::copy::{batch_to_copy_text, Batch, CopyError};
use crate::postgres::sql;
use crate::postgres::sql::{equation_list, ident_list, is_listed};
use crate::text;
use crate::text::join;
use vstd::prelude::*;

verus! {

/// How a load becomes durable.
#[derive(Debug, Clone, Copy, PartialEq, Eq, Structural)]
pub enum CommitMode {
    /// One transaction for the whole load; `COPY` straight into the target, `COMMIT` at the end.
    /// All or nothing, at least once.
    Atomic,
    /// `COPY` into a staging table, then `MERGE` by the merge key into the target, in a single
    /// transaction. Idempotent by key.
    StagedMerge,
}

impl Default for CommitMode {
    fn default() -> (r: CommitMode)
        ensures
            r == CommitMode::Atomic,
    {
        CommitMode::Atomic
    }
}

/// The configuration of the destination.
#[derive(Debug)]
pub struct PostgresDestConfig {
    pub conn: ConnectionConfig,
    /// Target table, with or without a schema, such as `public.events`.
    pub target_table: String,
    pub mode: CommitMode,
    /// Key columns; `CommitMode::StagedMerge` needs at least one.
    pub merge_key: Vec<String>,
}

impl PostgresDestConfig {
    /// A configuration with the default mode and no merge key.
    pub fn new(conn: ConnectionConfig, target_table: String) -> (cfg: PostgresDestConfig)
        ensures
            cfg.conn == conn,
            cfg.target_table == target_table,
            cfg.mode == CommitMode::Atomic,
            cfg.merge_key@.len() == 0,
    {
        PostgresDestConfig { conn, target_table, mode: CommitMode::default(), merge_key: Vec::new() }
    }
}

/// Why the destination refuses a configuration, or the data of a load.
#[derive(Debug)]
pub enum DestError {
    /// A staged merge is configured without a merge key.
    NoMergeKey,
    /// A column of the merge key is no column of the data.
    KeyNotInData(String),
}

impl DestError {
    /// The wording of the error.
    pub open spec fn wording(self) -> Seq<char> {
        match self {
            DestError::NoMergeKey => "mode 'staged_merge' requires a non-empty merge_key"@,
            DestError::KeyNotInData(k) => "merge_key column '"@ + k@
                + "' is not present in the data"@,
        }
    }

    /// The wording of the error.
    pub fn message(&self) -> (m: String)
        ensures
            m@ == self.wording(),
    {
        let mut m = String::new();
        match self {
            DestError::NoMergeKey => {
                m.append("mode 'staged_merge' requires a non-empty merge_key");
            },
            DestError::KeyNotInData(k) => {
                m.append("merge_key column '");
                m.append(k.as_str());
                m.append("' is not present in the data");
            },
        }
        assert(m@ =~= self.wording());
        m
    }
}

/// A statement that is to be executed.
#[derive(Debug)]
pub struct Statement {
    pub sql: String,
    /// What an error says where executing it fails.
    pub failure: &'static str,
}

/// A `COPY ... FROM STDIN` that is to be run, and what it is fed.
#[derive(Debug)]
pub struct CopyStep {
    pub sql: String,
    pub payload: String,
}

/// The statements, as texts.
pub open spec fn sqls(statements: Seq<Statement>) -> Seq<Seq<char>> {
    statements.map_values(|s: Statement| s.sql@)
}

/// The name of the staging table. The table is temporary and dropped on commit.
pub open spec fn staging_name() -> Seq<char> {
    "_ls_staging"@
}

/// The name of the staging table.
pub fn staging_table() -> (name: &'static str)
    ensures
        name@ == staging_name(),
{
    "_ls_staging"
}

/// Where `COPY` writes: the staging table for a staged merge, else straight into the target.
pub open spec fn copy_target_of(cfg: PostgresDestConfig) -> Seq<char> {
    match cfg.mode {
        CommitMode::StagedMerge => staging_name(),
        CommitMode::Atomic => cfg.target_table@,
    }
}

/// The `COPY` statement of a run with the given columns.
pub open spec fn copy_sql(cfg: PostgresDestConfig, columns: Seq<Seq<char>>) -> Seq<char> {
    "COPY "@ + copy_target_of(cfg) + " ("@ + text::joined(sql::idents(columns, ""@), ", "@)
        + ") FROM STDIN WITH (FORMAT text)"@
}

/// The statements that open a load.
pub open spec fn opening(cfg: PostgresDestConfig) -> Seq<Seq<char>> {
    match cfg.mode {
        CommitMode::Atomic => seq!["BEGIN"@],
        CommitMode::StagedMerge => seq![
            "BEGIN"@,
            "CREATE TEMP TABLE "@ + staging_name() + " (LIKE "@ + cfg.target_table@
                + " INCLUDING DEFAULTS) ON COMMIT DROP"@,
        ],
    }
}

/// The first name of `keys` that is not among `columns`.
pub open spec fn first_missing(keys: Seq<Seq<char>>, columns: Seq<Seq<char>>) -> Option<Seq<char>>
    decreases keys.len(),
{
    if keys.len() == 0 {
        None
    } else if !columns.contains(keys[0]) {
        Some(keys[0])
    } else {
        first_missing(keys.drop_first(), columns)
    }
}

/// The columns that are no keys.
pub open spec fn non_keys(columns: Seq<Seq<char>>, keys: Seq<Seq<char>>) -> Seq<Seq<char>> {
    columns.filter(|c: Seq<char>| !keys.contains(c))
}

/// What a `MERGE` does with a row whose key is in the target already.
pub open spec fn when_matched(columns: Seq<Seq<char>>, keys: Seq<Seq<char>>) -> Seq<char> {
    if non_keys(columns, keys).len() == 0 {
        "WHEN MATCHED THEN DO NOTHING"@
    } else {
        "WHEN MATCHED THEN UPDATE SET "@ + text::joined(
            sql::equations(non_keys(columns, keys), ""@),
            ", "@,
        )
    }
}

/// The `MERGE` that brings the staged rows into the target.
pub open spec fn merge_sql(
    target: Seq<char>,
    staging: Seq<char>,
    columns: Seq<Seq<char>>,
    keys: Seq<Seq<char>>,
) -> Seq<char> {
    "MERGE INTO "@ + target + " t USING "@ + staging + " s ON "@ + text::joined(
        sql::equations(keys, "t."@),
        " AND "@,
    ) + " "@ + when_matched(columns, keys) + " WHEN NOT MATCHED THEN INSERT ("@ + text::joined(
        sql::idents(columns, ""@),
        ", "@,
    ) + ") VALUES ("@ + text::joined(sql::idents(columns, "s."@), ", "@) + ")"@
}

/// The statements that close a load whose `COPY`s had the given columns, or the key that is not
/// among them.
pub open spec fn closing(cfg: PostgresDestConfig, columns: Seq<Seq<char>>) -> Result<
    Seq<Seq<char>>,
    Seq<char>,
> {
    if cfg.mode == CommitMode::StagedMerge && columns.len() > 0 {
        match first_missing(text::views(cfg.merge_key@), columns) {
            Some(k) => Err(k),
            None => Ok(
                seq![
                    merge_sql(
                        cfg.target_table@,
                        staging_name(),
                        columns,
                        text::views(cfg.merge_key@),
                    ),
                    "COMMIT"@,
                ],
            ),
        }
    } else {
        Ok(seq!["COMMIT"@])
    }
}

fn missing_key(columns: &Vec<String>, merge_key: &Vec<String>) -> (r: Option<String>)
    ensures
        text::opt_view(r) == first_missing(text::views(merge_key@), text::views(columns@)),
{
    let ghost keys = text::views(merge_key@);
    let ghost cols = text::views(columns@);
    assert(keys.skip(0) =~= keys);
    for i in 0..merge_key.len()
        invariant
            keys == text::views(merge_key@),
            cols == text::views(columns@),
            first_missing(keys, cols) == first_missing(keys.skip(i as int), cols),
    {
        assert(keys.skip(i as int).drop_first() =~= keys.skip(i + 1));
        if !is_listed(columns, merge_key[i].as_str()) {
            return Some(merge_key[i].clone());
        }
    }
    None
}

fn non_key_columns(columns: &Vec<String>, merge_key: &Vec<String>) -> (r: Vec<String>)
    ensures
        text::views(r@) == non_keys(text::views(columns@), text::views(merge_key@)),
{
    let ghost keys = text::views(merge_key@);
    let ghost cols = text::views(columns@);
    let mut r: Vec<String> = Vec::new();
    reveal(Seq::filter);
    assert(text::views(r@) =~= non_keys(cols.take(0), keys));
    for i in 0..columns.len()
        invariant
            keys == text::views(merge_key@),
            cols == text::views(columns@),
            text::views(r@) == non_keys(cols.take(i as int), keys),
    {
        reveal(Seq::filter);
        let ghost before = text::views(r@);
        assert(cols.take(i + 1).drop_last() =~= cols.take(i as int));
        if !is_listed(merge_key, columns[i].as_str()) {
            r.push(columns[i].clone());
            assert(text::views(r@) =~= before.push(cols[i as int]));
        }
    }
    assert(cols.take(columns@.len() as int) =~= cols);
    r
}

/// Builds the `MERGE` that brings the staged rows into the target, keyed on `merge_key`. Updates
/// the other columns on a match and inserts the full row otherwise. Where every column is a key,
/// it does nothing on a match.
pub fn build_merge_sql(
    target: &str,
    staging: &str,
    columns: &Vec<String>,
    merge_key: &Vec<String>,
) -> (r: Result<String, DestError>)
    ensures
        match (r, first_missing(text::views(merge_key@), text::views(columns@))) {
            (Ok(s), None) => s@ == merge_sql(
                target@,
                staging@,
                text::views(columns@),
                text::views(merge_key@),
            ),
            (Err(DestError::KeyNotInData(k)), Some(missing)) => k@ == missing,
            _ => false,
        },
{
    match missing_key(columns, merge_key) {
        Some(k) => {
            return Err(DestError::KeyNotInData(k));
        },
        None => {},
    }
    let on = join(&equation_list(merge_key, "t."), " AND ");
    let others = non_key_columns(columns, merge_key);
    let ghost cols = text::views(columns@);
    let ghost keys = text::views(merge_key@);
    assert(text::views(others@).len() == others@.len());
    let mut matched = String::new();
    if others.len() == 0 {
        matched.append("WHEN MATCHED THEN DO NOTHING");
    } else {
        matched.append("WHEN MATCHED THEN UPDATE SET ");
        let set = join(&equation_list(&others, ""), ", ");
        matched.append(set.as_str());
    }
    assert(matched@ =~= when_matched(cols, keys));
    let col_list = join(&ident_list(columns, ""), ", ");
    let val_list = join(&ident_list(columns, "s."), ", ");
    let mut s = String::new();
    s.append("MERGE INTO ");
    s.append(target);
    s.append(" t USING ");
    s.append(staging);
    s.append(" s ON ");
    s.append(on.as_str());
    s.append(" ");
    s.append(matched.as_str());
    s.append(" WHEN NOT MATCHED THEN INSERT (");
    s.append(col_list.as_str());
    s.append(") VALUES (");
    s.append(val_list.as_str());
    s.append(")");
    assert(s@ =~= merge_sql(target@, staging@, cols, keys));
    Ok(s)
}

/// The state of the destination over a run.
#[derive(Debug)]
pub struct PostgresDestPlugin {
    pub config: Option<PostgresDestConfig>,
    /// Column names of the first batch: the column list of `COPY` and `MERGE`.
    pub columns: Vec<String>,
    pub rows_written: u64,
}

impl Default for PostgresDestPlugin {
    fn default() -> (p: PostgresDestPlugin)
        ensures
            p.config is None,
            p.columns@.len() == 0,
            p.rows_written == 0,
    {
        PostgresDestPlugin::new()
    }
}

fn copy_names(names: &Vec<String>) -> (r: Vec<String>)
    ensures
        text::views(r@) == text::views(names@),
{
    let mut r: Vec<String> = Vec::new();
    for i in 0..names.len()
        invariant
            text::views(r@) == text::views(names@).take(i as int),
    {
        let ghost before = text::views(r@);
        r.push(names[i].clone());
        assert(text::views(r@) =~= before.push(names@[i as int]@));
        assert(text::views(r@) =~= text::views(names@).take(i + 1));
    }
    assert(text::views(r@) =~= text::views(names@));
    r
}

impl PostgresDestPlugin {
    pub fn new() -> (p: PostgresDestPlugin)
        ensures
            p.config is None,
            p.columns@.len() == 0,
            p.rows_written == 0,
    {
        PostgresDestPlugin { config: None, columns: Vec::new(), rows_written: 0 }
    }

    /// The name of the plugin.
    pub fn plugin_name(&self) -> (name: &'static str)
        ensures
            name@ == "loadsmith-destination-postgres"@,
    {
        "loadsmith-destination-postgres"
    }

    /// What the destination can do.
    pub fn capabilities(&self) -> (c: Vec<String>)
        ensures
            text::views(c@) == seq!["batch_write"@, "staged_merge"@],
    {
        let mut c: Vec<String> = Vec::new();
        c.push("batch_write".to_owned());
        c.push("staged_merge".to_owned());
        assert(text::views(c@) =~= seq!["batch_write"@, "staged_merge"@]);
        c
    }

    /// The configuration.
    pub fn cfg(&self) -> (cfg: &PostgresDestConfig)
        requires
            self.config is Some,
        ensures
            *cfg == self.config->0,
    {
        self.config.as_ref().unwrap()
    }

    /// Where `COPY` writes.
    pub fn copy_target(&self) -> (target: &str)
        requires
            self.config is Some,
        ensures
            target@ == copy_target_of(self.config->0),
    {
        let cfg = self.cfg();
        match cfg.mode {
            CommitMode::StagedMerge => staging_table(),
            CommitMode::Atomic => cfg.target_table.as_str(),
        }
    }

    /// Takes a configuration, unless it asks for a staged merge without a key.
    pub fn configure(&mut self, cfg: PostgresDestConfig) -> (r: Result<(), DestError>)
        ensures
            final(self).columns == old(self).columns,
            final(self).rows_written == old(self).rows_written,
            if cfg.mode == CommitMode::StagedMerge && cfg.merge_key@.len() == 0 {
                r == Err::<(), DestError>(DestError::NoMergeKey) && final(self).config == old(
                    self,
                ).config
            } else {
                r is Ok && final(self).config == Some(cfg)
            },
    {
        if cfg.mode == CommitMode::StagedMerge && cfg.merge_key.len() == 0 {
            return Err(DestError::NoMergeKey);
        }
        self.config = Some(cfg);
        Ok(())
    }

    /// The statements that open the load on a new connection. One transaction spans the whole
    /// load.
    pub fn prepare(&self) -> (statements: Vec<Statement>)
        requires
            self.config is Some,
        ensures
            sqls(statements@) == opening(self.config->0),
            statements@[0].failure@ == "BEGIN failed"@,
            statements@.len() > 1 ==> statements@[1].failure@ == "create staging table failed"@,
    {
        let cfg = self.cfg();
        let mut statements: Vec<Statement> = Vec::new();
        statements.push(Statement { sql: "BEGIN".to_owned(), failure: "BEGIN failed" });
        if cfg.mode == CommitMode::StagedMerge {
            let mut s = String::new();
            s.append("CREATE TEMP TABLE ");
            s.append(staging_table());
            s.append(" (LIKE ");
            s.append(cfg.target_table.as_str());
            s.append(" INCLUDING DEFAULTS) ON COMMIT DROP");
            assert(s@ =~= opening(*cfg)[1]);
            statements.push(Statement { sql: s, failure: "create staging table failed" });
        }
        assert(sqls(statements@) =~= opening(*cfg));
        statements
    }

    /// Whether the count of rows stays in range with `rows` more.
    pub fn can_count(&self, rows: usize) -> (b: bool)
        ensures
            b == (self.rows_written + rows <= u64::MAX),
    {
        self.rows_written <= u64::MAX - rows as u64
    }

    /// What writing a batch asks of the database. The rows are counted, and the first batch fixes
    /// the columns, also where the batch cannot be written.
    pub fn write_batch(&mut self, batch: &Batch) -> (r: Result<CopyStep, CopyError>)
        requires
            old(self).config is Some,
            batch.well_formed(),
            old(self).rows_written + batch.num_rows <= u64::MAX,
        ensures
            final(self).config == old(self).config,
            final(self).rows_written == old(self).rows_written + batch.num_rows,
            text::views(final(self).columns@) == if old(self).columns@.len() == 0 {
                text::views(batch.names@)
            } else {
                text::views(old(self).columns@)
            },
            match (r, copy::payload(*batch)) {
                (Ok(step), Ok(s)) => {
                    &&& step.payload@ == s
                    &&& step.sql@ == copy_sql(
                        old(self).config->0,
                        text::views(final(self).columns@),
                    )
                },
                (Err(e), Err(f)) => e@ == f,
                _ => false,
            },
    {
        if self.columns.len() == 0 {
            self.columns = copy_names(&batch.names);
        }
        self.rows_written = self.rows_written + batch.num_rows as u64;
        let cols = join(&ident_list(&self.columns, ""), ", ");
        let mut s = String::new();
        s.append("COPY ");
        s.append(self.copy_target());
        s.append(" (");
        s.append(cols.as_str());
        s.append(") FROM STDIN WITH (FORMAT text)");
        assert(s@ =~= copy_sql(self.config->0, text::views(self.columns@)));
        match batch_to_copy_text(batch) {
            Ok(payload) => Ok(CopyStep { sql: s, payload }),
            Err(e) => Err(e),
        }
    }

    /// The statements that close the load. The commit is the point of durability. Once they are
    /// executed, `rows_written` is the count of rows.
    pub fn finalize(&self) -> (r: Result<Vec<Statement>, DestError>)
        requires
            self.config is Some,
        ensures
            match (r, closing(self.config->0, text::views(self.columns@))) {
                (Ok(statements), Ok(s)) => {
                    &&& sqls(statements@) == s
                    &&& statements@.last().failure@ == "COMMIT failed"@
                    &&& statements@.len() > 1 ==> statements@[0].failure@ == "MERGE failed"@
                },
                (Err(DestError::KeyNotInData(k)), Err(missing)) => k@ == missing,
                _ => false,
            },
    {
        let cfg = self.cfg();
        let ghost cols = text::views(self.columns@);
        let mut statements: Vec<Statement> = Vec::new();
        if cfg.mode == CommitMode::StagedMerge && self.columns.len() > 0 {
            match build_merge_sql(
                cfg.target_table.as_str(),
                staging_table(),
                &self.columns,
                &cfg.merge_key,
            ) {
                Ok(s) => {
                    statements.push(Statement { sql: s, failure: "MERGE failed" });
                },
                Err(e) => {
                    return Err(e);
                },
            }
        }
        statements.push(Statement { sql: "COMMIT".to_owned(), failure: "COMMIT failed" });
        assert(sqls(statements@) =~= closing(*cfg, cols)->Ok_0);
        Ok(statements)
    }

    /// The statement that undoes an open load.
    pub fn cancel(&self) -> (s: &'static str)
        ensures
            s@ == "ROLLBACK"@,
    {
        "ROLLBACK"
    }
}

/// A key is named as missing exactly where some key is no column.
pub proof fn missing_key_is_named(keys: Seq<Seq<char>>, columns: Seq<Seq<char>>)
    ensures
        first_missing(keys, columns) is None <==> forall|i: int|
            0 <= i < keys.len() ==> columns.contains(#[trigger] keys[i]),
        first_missing(keys, columns) matches Some(k) ==> keys.contains(k) && !columns.contains(k),
    decreases keys.len(),
{
    if keys.len() > 0 && columns.contains(keys[0]) {
        let tail = keys.drop_first();
        missing_key_is_named(tail, columns);
        if forall|i: int| 0 <= i < keys.len() ==> columns.contains(#[trigger] keys[i]) {
            assert forall|i: int| 0 <= i < tail.len() implies columns.contains(
                #[trigger] tail[i],
            ) by {
                assert(tail[i] == keys[i + 1]);
            }
        }
        if forall|i: int| 0 <= i < tail.len() ==> columns.contains(#[trigger] tail[i]) {
            assert forall|i: int| 0 <= i < keys.len() implies columns.contains(
                #[trigger] keys[i],
            ) by {
                if i > 0 {
                    assert(tail[i - 1] == keys[i]);
                }
            }
        }
        if let Some(k) = first_missing(tail, columns) {
            let i = choose|i: int| 0 <= i < tail.len() && tail[i] == k;
            assert(keys[i + 1] == k);
        }
    }
}

/// A `MERGE` accounts for every column: each is either matched on, as a key, or updated, and no
/// column is both.
pub proof fn merge_accounts_for_columns(
    columns: Seq<Seq<char>>,
    keys: Seq<Seq<char>>,
    c: Seq<char>,
)
    requires
        columns.contains(c),
    ensures
        non_keys(columns, keys).contains(c) <==> !keys.contains(c),
{
    broadcast use vstd::seq_lib::group_filter_ensures;

    let p = |c: Seq<char>| !keys.contains(c);
    let i = choose|i: int| 0 <= i < columns.len() && columns[i] == c;
    if p(c) {
        columns.lemma_filter_contains(p, i);
    }
}

/// A load is one transaction: it opens with `BEGIN`, its last statement is `COMMIT`, and nothing
/// before that one commits.
pub proof fn load_is_one_transaction(cfg: PostgresDestConfig, columns: Seq<Seq<char>>)
    ensures
        opening(cfg)[0] == "BEGIN"@,
        !opening(cfg).contains("COMMIT"@),
        copy_sql(cfg, columns) != "COMMIT"@,
        closing(cfg, columns) matches Ok(s) ==> s.last() == "COMMIT"@ && !s.drop_last().contains(
            "COMMIT"@,
        ),
{
    reveal_strlit("COMMIT");
    reveal_strlit("BEGIN");
    reveal_strlit("COPY ");
    reveal_strlit("CREATE TEMP TABLE ");
    reveal_strlit("MERGE INTO ");
    assert("COMMIT"@[0] != "BEGIN"@[0]);
    assert(opening(cfg).len() > 1 ==> opening(cfg)[1][1] == 'R');
    assert(copy_sql(cfg, columns)[2] == 'P');
    if let Ok(s) = closing(cfg, columns) {
        if s.len() > 1 {
            assert(s[0][0] == 'M');
        }
    }
}

} // verus!
