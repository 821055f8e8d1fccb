//! A whole run of the Parquet destination, step by step: which files it creates and hands on, and
//! how many rows it counts.

use crate::parquet;
use crate::parquet::{ParquetConfig, ParquetPlugin};
use crate::path;
use crate::text;
use vstd::prelude::*;

verus! {

/// The state of the destination, as sequences.
pub struct ParquetState {
    pub config: Option<ParquetConfig>,
    pub threshold: Option<u64>,
    pub writer_open: bool,
    pub schema_known: bool,
    pub seq: u64,
    pub current_path: Option<Seq<char>>,
    pub created: Seq<Seq<char>>,
    pub ready: Seq<Seq<char>>,
    pub rows_written: nat,
}

impl View for ParquetPlugin {
    type V = ParquetState;

    open spec fn view(&self) -> ParquetState {
        ParquetState {
            config: self.config,
            threshold: self.threshold,
            writer_open: self.writer_open,
            schema_known: self.schema_known,
            seq: self.seq,
            current_path: text::opt_view(self.current_path),
            created: text::views(self.created@),
            ready: text::views(self.ready@),
            rows_written: self.rows_written as nat,
        }
    }
}

impl ParquetState {
    /// Whether a run is configured and has not begun.
    pub open spec fn is_fresh(self) -> bool {
        &&& self.config is Some
        &&& !self.writer_open
        &&& !self.schema_known
        &&& self.seq == 0
        &&& self.current_path is None
        &&& self.created.len() == 0
        &&& self.ready.len() == 0
        &&& self.rows_written == 0
    }

    /// The path of the file with a sequence number, or of the single file.
    pub open spec fn path_of(self, seq: Option<u64>) -> Seq<char> {
        let cfg = self.config->0;
        path::joined_path(
            cfg.path@,
            parquet::file_name_text(cfg.prefix@, cfg.compression, seq),
        )
    }

    /// The sequence number of the file opened last, once a batch is started.
    pub open spec fn next_seq(self) -> u64 {
        if !self.writer_open && self.threshold is Some {
            (self.seq + 1) as u64
        } else {
            self.seq
        }
    }

    /// The path of the file to create for a batch, where no writer is open.
    pub open spec fn path_to_create(self) -> Option<Seq<char>> {
        if self.writer_open {
            None
        } else if self.threshold is Some {
            Some(self.path_of(Some(self.next_seq())))
        } else {
            Some(self.path_of(None))
        }
    }

    /// A batch is started.
    pub open spec fn started(self) -> ParquetState {
        ParquetState { schema_known: true, seq: self.next_seq(), ..self }
    }

    /// The file at `path` is created.
    pub open spec fn with_file(self, path: Seq<char>) -> ParquetState {
        ParquetState { created: self.created.push(path), ..self }
    }

    /// A writer is open on the file at `path`.
    pub open spec fn with_writer(self, path: Seq<char>) -> ParquetState {
        ParquetState { writer_open: true, current_path: Some(path), ..self }
    }

    /// The rows of a batch are written.
    pub open spec fn with_rows(self, rows: nat) -> ParquetState {
        ParquetState { rows_written: self.rows_written + rows, ..self }
    }

    /// The writer is given up.
    pub open spec fn without_writer(self) -> ParquetState {
        ParquetState { writer_open: false, ..self }
    }

    /// The writer that was given up is closed.
    pub open spec fn with_closed_file(self) -> ParquetState {
        ParquetState {
            current_path: None,
            ready: match self.current_path {
                Some(p) => self.ready.push(p),
                None => self.ready,
            },
            ..self
        }
    }

    /// The finished files are handed on.
    pub open spec fn without_ready(self) -> ParquetState {
        ParquetState { ready: Seq::empty(), ..self }
    }

    /// The open file, if there is one, is finished.
    pub open spec fn finished(self) -> ParquetState {
        if self.writer_open {
            self.without_writer().with_closed_file()
        } else {
            self.without_writer()
        }
    }

    /// A batch is written: a file is created and a writer opened on it where none is open, and a
    /// full file is finished.
    pub open spec fn with_batch(self, rows: nat, full: bool) -> ParquetState {
        let opened = match self.path_to_create() {
            Some(p) => self.started().with_file(p).with_writer(p),
            None => self.started(),
        };
        if full {
            opened.with_rows(rows).finished()
        } else {
            opened.with_rows(rows)
        }
    }
}

/// What happens in a run: a batch is written, after which its file is full or not, or the finished
/// files are handed on.
pub enum RunEvent {
    Batch { rows: nat, full: bool },
    TakeReady,
}

/// The state after the events, and the files that were handed on, in order.
pub open spec fn run(start: ParquetState, events: Seq<RunEvent>) -> (ParquetState, Seq<Seq<char>>)
    decreases events.len(),
{
    if events.len() == 0 {
        (start, Seq::empty())
    } else {
        let (state, handed) = run(start, events.drop_last());
        match events.last() {
            RunEvent::Batch { rows, full } => (state.with_batch(rows, full), handed),
            RunEvent::TakeReady => (state.without_ready(), handed + state.ready),
        }
    }
}

/// The rows of all batches.
pub open spec fn rows_of(events: Seq<RunEvent>) -> nat
    decreases events.len(),
{
    if events.len() == 0 {
        0
    } else {
        rows_of(events.drop_last()) + match events.last() {
            RunEvent::Batch { rows, .. } => rows,
            RunEvent::TakeReady => 0,
        }
    }
}

/// Whether a batch is written at all.
pub open spec fn has_batch(events: Seq<RunEvent>) -> bool {
    exists|i: int| 0 <= i < events.len() && #[trigger] events[i] is Batch
}

/// Whether the events are those of a run that starts in `start`: without a threshold no file is
/// ever full, and the sequence numbers suffice.
pub open spec fn are_events_of(events: Seq<RunEvent>, start: ParquetState) -> bool {
    &&& events.len() <= u64::MAX
    &&& forall|i: int|
        0 <= i < events.len() && start.threshold is None ==> !(#[trigger] events[i] matches RunEvent::Batch {
            full: true,
            ..
        })
}

/// The open file, as a sequence.
pub open spec fn open_file(state: ParquetState) -> Seq<Seq<char>> {
    match state.current_path {
        Some(p) => seq![p],
        None => Seq::empty(),
    }
}

/// Whether the created files are those that a run creates: with a threshold, file by file those
/// with the sequence numbers from 1 on; without one, the single file, once there is a batch.
pub open spec fn are_files_of(
    created: Seq<Seq<char>>,
    start: ParquetState,
    events: Seq<RunEvent>,
) -> bool {
    match start.threshold {
        Some(_) => {
            &&& has_batch(events) <==> created.len() > 0
            &&& forall|i: int|
                0 <= i < created.len() ==> #[trigger] created[i] == start.path_of(
                    Some((i + 1) as u64),
                )
        },
        None => created == if has_batch(events) {
            seq![start.path_of(None)]
        } else {
            Seq::empty()
        },
    }
}

proof fn lemma_has_batch(events: Seq<RunEvent>)
    requires
        events.len() > 0,
    ensures
        has_batch(events) == (has_batch(events.drop_last()) || events.last() is Batch),
{
    let before = events.drop_last();
    if has_batch(before) {
        let i = choose|i: int| 0 <= i < before.len() && #[trigger] before[i] is Batch;
        assert(events[i] is Batch);
    }
    if events.last() is Batch {
        assert(events[events.len() - 1] is Batch);
    }
    if has_batch(events) {
        let i = choose|i: int| 0 <= i < events.len() && #[trigger] events[i] is Batch;
        if i < before.len() {
            assert(before[i] is Batch);
        }
    }
}

/// At any point of a run, the files handed on, then the finished files, then the open file are
/// exactly the created files, in the order of their creation.
pub proof fn run_accounts_for_files(start: ParquetState, events: Seq<RunEvent>)
    requires
        start.is_fresh(),
        are_events_of(events, start),
    ensures
        ({
            let (state, handed) = run(start, events);
            &&& state.config == start.config
            &&& state.threshold == start.threshold
            &&& state.rows_written == rows_of(events)
            &&& state.writer_open <==> state.current_path is Some
            &&& state.created == handed + state.ready + open_file(state)
            &&& are_files_of(state.created, start, events)
            &&& state.created.len() <= events.len()
            &&& start.threshold is Some ==> state.seq == state.created.len()
            &&& start.threshold is None ==> state.writer_open == has_batch(events)
        }),
    decreases events.len(),
{
    let (state, handed) = run(start, events);
    if events.len() == 0 {
        assert(state.created =~= handed + state.ready + open_file(state));
        assert(start.created =~= Seq::empty());
    } else {
        let earlier = events.drop_last();
        assert forall|i: int|
            0 <= i < earlier.len() && start.threshold is None implies !(#[trigger] earlier[i] matches RunEvent::Batch {
            full: true,
            ..
        }) by {
            assert(earlier[i] == events[i]);
        }
        run_accounts_for_files(start, earlier);
        lemma_has_batch(events);
        let (before, given) = run(start, earlier);
        match events.last() {
            RunEvent::Batch { rows, full } => {
                assert(!(start.threshold is None && full)) by {
                    assert(events[events.len() - 1] == events.last());
                }
                assert(state.created =~= handed + state.ready + open_file(state));
            },
            RunEvent::TakeReady => {
                assert(state.created =~= handed + state.ready + open_file(state));
            },
        }
    }
}

/// The law of a whole run: a run that was configured once, whose batches were all written, with the
/// finished files taken at any points between them, and which was then finished. The count of rows
/// is the sum over the batches. The files handed on before, and then those that are ready, are
/// exactly the created files, each once and in the order of their creation. With a threshold, the
/// files are those with the sequence numbers from 1 on; without one, there is a single file. Without
/// a batch there is no file, and no row is counted.
pub proof fn whole_run(start: ParquetState, events: Seq<RunEvent>)
    requires
        start.is_fresh(),
        are_events_of(events, start),
    ensures
        ({
            let (state, handed) = run(start, events);
            let end = state.finished();
            &&& end.rows_written == rows_of(events)
            &&& handed + end.ready == end.created
            &&& end.created.no_duplicates()
            &&& are_files_of(end.created, start, events)
            &&& !end.writer_open
            &&& !has_batch(events) ==> end.created.len() == 0 && end.rows_written == 0
        }),
{
    let (state, handed) = run(start, events);
    let end = state.finished();
    run_accounts_for_files(start, events);
    assert(handed + end.ready =~= end.created);
    assert forall|i: int, j: int|
        0 <= i < end.created.len() && 0 <= j < end.created.len() && i != j implies end.created[i]
        != end.created[j] by {
        if end.created[i] == end.created[j] {
            parquet::chunk_paths_differ(start.config->0, (i + 1) as u64, (j + 1) as u64);
        }
    }
    if !has_batch(events) {
        lemma_no_rows(events);
    }
}

proof fn lemma_no_rows(events: Seq<RunEvent>)
    requires
        !has_batch(events),
    ensures
        rows_of(events) == 0,
    decreases events.len(),
{
    if events.len() > 0 {
        lemma_has_batch(events);
        lemma_no_rows(events.drop_last());
    }
}

/// A file that was created stays among those that cancelling removes, also where no writer could be
/// opened on it.
pub proof fn created_file_is_kept(state: ParquetState, path: Seq<char>, events: Seq<RunEvent>)
    ensures
        run(state.with_file(path), events).0.created.contains(path),
    decreases events.len(),
{
    if events.len() == 0 {
        assert(state.with_file(path).created.last() == path);
    } else {
        created_file_is_kept(state, path, events.drop_last());
        let (before, _) = run(state.with_file(path), events.drop_last());
        let i = choose|i: int| 0 <= i < before.created.len() && before.created[i] == path;
        let (after, _) = run(state.with_file(path), events);
        assert(after.created[i] == path);
    }
}

} // verus!
