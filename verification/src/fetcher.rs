//! The fetch engine: one full read pass over a line sequence, grouped
//! into datasets according to a fixed fetch mode.
//!
//! Reading bytes from a process or from standard input is the caller's
//! business; the engine receives the complete lines that were read, and
//! whether reading ended in a transport failure, and computes the exact
//! event sequence of the pass.

use vstd::prelude::*;

use crate::column::Column;
use crate::schema::{Schema, SchemaV, spec_build, spec_empty_set, spec_slice};
use crate::series::{SeriesSet, SeriesSetV, Slice, SliceV, spec_append_slice};
use crate::text;

verus! {

/// How raw lines are grouped into datasets.  The choice is made once,
/// at construction, and never changes for the life of a fetcher.
#[derive(Clone, Copy, Debug, PartialEq, Eq, Structural)]
pub enum FetchMode {
    /// Each batch begins with a header line; every following non-empty
    /// line is emitted row by row, as it arrives.
    Streaming,
    /// Same grouping as `Streaming`, but each batch is accumulated and
    /// emitted whole at its boundary.
    Batched,
    /// The entire input is one dataset, emitted once at end-of-input;
    /// blank lines are ordinary rows here.
    Snapshot,
}

/// Why a pass failed: a transport failure while acquiring or reading
/// the source, or a structural failure while splitting lines.
#[derive(Clone, Debug, PartialEq, Eq)]
pub enum FetcherError {
    IO(String),
    CSV(String),
}

/// The mathematical value of a [`FetcherError`].
#[verifier::ext_equal]
pub enum FetcherErrorV {
    IO(Seq<char>),
    CSV(Seq<char>),
}

impl View for FetcherError {
    type V = FetcherErrorV;

    open spec fn view(&self) -> FetcherErrorV {
        match self {
            FetcherError::IO(m) => FetcherErrorV::IO(m@),
            FetcherError::CSV(m) => FetcherErrorV::CSV(m@),
        }
    }
}

/// One event of a read pass, in the order the consumer sees them.
#[derive(Debug, Clone, PartialEq, Eq)]
pub enum FetchEvent {
    /// A new, still empty dataset was derived from a header line
    /// (streaming mode only).
    DatasetCreated(SeriesSet),
    /// One data row arrived (streaming mode only).
    RowAppended(Slice),
    /// A fully populated dataset (batched and snapshot modes).
    DatasetReady(SeriesSet),
    /// The pass failed; always the last event of its pass, and at most
    /// one per pass.
    FetchFailed(FetcherError),
}

/// The mathematical value of a [`FetchEvent`].
#[verifier::ext_equal]
pub enum EventV {
    DatasetCreated(SeriesSetV),
    RowAppended(SliceV),
    DatasetReady(SeriesSetV),
    FetchFailed(FetcherErrorV),
}

impl View for FetchEvent {
    type V = EventV;

    open spec fn view(&self) -> EventV {
        match self {
            FetchEvent::DatasetCreated(d) => EventV::DatasetCreated(d@),
            FetchEvent::RowAppended(s) => EventV::RowAppended(s@),
            FetchEvent::DatasetReady(d) => EventV::DatasetReady(d@),
            FetchEvent::FetchFailed(e) => EventV::FetchFailed(e@),
        }
    }
}

/// The mathematical values of a sequence of events.
pub open spec fn events_of(v: Seq<FetchEvent>) -> Seq<EventV> {
    v.map_values(|e: FetchEvent| e@)
}

/// What one read pass consumed: the complete lines that were read, and
/// the transport failure that ended reading early, if any.
pub struct LineInput {
    pub lines: Vec<String>,
    pub error: Option<String>,
}

impl LineInput {
    /// The lines' character sequences.
    pub open spec fn lines_view(&self) -> Seq<Seq<char>> {
        text::views_of(self.lines@)
    }

    /// The transport failure's description, if reading failed.
    pub open spec fn error_view(&self) -> Option<Seq<char>> {
        match &self.error {
            Some(m) => Some(m@),
            None => None,
        }
    }
}

/// The schema a header line gives rise to: the line is split on commas
/// and the fields are offered to the selectors in order.
pub open spec fn schema_of(x: Column, epoch: Column, header: Seq<char>) -> SchemaV {
    let f = text::spec_split(header, ',');
    spec_build(x, epoch, f, f.len() as int)
}

/// The row record a data line gives rise to under a schema.
pub open spec fn slice_of(s: SchemaV, line: Seq<char>) -> SliceV {
    let f = text::spec_split(line, ',');
    spec_slice(s, f, f.len() as int)
}

/// One step of the streaming pass: outside a batch any line, the empty
/// one included, is a header and opens a batch; inside a batch an empty
/// line closes it silently and any other line is emitted as a row.
pub open spec fn stream_step(x: Column, epoch: Column, st: Option<SchemaV>, line: Seq<char>) -> (
    Option<SchemaV>,
    Seq<EventV>,
) {
    match st {
        None => {
            let sch = schema_of(x, epoch, line);
            (Some(sch), seq![EventV::DatasetCreated(spec_empty_set(sch))])
        },
        Some(sch) => {
            if line.len() == 0 {
                (None, Seq::empty())
            } else {
                (Some(sch), seq![EventV::RowAppended(slice_of(sch, line))])
            }
        },
    }
}

/// The streaming pass after the first `n` lines: the batch state and
/// the events emitted so far.
pub open spec fn spec_stream_n(x: Column, epoch: Column, ls: Seq<Seq<char>>, n: int) -> (
    Option<SchemaV>,
    Seq<EventV>,
)
    decreases n,
{
    if n <= 0 {
        (None, Seq::empty())
    } else {
        let prev = spec_stream_n(x, epoch, ls, n - 1);
        let step = stream_step(x, epoch, prev.0, ls[n - 1]);
        (step.0, prev.1 + step.1)
    }
}

/// All events of a streaming pass over `ls`.
pub open spec fn spec_stream(x: Column, epoch: Column, ls: Seq<Seq<char>>) -> Seq<EventV> {
    spec_stream_n(x, epoch, ls, ls.len() as int).1
}

/// One step of the batched pass: a header opens a batch with an empty
/// dataset, a row is appended to the open dataset, and an empty line
/// closes the batch, emitting the dataset.
pub open spec fn batch_step(
    x: Column,
    epoch: Column,
    st: Option<(SchemaV, SeriesSetV)>,
    line: Seq<char>,
) -> (Option<(SchemaV, SeriesSetV)>, Seq<EventV>) {
    match st {
        None => {
            let sch = schema_of(x, epoch, line);
            (Some((sch, spec_empty_set(sch))), Seq::empty())
        },
        Some((sch, d)) => {
            if line.len() == 0 {
                (None, seq![EventV::DatasetReady(d)])
            } else {
                (Some((sch, spec_append_slice(d, slice_of(sch, line)))), Seq::empty())
            }
        },
    }
}

/// The batched pass after the first `n` lines.
pub open spec fn spec_batch_n(x: Column, epoch: Column, ls: Seq<Seq<char>>, n: int) -> (
    Option<(SchemaV, SeriesSetV)>,
    Seq<EventV>,
)
    decreases n,
{
    if n <= 0 {
        (None, Seq::empty())
    } else {
        let prev = spec_batch_n(x, epoch, ls, n - 1);
        let step = batch_step(x, epoch, prev.0, ls[n - 1]);
        (step.0, prev.1 + step.1)
    }
}

/// All events of a batched pass over `ls`.  When the pass is complete
/// (end-of-input, no transport failure) the batch still open at the end
/// is flushed; a failed pass never emits its unfinished batch.
pub open spec fn spec_batched(x: Column, epoch: Column, ls: Seq<Seq<char>>, complete: bool) -> Seq<
    EventV,
> {
    let end = spec_batch_n(x, epoch, ls, ls.len() as int);
    if complete {
        match end.0 {
            Some((sch, d)) => end.1.push(EventV::DatasetReady(d)),
            None => end.1,
        }
    } else {
        end.1
    }
}

/// The snapshot dataset after the first `n` lines: the first line is
/// the header, every later line — blank ones included — is a row.
pub open spec fn spec_snap_n(x: Column, epoch: Column, ls: Seq<Seq<char>>, n: int) -> Option<(
    SchemaV,
    SeriesSetV,
)>
    decreases n,
{
    if n <= 0 {
        None
    } else {
        match spec_snap_n(x, epoch, ls, n - 1) {
            None => {
                let sch = schema_of(x, epoch, ls[n - 1]);
                Some((sch, spec_empty_set(sch)))
            },
            Some((sch, d)) => Some((sch, spec_append_slice(d, slice_of(sch, ls[n - 1])))),
        }
    }
}

/// All events of a snapshot pass: exactly one dataset for the whole
/// input when the pass is complete and the input non-empty, nothing
/// otherwise.
pub open spec fn spec_snapshot(x: Column, epoch: Column, ls: Seq<Seq<char>>, complete: bool) -> Seq<
    EventV,
> {
    if complete {
        match spec_snap_n(x, epoch, ls, ls.len() as int) {
            Some((sch, d)) => seq![EventV::DatasetReady(d)],
            None => Seq::empty(),
        }
    } else {
        Seq::empty()
    }
}

/// The full event sequence of one read pass: the mode's events over the
/// complete lines, then — iff reading failed — exactly one terminal
/// `FetchFailed` event.
pub open spec fn spec_pass(
    mode: FetchMode,
    x: Column,
    epoch: Column,
    ls: Seq<Seq<char>>,
    err: Option<Seq<char>>,
) -> Seq<EventV> {
    let base = match mode {
        FetchMode::Streaming => spec_stream(x, epoch, ls),
        FetchMode::Batched => spec_batched(x, epoch, ls, err is None),
        FetchMode::Snapshot => spec_snapshot(x, epoch, ls, err is None),
    };
    match err {
        Some(m) => base.push(EventV::FetchFailed(FetcherErrorV::IO(m))),
        None => base,
    }
}

/// The fetch engine: an immutable source command, the two column
/// selectors, and the fetch mode, fixed at construction.
pub struct Fetcher {
    /// The external command whose output is read, or `None` for the
    /// process's own standard input.  Held for the caller that acquires
    /// the byte source; the engine itself never runs it.
    pub cmd: Option<String>,
    pub x: Column,
    pub epoch: Column,
    pub mode: FetchMode,
}

impl Fetcher {
    /// Builds a fetcher from the configuration: the command words are
    /// joined into one command line, and the mode is a fixed decision:
    /// snapshot if a positive refresh interval is configured, else
    /// batched if an epoch column is configured, else streaming.
    pub fn new(cmd: Option<Vec<String>>, x: Column, epoch: Column, refresh_nanos: u64) -> (f:
        Fetcher)
        ensures
            f.x == x,
            f.epoch == epoch,
            f.mode == (if refresh_nanos > 0 {
                FetchMode::Snapshot
            } else if !(epoch is Unset) {
                FetchMode::Batched
            } else {
                FetchMode::Streaming
            }),
            f.cmd is Some <==> cmd is Some,
            cmd is Some ==> (f.cmd->0)@ == text::spec_join(
                text::views_of((cmd->0)@),
                (cmd->0)@.len() as int,
            ),
    {
        let mode = if refresh_nanos > 0 {
            FetchMode::Snapshot
        } else if epoch.is_set() {
            FetchMode::Batched
        } else {
            FetchMode::Streaming
        };
        let cmd_line = match &cmd {
            Some(parts) => Some(text::join_spaces(parts)),
            None => None,
        };
        Fetcher { cmd: cmd_line, x, epoch, mode }
    }

    /// Runs one full pass over the lines that were read, per
    /// [`spec_pass`]: the mode's events, then exactly one terminal
    /// `FetchFailed` event iff reading ended in a transport failure.
    pub fn read_from(&self, input: &LineInput) -> (out: Vec<FetchEvent>)
        ensures
            events_of(out@) == spec_pass(
                self.mode,
                self.x,
                self.epoch,
                input.lines_view(),
                input.error_view(),
            ),
    {
        let mut out = match self.mode {
            FetchMode::Streaming => self.read_lines(&input.lines),
            FetchMode::Batched => self.read_batches(&input.lines, input.error.is_none()),
            FetchMode::Snapshot => self.read_all(&input.lines, input.error.is_none()),
        };
        if let Some(m) = &input.error {
            let ghost base = events_of(out@);
            out.push(FetchEvent::FetchFailed(FetcherError::IO(m.clone())));
            proof {
                assert(events_of(out@) =~= base.push(
                    EventV::FetchFailed(FetcherErrorV::IO(m@)),
                ));
            }
        }
        out
    }

    /// The streaming pass: reads lines one by one, emitting a dataset
    /// per header and a row per data line, as they arrive.
    pub fn read_lines(&self, lines: &Vec<String>) -> (out: Vec<FetchEvent>)
        ensures
            events_of(out@) == spec_stream(self.x, self.epoch, text::views_of(lines@)),
    {
        let ghost lsv = text::views_of(lines@);
        let mut out: Vec<FetchEvent> = Vec::new();
        let mut cur: Option<Schema> = None;
        let mut i: usize = 0;
        proof {
            assert(events_of(out@) =~= Seq::<EventV>::empty());
        }
        while i < lines.len()
            invariant
                i <= lines@.len(),
                lsv == text::views_of(lines@),
                lsv.len() == lines@.len(),
                opt_schema_view(cur) == spec_stream_n(self.x, self.epoch, lsv, i as int).0,
                events_of(out@) == spec_stream_n(self.x, self.epoch, lsv, i as int).1,
            decreases lines@.len() - i,
        {
            let line = &lines[i];
            proof {
                assert(lsv[i as int] == line@);
            }
            let ghost prev = spec_stream_n(self.x, self.epoch, lsv, i as int);
            let ghost base = events_of(out@);
            match &cur {
                None => {
                    let fields = text::split_on(line.as_str(), ',');
                    let sch = Schema::new(&self.x, &self.epoch, &fields);
                    out.push(FetchEvent::DatasetCreated(sch.empty_set()));
                    cur = Some(sch);
                    proof {
                        assert(events_of(out@) =~= base.push(
                            EventV::DatasetCreated(spec_empty_set(schema_of(
                                self.x,
                                self.epoch,
                                line@,
                            ))),
                        ));
                    }
                },
                Some(_) => {
                    if line.as_str().unicode_len() == 0 {
                        cur = None;
                    } else {
                        let fields = text::split_on(line.as_str(), ',');
                        if let Some(sch) = &cur {
                            out.push(FetchEvent::RowAppended(sch.slice(&fields)));
                            proof {
                                assert(events_of(out@) =~= base.push(
                                    EventV::RowAppended(slice_of(sch@, line@)),
                                ));
                            }
                        }
                    }
                },
            }
            proof {
                assert(spec_stream_n(self.x, self.epoch, lsv, i + 1).1 =~= prev.1 + stream_step(
                    self.x,
                    self.epoch,
                    prev.0,
                    lsv[i as int],
                ).1);
                assert(events_of(out@) =~= spec_stream_n(self.x, self.epoch, lsv, i + 1).1);
            }
            i += 1;
        }
        out
    }

    /// The batched pass: same grouping as streaming, but each batch is
    /// accumulated and emitted whole at its boundary; when the pass is
    /// complete, end-of-input flushes the open batch.
    pub fn read_batches(&self, lines: &Vec<String>, complete: bool) -> (out: Vec<FetchEvent>)
        ensures
            events_of(out@) == spec_batched(self.x, self.epoch, text::views_of(lines@), complete),
    {
        let ghost lsv = text::views_of(lines@);
        let mut out: Vec<FetchEvent> = Vec::new();
        let mut cur: Option<(Schema, SeriesSet)> = None;
        let mut i: usize = 0;
        proof {
            assert(events_of(out@) =~= Seq::<EventV>::empty());
        }
        while i < lines.len()
            invariant
                i <= lines@.len(),
                lsv == text::views_of(lines@),
                lsv.len() == lines@.len(),
                opt_batch_view(cur) == spec_batch_n(self.x, self.epoch, lsv, i as int).0,
                events_of(out@) == spec_batch_n(self.x, self.epoch, lsv, i as int).1,
            decreases lines@.len() - i,
        {
            let line = &lines[i];
            proof {
                assert(lsv[i as int] == line@);
            }
            let ghost prev = spec_batch_n(self.x, self.epoch, lsv, i as int);
            let ghost base = events_of(out@);
            cur = match cur {
                None => {
                    let fields = text::split_on(line.as_str(), ',');
                    let sch = Schema::new(&self.x, &self.epoch, &fields);
                    let d = sch.empty_set();
                    Some((sch, d))
                },
                Some((sch, d)) => {
                    if line.as_str().unicode_len() == 0 {
                        out.push(FetchEvent::DatasetReady(d));
                        proof {
                            assert(events_of(out@) =~= base.push(EventV::DatasetReady(d@)));
                        }
                        None
                    } else {
                        let fields = text::split_on(line.as_str(), ',');
                        let sl = sch.slice(&fields);
                        let mut d2 = d;
                        d2.append_slice(sl);
                        Some((sch, d2))
                    }
                },
            };
            proof {
                assert(spec_batch_n(self.x, self.epoch, lsv, i + 1).1 =~= prev.1 + batch_step(
                    self.x,
                    self.epoch,
                    prev.0,
                    lsv[i as int],
                ).1);
                assert(events_of(out@) =~= spec_batch_n(self.x, self.epoch, lsv, i + 1).1);
            }
            i += 1;
        }
        if complete {
            if let Some((_, d)) = cur {
                let ghost base = events_of(out@);
                out.push(FetchEvent::DatasetReady(d));
                proof {
                    assert(events_of(out@) =~= base.push(EventV::DatasetReady(d@)));
                }
            }
        }
        out
    }

    /// The snapshot pass: the first line is the header, every later
    /// line — blank ones included — is a row, and the whole input is
    /// one dataset, emitted once when the pass is complete.
    pub fn read_all(&self, lines: &Vec<String>, complete: bool) -> (out: Vec<FetchEvent>)
        ensures
            events_of(out@) == spec_snapshot(self.x, self.epoch, text::views_of(lines@), complete),
    {
        let ghost lsv = text::views_of(lines@);
        let mut out: Vec<FetchEvent> = Vec::new();
        let mut cur: Option<(Schema, SeriesSet)> = None;
        let mut i: usize = 0;
        while i < lines.len()
            invariant
                i <= lines@.len(),
                lsv == text::views_of(lines@),
                lsv.len() == lines@.len(),
                opt_batch_view(cur) == spec_snap_n(self.x, self.epoch, lsv, i as int),
            decreases lines@.len() - i,
        {
            let line = &lines[i];
            proof {
                assert(lsv[i as int] == line@);
            }
            cur = match cur {
                None => {
                    let fields = text::split_on(line.as_str(), ',');
                    let sch = Schema::new(&self.x, &self.epoch, &fields);
                    let d = sch.empty_set();
                    Some((sch, d))
                },
                Some((sch, d)) => {
                    let fields = text::split_on(line.as_str(), ',');
                    let sl = sch.slice(&fields);
                    let mut d2 = d;
                    d2.append_slice(sl);
                    Some((sch, d2))
                },
            };
            i += 1;
        }
        if complete {
            if let Some((_, d)) = cur {
                let ghost base = events_of(out@);
                out.push(FetchEvent::DatasetReady(d));
                proof {
                    assert(base =~= Seq::<EventV>::empty());
                    assert(events_of(out@) =~= seq![EventV::DatasetReady(d@)]);
                }
                return out;
            }
        }
        proof {
            assert(events_of(out@) =~= Seq::<EventV>::empty());
        }
        out
    }
}

/// How many events of `evs` report a failure.
pub open spec fn count_failed(evs: Seq<EventV>) -> int
    decreases evs.len(),
{
    if evs.len() == 0 {
        0
    } else {
        count_failed(evs.drop_last()) + if evs.last() is FetchFailed {
            1int
        } else {
            0int
        }
    }
}

proof fn lemma_count_failed_app(a: Seq<EventV>, b: Seq<EventV>)
    ensures
        count_failed(a + b) == count_failed(a) + count_failed(b),
    decreases b.len(),
{
    if b.len() == 0 {
        assert(a + b =~= a);
    } else {
        assert((a + b).drop_last() =~= a + b.drop_last());
        assert((a + b).last() == b.last());
        lemma_count_failed_app(a, b.drop_last());
    }
}

proof fn lemma_stream_no_failed(x: Column, epoch: Column, ls: Seq<Seq<char>>, n: int)
    ensures
        count_failed(spec_stream_n(x, epoch, ls, n).1) == 0,
    decreases n,
{
    if n > 0 {
        lemma_stream_no_failed(x, epoch, ls, n - 1);
        let prev = spec_stream_n(x, epoch, ls, n - 1);
        let step = stream_step(x, epoch, prev.0, ls[n - 1]);
        lemma_count_failed_app(prev.1, step.1);
        if step.1.len() > 0 {
            assert(step.1.drop_last() =~= Seq::<EventV>::empty());
            assert(count_failed(Seq::<EventV>::empty()) == 0);
            assert(count_failed(step.1) == 0);
        } else {
            assert(step.1 =~= Seq::<EventV>::empty());
            assert(count_failed(step.1) == 0);
        }
    }
}

proof fn lemma_batch_no_failed(x: Column, epoch: Column, ls: Seq<Seq<char>>, n: int)
    ensures
        count_failed(spec_batch_n(x, epoch, ls, n).1) == 0,
        forall|k: int|
            0 <= k < spec_batch_n(x, epoch, ls, n).1.len() ==> spec_batch_n(
                x,
                epoch,
                ls,
                n,
            ).1[k] is DatasetReady,
    decreases n,
{
    if n > 0 {
        lemma_batch_no_failed(x, epoch, ls, n - 1);
        let prev = spec_batch_n(x, epoch, ls, n - 1);
        let step = batch_step(x, epoch, prev.0, ls[n - 1]);
        lemma_count_failed_app(prev.1, step.1);
        if step.1.len() > 0 {
            assert(step.1.drop_last() =~= Seq::<EventV>::empty());
            assert(count_failed(Seq::<EventV>::empty()) == 0);
            assert(count_failed(step.1) == 0);
        } else {
            assert(step.1 =~= Seq::<EventV>::empty());
            assert(count_failed(step.1) == 0);
        }
        assert forall|k: int|
            0 <= k < spec_batch_n(x, epoch, ls, n).1.len() implies spec_batch_n(
            x,
            epoch,
            ls,
            n,
        ).1[k] is DatasetReady by {
            if k < prev.1.len() {
                assert(spec_batch_n(x, epoch, ls, n).1[k] == prev.1[k]);
            } else {
                assert(spec_batch_n(x, epoch, ls, n).1[k] == step.1[k - prev.1.len()]);
            }
        }
    }
}

/// A failed pass ends in exactly one `FetchFailed` event, its last; a
/// completed pass has none.  A failure is thus pass-scoped: the events
/// of the pass before it stand, and nothing of the pass follows it.
pub proof fn lemma_pass_failure(
    mode: FetchMode,
    x: Column,
    epoch: Column,
    ls: Seq<Seq<char>>,
    err: Option<Seq<char>>,
)
    ensures
        count_failed(spec_pass(mode, x, epoch, ls, err)) == if err is Some {
            1int
        } else {
            0int
        },
        err is Some ==> spec_pass(mode, x, epoch, ls, err).len() > 0 && spec_pass(
            mode,
            x,
            epoch,
            ls,
            err,
        ).last() is FetchFailed,
{
    let base = match mode {
        FetchMode::Streaming => spec_stream(x, epoch, ls),
        FetchMode::Batched => spec_batched(x, epoch, ls, err is None),
        FetchMode::Snapshot => spec_snapshot(x, epoch, ls, err is None),
    };
    match mode {
        FetchMode::Streaming => {
            lemma_stream_no_failed(x, epoch, ls, ls.len() as int);
        },
        FetchMode::Batched => {
            lemma_batch_no_failed(x, epoch, ls, ls.len() as int);
            let end = spec_batch_n(x, epoch, ls, ls.len() as int);
            if err is None && end.0 is Some {
                assert(base == end.1.push(EventV::DatasetReady((end.0->0).1)));
                assert(base.drop_last() =~= end.1);
            }
        },
        FetchMode::Snapshot => {
            if err is None {
                match spec_snap_n(x, epoch, ls, ls.len() as int) {
                    Some((sch, d)) => {
                        assert(base.drop_last() =~= Seq::<EventV>::empty());
                        assert(count_failed(Seq::<EventV>::empty()) == 0);
                    },
                    None => {
                        assert(count_failed(Seq::<EventV>::empty()) == 0);
                    },
                }
            }
        },
    }
    assert(count_failed(base) == 0);
    if err is Some {
        let whole = spec_pass(mode, x, epoch, ls, err);
        assert(whole == base.push(EventV::FetchFailed(FetcherErrorV::IO(err->0))));
        assert(whole.drop_last() =~= base);
    }
}

/// A streaming pass emits creation and row events only, never a whole
/// dataset and never a failure of its own.
pub proof fn lemma_streaming_live(x: Column, epoch: Column, ls: Seq<Seq<char>>)
    ensures
        forall|k: int|
            0 <= k < spec_stream(x, epoch, ls).len() ==> (spec_stream(
                x,
                epoch,
                ls,
            )[k] is DatasetCreated || spec_stream(x, epoch, ls)[k] is RowAppended),
{
    lemma_stream_shape(x, epoch, ls, ls.len() as int);
}

proof fn lemma_stream_shape(x: Column, epoch: Column, ls: Seq<Seq<char>>, n: int)
    ensures
        forall|k: int|
            0 <= k < spec_stream_n(x, epoch, ls, n).1.len() ==> (spec_stream_n(
                x,
                epoch,
                ls,
                n,
            ).1[k] is DatasetCreated || spec_stream_n(x, epoch, ls, n).1[k] is RowAppended),
    decreases n,
{
    if n > 0 {
        lemma_stream_shape(x, epoch, ls, n - 1);
        let prev = spec_stream_n(x, epoch, ls, n - 1);
        let step = stream_step(x, epoch, prev.0, ls[n - 1]);
        assert forall|k: int|
            0 <= k < spec_stream_n(x, epoch, ls, n).1.len() implies (spec_stream_n(
            x,
            epoch,
            ls,
            n,
        ).1[k] is DatasetCreated || spec_stream_n(x, epoch, ls, n).1[k] is RowAppended) by {
            if k < prev.1.len() {
                assert(spec_stream_n(x, epoch, ls, n).1[k] == prev.1[k]);
            } else {
                assert(spec_stream_n(x, epoch, ls, n).1[k] == step.1[k - prev.1.len()]);
            }
        }
    }
}

proof fn lemma_snap_some(x: Column, epoch: Column, ls: Seq<Seq<char>>, n: int)
    ensures
        n > 0 ==> spec_snap_n(x, epoch, ls, n) is Some,
    decreases n,
{
    if n > 1 {
        lemma_snap_some(x, epoch, ls, n - 1);
    }
}

/// A complete snapshot pass over a non-empty input emits exactly one
/// event, a dataset for the whole input; an empty input, or a failed
/// pass, emits no dataset at all.
pub proof fn lemma_snapshot_single(x: Column, epoch: Column, ls: Seq<Seq<char>>, complete: bool)
    ensures
        spec_snapshot(x, epoch, ls, complete).len() == if complete && ls.len() > 0 {
            1int
        } else {
            0int
        },
        complete && ls.len() > 0 ==> spec_snapshot(x, epoch, ls, complete)[0] is DatasetReady,
{
    lemma_snap_some(x, epoch, ls, ls.len() as int);
}

/// A batched pass emits dataset events only: every event of it is a
/// `DatasetReady`, one per completed batch, with no intermediate
/// creation or row events.
pub proof fn lemma_batched_only_ready(x: Column, epoch: Column, ls: Seq<Seq<char>>, complete: bool)
    ensures
        forall|k: int|
            0 <= k < spec_batched(x, epoch, ls, complete).len() ==> spec_batched(
                x,
                epoch,
                ls,
                complete,
            )[k] is DatasetReady,
{
    lemma_batch_no_failed(x, epoch, ls, ls.len() as int);
    let end = spec_batch_n(x, epoch, ls, ls.len() as int);
    assert forall|k: int|
        0 <= k < spec_batched(x, epoch, ls, complete).len() implies spec_batched(
        x,
        epoch,
        ls,
        complete,
    )[k] is DatasetReady by {
        if complete && end.0 is Some && k == end.1.len() {
        } else {
            assert(spec_batched(x, epoch, ls, complete)[k] == end.1[k]);
        }
    }
}

/// The batch state's mathematical value.
pub open spec fn opt_schema_view(c: Option<Schema>) -> Option<SchemaV> {
    match c {
        Some(s) => Some(s@),
        None => None,
    }
}

/// The open dataset's mathematical value.
pub open spec fn opt_batch_view(c: Option<(Schema, SeriesSet)>) -> Option<(SchemaV, SeriesSetV)> {
    match c {
        Some((s, d)) => Some((s@, d@)),
        None => None,
    }
}

} // verus!
