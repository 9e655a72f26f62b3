use chartfeed::column::Column;
use chartfeed::fetcher::{FetchEvent, FetchMode, Fetcher, FetcherError, LineInput};
use chartfeed::series::{Series, SeriesSet, Slice, Value};
use chartfeed::text::{split_lines, split_on};

fn s(x: &str) -> String {
    x.to_owned()
}

fn num(t: &str) -> Value {
    Value::Num(s(t))
}

fn input_of(text: &str) -> LineInput {
    LineInput { lines: split_lines(text), error: None }
}

fn empty_set(titles: &[&str]) -> SeriesSet {
    SeriesSet {
        epoch: None,
        x: None,
        y: titles.iter().map(|t| Series { title: s(t), values: vec![] }).collect(),
    }
}

fn row(cells: &[&str]) -> Slice {
    Slice { x: None, epoch: None, y: cells.iter().map(|c| num(c)).collect() }
}

#[test]
fn mode_decision_table() {
    assert_eq!(Fetcher::new(None, Column::Unset, Column::Unset, 0).mode, FetchMode::Streaming);
    assert_eq!(
        Fetcher::new(None, Column::Unset, Column::Title(s("e")), 0).mode,
        FetchMode::Batched
    );
    assert_eq!(Fetcher::new(None, Column::Unset, Column::Unset, 1).mode, FetchMode::Snapshot);
    // a refresh interval wins over a configured epoch
    assert_eq!(
        Fetcher::new(None, Column::Unset, Column::Index(0), 50).mode,
        FetchMode::Snapshot
    );
}

#[test]
fn command_words_are_joined() {
    let f = Fetcher::new(Some(vec![s("tail"), s("-f"), s("log")]), Column::Unset, Column::Unset, 0);
    assert_eq!(f.cmd, Some(s("tail -f log")));
    let g = Fetcher::new(None, Column::Unset, Column::Unset, 0);
    assert_eq!(g.cmd, None);
}

#[test]
fn streaming_emits_per_line() {
    let f = Fetcher::new(None, Column::Unset, Column::Unset, 0);
    let events = f.read_from(&input_of("a,b\n1,2\n3,4\n\nc,d\n5,6\n"));
    assert_eq!(
        events,
        vec![
            FetchEvent::DatasetCreated(empty_set(&["a", "b"])),
            FetchEvent::RowAppended(row(&["1", "2"])),
            FetchEvent::RowAppended(row(&["3", "4"])),
            FetchEvent::DatasetCreated(empty_set(&["c", "d"])),
            FetchEvent::RowAppended(row(&["5", "6"])),
        ]
    );
}

#[test]
fn batched_emits_one_ready_per_batch() {
    let f = Fetcher::new(None, Column::Unset, Column::Title(s("none-such")), 0);
    assert_eq!(f.mode, FetchMode::Batched);
    let events = f.read_from(&input_of("a,b\n1,2\n3,4\n\nc,d\n5,6\n"));
    let first = SeriesSet {
        epoch: None,
        x: None,
        y: vec![
            Series { title: s("a"), values: vec![num("1"), num("3")] },
            Series { title: s("b"), values: vec![num("2"), num("4")] },
        ],
    };
    let second = SeriesSet {
        epoch: None,
        x: None,
        y: vec![
            Series { title: s("c"), values: vec![num("5")] },
            Series { title: s("d"), values: vec![num("6")] },
        ],
    };
    assert_eq!(events, vec![FetchEvent::DatasetReady(first), FetchEvent::DatasetReady(second)]);
}

#[test]
fn batched_takes_epoch_from_rows() {
    let f = Fetcher::new(None, Column::Unset, Column::Index(0), 0);
    let events = f.read_from(&input_of("e,v\n7,1\n7,2\n"));
    let expected = SeriesSet {
        epoch: Some(s("7")),
        x: None,
        y: vec![Series { title: s("v"), values: vec![num("1"), num("2")] }],
    };
    assert_eq!(events, vec![FetchEvent::DatasetReady(expected)]);
}

#[test]
fn snapshot_emits_single_ready() {
    let f = Fetcher::new(None, Column::Unset, Column::Unset, 1_000_000_000);
    let events = f.read_from(&input_of("a,b\n1,2\n3,4\n"));
    let whole = SeriesSet {
        epoch: None,
        x: None,
        y: vec![
            Series { title: s("a"), values: vec![num("1"), num("3")] },
            Series { title: s("b"), values: vec![num("2"), num("4")] },
        ],
    };
    assert_eq!(events, vec![FetchEvent::DatasetReady(whole)]);
}

#[test]
fn snapshot_parses_blank_lines_as_rows() {
    let f = Fetcher::new(None, Column::Unset, Column::Unset, 1);
    let events = f.read_from(&input_of("a,b\n1,2\n\n3,4\n"));
    // the blank line is one empty field: a missing value for the first
    // series, nothing for the second
    let whole = SeriesSet {
        epoch: None,
        x: None,
        y: vec![
            Series { title: s("a"), values: vec![num("1"), Value::Missing, num("3")] },
            Series { title: s("b"), values: vec![num("2"), num("4")] },
        ],
    };
    assert_eq!(events, vec![FetchEvent::DatasetReady(whole)]);
}

#[test]
fn streaming_collects_x_values() {
    let f = Fetcher::new(None, Column::Index(0), Column::Unset, 0);
    let events = f.read_from(&input_of("t,v\n0,10\n"));
    assert_eq!(
        events,
        vec![
            FetchEvent::DatasetCreated(SeriesSet {
                epoch: None,
                x: Some((s("t"), vec![])),
                y: vec![Series { title: s("v"), values: vec![] }],
            }),
            FetchEvent::RowAppended(Slice { x: Some(s("0")), epoch: None, y: vec![num("10")] }),
        ]
    );
}

#[test]
fn transport_failure_yields_exactly_one_fetch_failed() {
    let f = Fetcher::new(None, Column::Unset, Column::Unset, 0);
    let input = LineInput {
        lines: split_lines("a,b\n1,2\n"),
        error: Some(s("read failed")),
    };
    let events = f.read_from(&input);
    assert_eq!(
        events,
        vec![
            FetchEvent::DatasetCreated(empty_set(&["a", "b"])),
            FetchEvent::RowAppended(row(&["1", "2"])),
            FetchEvent::FetchFailed(FetcherError::IO(s("read failed"))),
        ]
    );
    let failures = events
        .iter()
        .filter(|e| matches!(e, FetchEvent::FetchFailed(_)))
        .count();
    assert_eq!(failures, 1);
    assert!(matches!(events.last(), Some(FetchEvent::FetchFailed(_))));

    // a failed pass leaves the fetcher fit for the next trigger
    let again = f.read_from(&input_of("c\n9\n"));
    assert_eq!(
        again,
        vec![
            FetchEvent::DatasetCreated(empty_set(&["c"])),
            FetchEvent::RowAppended(row(&["9"])),
        ]
    );
}

#[test]
fn failed_batched_pass_keeps_unfinished_batch_back() {
    let f = Fetcher::new(None, Column::Unset, Column::Title(s("none-such")), 0);
    let input = LineInput {
        lines: split_lines("a\n1\n\nb\n2\n"),
        error: Some(s("broken pipe")),
    };
    let events = f.read_from(&input);
    // the finished first batch stands; the unfinished second is not flushed
    assert_eq!(
        events,
        vec![
            FetchEvent::DatasetReady(SeriesSet {
                epoch: None,
                x: None,
                y: vec![Series { title: s("a"), values: vec![num("1")] }],
            }),
            FetchEvent::FetchFailed(FetcherError::IO(s("broken pipe"))),
        ]
    );
}

#[test]
fn failed_snapshot_pass_emits_no_dataset() {
    let f = Fetcher::new(None, Column::Unset, Column::Unset, 1);
    let input = LineInput { lines: split_lines("a\n1\n"), error: Some(s("gone")) };
    let events = f.read_from(&input);
    assert_eq!(events, vec![FetchEvent::FetchFailed(FetcherError::IO(s("gone")))]);
}

#[test]
fn empty_input_emits_nothing() {
    for nanos in [0u64, 1] {
        let f = Fetcher::new(None, Column::Unset, Column::Unset, nanos);
        assert_eq!(f.read_from(&input_of("")), vec![]);
    }
    let f = Fetcher::new(None, Column::Unset, Column::Index(9), 0);
    assert_eq!(f.read_from(&input_of("")), vec![]);
}

#[test]
fn split_on_keeps_empty_fields() {
    assert_eq!(split_on("a,,b", ','), vec![s("a"), s(""), s("b")]);
    assert_eq!(split_on("", ','), vec![s("")]);
    assert_eq!(split_on("a,", ','), vec![s("a"), s("")]);
}

#[test]
fn split_lines_handles_crlf_and_final_newline() {
    assert_eq!(split_lines("a\r\nb\n"), vec![s("a"), s("b")]);
    assert_eq!(split_lines("a\nb"), vec![s("a"), s("b")]);
    assert_eq!(split_lines("\n"), vec![s("")]);
    assert_eq!(split_lines(""), Vec::<String>::new());
}
