use chartfeed::column::Column;
use chartfeed::schema::Schema;
use chartfeed::series::Value;
use chartfeed::series::parse_cell;

fn s(x: &str) -> String {
    x.to_owned()
}

fn as_f64(v: &Value) -> f64 {
    match v {
        Value::Num(t) => t.parse::<f64>().unwrap(),
        Value::Missing => f64::NAN,
    }
}

#[test]
fn test_schema() {
    let schema = Schema::new(&Column::Unset, &Column::Unset, &vec![s("a"), s("b"), s("c")]);
    let set = schema.empty_set();
    assert_eq!(set.epoch, None);
    assert_eq!(set.x, None);
    assert_eq!(set.y.len(), 3);
    assert_eq!(set.y[0].title, "a");
    assert_eq!(set.y[1].title, "b");
    assert_eq!(set.y[2].title, "c");

    let slice = schema.slice(&vec![s("1"), s("2"), s("3")]);
    assert_eq!(slice.epoch, None);
    assert_eq!(slice.x, None);
    let nums: Vec<f64> = slice.y.iter().map(as_f64).collect();
    assert_eq!(nums, vec![1.0, 2.0, 3.0]);
}

#[test]
fn test_x_epoch() {
    let schema = Schema::new(
        &Column::Index(0),
        &Column::Title(s("b")),
        &vec![s("a"), s("b"), s("c")],
    );
    let set = schema.empty_set();
    assert_eq!(set.epoch, None);
    assert_eq!(set.x, Some((s("a"), vec![])));
    assert_eq!(set.y.len(), 1);
    assert_eq!(set.y[0].title, "c");

    let slice = schema.slice(&vec![s("1"), s("2"), s("3")]);
    assert_eq!(slice.epoch, Some(s("2")));
    assert_eq!(slice.x, Some(s("1")));
    let nums: Vec<f64> = slice.y.iter().map(as_f64).collect();
    assert_eq!(nums, vec![3.0]);
}

#[test]
fn bad_cell_becomes_missing_alone() {
    let schema = Schema::new(&Column::Unset, &Column::Unset, &vec![s("a"), s("b"), s("c")]);
    let slice = schema.slice(&vec![s("1"), s("foo"), s("3")]);
    assert_eq!(slice.y.len(), 3);
    assert_eq!(slice.y[0], Value::Num(s("1")));
    assert_eq!(slice.y[1], Value::Missing);
    assert_eq!(slice.y[2], Value::Num(s("3")));
    assert!(as_f64(&slice.y[1]).is_nan());
    assert_eq!(as_f64(&slice.y[0]), 1.0);
    assert_eq!(as_f64(&slice.y[2]), 3.0);
}

#[test]
fn row_length_mismatch_is_tolerated() {
    let schema = Schema::new(&Column::Unset, &Column::Unset, &vec![s("a"), s("b")]);
    let short = schema.slice(&vec![s("1")]);
    assert_eq!(short.y, vec![Value::Num(s("1"))]);
    let long = schema.slice(&vec![s("1"), s("2"), s("3")]);
    assert_eq!(
        long.y,
        vec![Value::Num(s("1")), Value::Num(s("2")), Value::Num(s("3"))]
    );
}

#[test]
fn x_claimed_before_epoch_on_tie() {
    // both selectors name position 0: X wins, epoch stays unbound
    let schema = Schema::new(&Column::Index(0), &Column::Index(0), &vec![s("a"), s("b")]);
    let set = schema.empty_set();
    assert_eq!(set.x, Some((s("a"), vec![])));
    let slice = schema.slice(&vec![s("1"), s("2")]);
    assert_eq!(slice.x, Some(s("1")));
    assert_eq!(slice.epoch, None);
    assert_eq!(slice.y, vec![Value::Num(s("2"))]);
}

#[test]
fn empty_header_yields_empty_schema() {
    let schema = Schema::new(&Column::Unset, &Column::Unset, &vec![]);
    let set = schema.empty_set();
    assert_eq!(set.epoch, None);
    assert_eq!(set.x, None);
    assert_eq!(set.y.len(), 0);
}

#[test]
fn title_match_is_exact_and_case_sensitive() {
    let schema = Schema::new(&Column::Unset, &Column::Title(s("B")), &vec![s("a"), s("b")]);
    let set = schema.empty_set();
    // "B" does not match "b": no epoch column is claimed
    assert_eq!(set.y.len(), 2);
    let slice = schema.slice(&vec![s("1"), s("2")]);
    assert_eq!(slice.epoch, None);
}

#[test]
fn cell_parsing_trims_and_recognises_float_forms() {
    assert_eq!(parse_cell(" 3.5e2 "), Value::Num(s("3.5e2")));
    assert_eq!(parse_cell("\t-7\t"), Value::Num(s("-7")));
    assert_eq!(parse_cell("+.5"), Value::Num(s("+.5")));
    assert_eq!(parse_cell("2."), Value::Num(s("2.")));
    assert_eq!(parse_cell("1.e5"), Value::Num(s("1.e5")));
    assert_eq!(parse_cell("INF"), Value::Num(s("INF")));
    assert_eq!(parse_cell("-Infinity"), Value::Num(s("-Infinity")));
    assert_eq!(parse_cell("nan"), Value::Num(s("nan")));
    assert_eq!(parse_cell(""), Value::Missing);
    assert_eq!(parse_cell("  "), Value::Missing);
    assert_eq!(parse_cell("1e"), Value::Missing);
    assert_eq!(parse_cell("1.2.3"), Value::Missing);
    assert_eq!(parse_cell("."), Value::Missing);
    assert_eq!(parse_cell("1 2"), Value::Missing);
    assert_eq!(parse_cell("0x10"), Value::Missing);
}

#[test]
fn cell_parsing_agrees_with_float_parse() {
    // what the library accepts is exactly what f64's parser accepts
    for raw in [
        "1", "-2.5", " 3 ", "+.5", "2.", "1.e5", "7e-3", "inf", "INFINITY", "NaN", "", "foo",
        "1e", "--1", "1.2.3", "e5", ".e2", "0x10", "1_000", " nan ",
    ] {
        let parsed = raw.trim().parse::<f64>();
        match parse_cell(raw) {
            Value::Num(t) => {
                assert_eq!(t, raw.trim());
                assert!(parsed.is_ok(), "library accepted {:?}, f64 refused", raw);
            }
            Value::Missing => {
                assert!(parsed.is_err(), "library refused {:?}, f64 accepted", raw);
            }
        }
    }
}
