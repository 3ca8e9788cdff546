use near_store::number::{FloatFault, IntegerFault};
use near_store::statistics::{
    parse_statistics, unsupported_keys, StatsParseError, StatsValue, StoreStatistics,
};

/// A value with its percentile read as a number.
#[derive(Debug, PartialEq)]
enum Value {
    Count(i64),
    Sum(i64),
    Percentile(u32, f64),
}

fn read(value: &StatsValue) -> Value {
    match value {
        StatsValue::Count(v) => Value::Count(*v),
        StatsValue::Sum(v) => Value::Sum(*v),
        StatsValue::Percentile(p, text) => Value::Percentile(*p, text.parse::<f64>().unwrap()),
        other => panic!("unexpected value {other:?}"),
    }
}

fn read_all(statistics: &StoreStatistics) -> Vec<(String, Vec<Value>)> {
    let mut rows = vec![];
    for (name, values) in &statistics.data {
        rows.push((name.clone(), values.iter().map(read).collect()));
    }
    rows
}

fn parsed(text: &str) -> (Vec<(String, Vec<StatsValue>)>, Result<(), StatsParseError>) {
    let mut result = StoreStatistics { data: vec![] };
    let outcome = parse_statistics(text, &mut result);
    (result.data, outcome)
}

#[test]
fn test_parse_statistics() {
    let statistics = "rocksdb.cold.file.read.count COUNT : 999\n\
         rocksdb.db.get.micros P50 : 9.171086 P95 : 222.678751 P99 : 549.611652 P100 : 45816.000000 COUNT : 917578 SUM : 38313754";
    let mut result = StoreStatistics { data: vec![] };
    let parse_result = parse_statistics(statistics, &mut result);
    // We should be able to parse stats and the result should be Ok(()).
    parse_result.unwrap();
    assert_eq!(
        read_all(&result),
        vec![
            ("rocksdb.cold.file.read.count".to_string(), vec![Value::Count(999)]),
            (
                "rocksdb.db.get.micros".to_string(),
                vec![
                    Value::Percentile(50, 9.171086),
                    Value::Percentile(95, 222.678751),
                    Value::Percentile(99, 549.611652),
                    Value::Percentile(100, 45816.0),
                    Value::Count(917578),
                    Value::Sum(38313754)
                ]
            )
        ]
    );
}

#[test]
fn rows_before_an_error_are_kept() {
    let (rows, outcome) = parsed("a COUNT : 1\nb COUNT : x\nc COUNT : 3");
    assert_eq!(outcome, Err(StatsParseError::Integer(IntegerFault::InvalidDigit)));
    assert_eq!(rows, vec![("a".to_string(), vec![StatsValue::Count(1)])]);
}

#[test]
fn rows_are_added_to_those_already_there() {
    let mut result =
        StoreStatistics { data: vec![("first".to_string(), vec![StatsValue::Sum(7)])] };
    assert_eq!(parse_statistics("second COUNT : -2", &mut result), Ok(()));
    assert_eq!(
        result.data,
        vec![
            ("first".to_string(), vec![StatsValue::Sum(7)]),
            ("second".to_string(), vec![StatsValue::Count(-2)]),
        ]
    );
}

#[test]
fn each_kind_of_number_has_its_error() {
    let integer = |fault| Err(StatsParseError::Integer(fault));
    assert_eq!(parsed("a COUNT : 1.5").1, integer(IntegerFault::InvalidDigit));
    assert_eq!(parsed("a SUM : ").1, integer(IntegerFault::Empty));
    assert_eq!(parsed("a SUM : 9223372036854775808").1, integer(IntegerFault::PosOverflow));
    assert_eq!(parsed("a SUM : -9223372036854775809").1, integer(IntegerFault::NegOverflow));
    assert_eq!(parsed("a P-5 : 1.5").1, integer(IntegerFault::InvalidDigit));
    assert_eq!(parsed("a P : 1.5").1, integer(IntegerFault::Empty));
    assert_eq!(parsed("a P4294967296 : 1.5").1, integer(IntegerFault::PosOverflow));
    assert_eq!(parsed("a P50 : fast").1, Err(StatsParseError::Float(FloatFault::Invalid)));
    assert_eq!(parsed("a P50 : ").1, Err(StatsParseError::Float(FloatFault::Empty)));
    // The percentile itself is read before its value.
    assert_eq!(parsed("a Px : fast").1, integer(IntegerFault::InvalidDigit));
}

#[test]
fn unknown_keys_are_passed_over() {
    let (rows, outcome) = parsed("a MEDIAN : 3 COUNT : 4 count : x");
    assert_eq!(outcome, Ok(()));
    assert_eq!(rows, vec![("a".to_string(), vec![StatsValue::Count(4)])]);
}

#[test]
fn a_key_without_a_value_is_passed_over() {
    let (rows, outcome) = parsed("a COUNT : 4 SUM");
    assert_eq!(outcome, Ok(()));
    assert_eq!(rows, vec![("a".to_string(), vec![StatsValue::Count(4)])]);
}

#[test]
fn lines_without_a_space_give_no_row() {
    let (rows, outcome) = parsed("\n\nlonely\nb \r\nc COUNT : 2\r\n");
    assert_eq!(outcome, Ok(()));
    assert_eq!(
        rows,
        vec![("b".to_string(), vec![]), ("c".to_string(), vec![StatsValue::Count(2)])]
    );
}

#[test]
fn a_single_space_separates_as_well() {
    let (rows, outcome) = parsed("a COUNT 5 SUM : 6");
    assert_eq!(outcome, Ok(()));
    assert_eq!(rows, vec![("a".to_string(), vec![StatsValue::Count(5), StatsValue::Sum(6)])]);
}

#[test]
fn percentiles_keep_the_text_of_their_value() {
    let (rows, outcome) = parsed("a P+050 : -.5e+3 P99 : NaN");
    assert_eq!(outcome, Ok(()));
    assert_eq!(
        rows,
        vec![(
            "a".to_string(),
            vec![
                StatsValue::Percentile(50, "-.5e+3".to_string()),
                StatsValue::Percentile(99, "NaN".to_string()),
            ]
        )]
    );
}

#[test]
fn chunks_of_lines_read_as_the_whole() {
    let first = "a COUNT : 1\nb SUM : 2\n";
    let second = "c P50 : 0.5\nd COUNT : 4";
    let whole = format!("{first}{second}");
    let mut result = StoreStatistics { data: vec![] };
    assert_eq!(parse_statistics(first, &mut result), Ok(()));
    assert_eq!(parse_statistics(second, &mut result), Ok(()));
    assert_eq!(result.data, parsed(&whole).0);
    assert_eq!(result.data.len(), 4);
}

#[test]
fn statistics_are_read_as_they_are_written() {
    let mut text = String::new();
    let mut expected = vec![];
    for (i, n) in [0i64, 1, -1, 10, i64::MAX, i64::MIN].iter().enumerate() {
        text.push_str(&format!("rocksdb.stat.{i} P99 : {i}.250000 COUNT : {n} SUM : {n}\n"));
        expected.push((
            format!("rocksdb.stat.{i}"),
            vec![
                StatsValue::Percentile(99, format!("{i}.250000")),
                StatsValue::Count(*n),
                StatsValue::Sum(*n),
            ],
        ));
    }
    assert_eq!(parsed(&text), (expected, Ok(())));
}

fn unsupported(text: &str) -> Vec<(String, String)> {
    unsupported_keys(text).into_iter().map(|u| (u.key, u.line)).collect()
}

fn pairs(expected: &[(&str, &str)]) -> Vec<(String, String)> {
    expected.iter().map(|(key, line)| (key.to_string(), line.to_string())).collect()
}

#[test]
fn unsupported_keys_are_listed_with_their_lines() {
    assert_eq!(
        unsupported("a MEDIAN : 3 COUNT : 4 count : x\r\nMAX\nb SUM : 1\nc  : y STDDEV"),
        pairs(&[
            ("MEDIAN", "a MEDIAN : 3 COUNT : 4 count : x"),
            ("count", "a MEDIAN : 3 COUNT : 4 count : x"),
            ("", "c  : y STDDEV"),
        ])
    );
    assert_eq!(unsupported(""), vec![]);
}

#[test]
fn unsupported_keys_are_listed_up_to_the_first_error() {
    assert_eq!(
        unsupported("a MIN : 1\nb MAX : 2 COUNT : x AVG : 3\nc MIN : 4"),
        pairs(&[("MIN", "a MIN : 1"), ("MAX", "b MAX : 2 COUNT : x AVG : 3")])
    );
}

#[test]
fn written_statistics_have_no_unsupported_keys() {
    assert_eq!(unsupported("a COUNT : 1\nb P50 : 1.5 P100 : 2.5 COUNT : 3 SUM : 4\n"), vec![]);
}

#[test]
fn texts_joined_by_a_line_feed_read_one_after_the_other() {
    for (first, second) in [("a COUNT : 1", "b SUM : 2"), ("", "c SUM : 3"), ("a COUNT : 1\n", "")]
    {
        let mut rows = parsed(first).0;
        rows.append(&mut parsed(second).0);
        assert_eq!(parsed(&format!("{first}\n{second}")), (rows, Ok(())));
    }
    // A carriage return at the end of the first text becomes a part of the line ending.
    let invalid = Err(StatsParseError::Integer(IntegerFault::InvalidDigit));
    assert_eq!(parsed("a COUNT : 1\r").1, invalid);
    assert_eq!(parsed("a COUNT : 1\r\nb SUM : 2").1, Ok(()));
}
