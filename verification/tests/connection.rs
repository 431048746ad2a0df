use h3cellstore::columnset::{ColVec, ColumnSet};
use h3cellstore::env::{
    cellwalk_num_clickhouse_threads, cellwalk_num_concurrent_queries,
    get_numeric_env_with_default_and_min, parse_u8,
};
use h3cellstore::error::Error;
use h3cellstore::resultset::{AwaitableResultSet, ColumnData, Observation, ResultSet};
use h3cellstore::url_check::{check_parameters, validate_clickhouse_url, UrlWarnings};

fn warnings(inefficient_transfer: bool, short_timeout: bool) -> UrlWarnings {
    UrlWarnings {
        inefficient_transfer,
        short_timeout,
    }
}

#[test]
fn a_url_is_checked_for_compression_and_timeout() {
    assert_eq!(
        validate_clickhouse_url("tcp://user:pw@host:9000/db?compression=lz4&connection_timeout=10s"),
        Ok(warnings(false, false))
    );
    assert_eq!(validate_clickhouse_url("tcp://host/db"), Ok(warnings(true, true)));
    assert_eq!(
        validate_clickhouse_url("tcp://host/db?compression=none"),
        Ok(warnings(true, true))
    );
    assert_eq!(
        validate_clickhouse_url("tcp://host/db?connection_timeout=1ms&x=1"),
        Ok(warnings(true, false))
    );
    assert_eq!(
        validate_clickhouse_url("tcp://host/db?compression=lz4&compression=none"),
        Ok(warnings(true, true))
    );
    assert_eq!(
        validate_clickhouse_url("tcp://host/db?compression=none&compression=lz4"),
        Ok(warnings(false, true))
    );
}

#[test]
fn names_of_url_parameters_are_taken_in_lower_case() {
    assert_eq!(
        validate_clickhouse_url("tcp://host/db?COMPRESSION=LZ4&Connection_Timeout=1"),
        Ok(warnings(false, false))
    );
    assert_eq!(
        validate_clickhouse_url("tcp://host/db?Compression=none"),
        Ok(warnings(true, true))
    );
    assert_eq!(
        validate_clickhouse_url("tcp://host/db?compression=NONE"),
        Ok(warnings(false, true))
    );
    assert_eq!(
        validate_clickhouse_url("tcp://host/db?compr%65ssion=lz4"),
        Ok(warnings(false, true))
    );
}

#[test]
fn what_is_no_url_is_an_error() {
    match validate_clickhouse_url("not a url") {
        Err(Error::InvalidUrl(message)) => assert!(!message.is_empty()),
        other => panic!("{:?}", other),
    }
    assert!(matches!(validate_clickhouse_url(""), Err(Error::InvalidUrl(_))));
}

#[test]
fn parameters_are_checked_as_given() {
    let pair = |n: &str, v: &str| (n.to_string(), v.to_string());
    assert_eq!(check_parameters(&vec![]), warnings(true, true));
    assert_eq!(
        check_parameters(&vec![pair("ComPression", "zstd"), pair("CONNECTION_TIMEOUT", "")]),
        warnings(false, false)
    );
    assert_eq!(
        check_parameters(&vec![pair("compression", "lz4"), pair("COMPRESSION", "none")]),
        warnings(true, true)
    );
}

#[test]
fn knobs_are_read_from_text() {
    assert_eq!(cellwalk_num_clickhouse_threads(None), 2);
    assert_eq!(cellwalk_num_concurrent_queries(None), 3);
    assert_eq!(cellwalk_num_clickhouse_threads(Some("5")), 5);
    assert_eq!(cellwalk_num_concurrent_queries(Some("12")), 12);
    assert_eq!(cellwalk_num_clickhouse_threads(Some("0")), 1);
    assert_eq!(cellwalk_num_concurrent_queries(Some("0")), 1);
    assert_eq!(cellwalk_num_clickhouse_threads(Some("255")), 255);
    assert_eq!(cellwalk_num_clickhouse_threads(Some("256")), 2);
    assert_eq!(cellwalk_num_concurrent_queries(Some("many")), 3);
    assert_eq!(cellwalk_num_concurrent_queries(Some("")), 3);
    assert_eq!(get_numeric_env_with_default_and_min(Some("3"), 9, 4), 4);
    assert_eq!(get_numeric_env_with_default_and_min(Some("4"), 9, 4), 4);
    assert_eq!(get_numeric_env_with_default_and_min(Some("5"), 9, 4), 5);
    assert_eq!(get_numeric_env_with_default_and_min(Some("x"), 9, 4), 9);
    assert_eq!(get_numeric_env_with_default_and_min(None, 2, 4), 2);
}

#[test]
fn numbers_are_read_as_the_standard_library_reads_them() {
    for text in [
        "0", "7", "+7", "007", "255", "256", "0255", "+", "", "-1", "-0", " 5", "5 ", "1e1",
        "٣", "99999999999999999999999999", "000000000000000000000000001", "++1", "2_5",
    ] {
        assert_eq!(parse_u8(text), text.parse::<u8>().ok(), "{:?}", text);
    }
}

fn columns() -> ColumnSet {
    ColumnSet::new()
        .add_column("n", ColVec::U8(vec![1, 2]))
        .unwrap()
}

#[test]
fn a_query_is_waited_for_once() {
    let mut awaitable = AwaitableResultSet::new();
    assert_eq!(awaitable.wait_until_finished(), Ok(()));
    assert_eq!(
        awaitable.wait_until_finished(),
        Err(Error::ResultAlreadyConsumed)
    );
    assert_eq!(
        awaitable.wait_until_finished(),
        Err(Error::ResultAlreadyConsumed)
    );
}

#[test]
fn columns_that_are_there_are_handed_out_once() {
    let mut result = ResultSet::from_columnset(columns());
    assert_eq!(result.get_query_duration_ms(), None);
    assert_eq!(result.get_window_index(), None);
    assert_eq!(result.get_num_h3indexes_queried(), None);
    assert_eq!(result.get_h3indexes_queried(), Vec::<u64>::new());
    assert_eq!(result.await_column_data(), Ok(Observation::Settled));
    assert_eq!(result.get_columnset(), Some(columns()));
    assert_eq!(result.get_columnset(), None);
    assert_eq!(result.await_column_data(), Ok(Observation::Settled));
    assert_eq!(result.get_columnset(), None);
}

#[test]
fn columns_of_a_running_query_are_had_by_waiting() {
    let mut result = ResultSet::from_awaitable(AwaitableResultSet::new());
    result.h3indexes_queried = Some(vec![4, 5, 6]);
    result.window_h3index = Some(9);
    assert_eq!(result.get_columnset(), None);
    assert_eq!(result.await_column_data(), Ok(Observation::Wait));
    assert!(matches!(result.column_data, ColumnData::Pending(_)));
    assert_eq!(
        result.await_column_data(),
        Err(Error::ResultAlreadyConsumed)
    );
    result.complete(columns(), 1500);
    assert_eq!(result.get_query_duration_ms(), Some(1500));
    assert_eq!(result.await_column_data(), Ok(Observation::Settled));
    assert_eq!(result.get_columnset(), Some(columns()));
    assert_eq!(result.get_columnset(), None);
    assert_eq!(result.get_num_h3indexes_queried(), Some(3));
    assert_eq!(result.get_h3indexes_queried(), vec![4, 5, 6]);
    assert_eq!(result.get_window_index(), Some(9));
}

#[test]
fn errors_are_described() {
    assert_eq!(Error::EmptyCells.to_string(), "empty cells");
    assert_eq!(Error::InvalidResolution(16).to_string(), "invalid h3 resolution: 16");
    assert_eq!(
        Error::InvalidCell(u64::MAX).to_string(),
        "invalid h3 index: 18446744073709551615"
    );
    assert_eq!(Error::InvalidCell(0).to_string(), "invalid h3 index: 0");
    assert_eq!(
        Error::MissingQueryPlaceholder("<[table]>".to_string()).to_string(),
        "missing query placeholder: <[table]>"
    );
    assert_eq!(
        Error::DifferentColumnLength("a".to_string(), 10, 9).to_string(),
        "column a has a different length: expected 10, found 9"
    );
    assert_eq!(
        Error::SchemaValidationError("Schema".to_string(), "bad".to_string()).to_string(),
        "schema error on validating Schema: bad"
    );
    assert_eq!(
        Error::ResultAlreadyConsumed.to_string(),
        "resultset can only be awaited once"
    );
    assert_eq!(Error::EmptyPolygon.to_string(), "empty polygon given");
    assert_eq!(Error::MixedResolutions.to_string(), "mixed h3 resolutions");
    assert_eq!(Error::NoQueryableTables.to_string(), "no queryable tables found");
    assert_eq!(Error::IncompatibleDatatype.to_string(), "incompatible datatype");
    assert_eq!(Error::ColumnNotFound("c".to_string()).to_string(), "column not found: c");
    assert_eq!(Error::UnknownDatatype("UUID".to_string()).to_string(), "unknown datatype: UUID");
    assert_eq!(Error::SerializationError("x".to_string()).to_string(), "serialization error: x");
    assert_eq!(Error::DatabaseError("x".to_string()).to_string(), "database error: x");
    assert_eq!(Error::IoError("x".to_string()).to_string(), "io error: x");
    assert_eq!(Error::InvalidUrl("x".to_string()).to_string(), "invalid url: x");
}
