use h3cellstore::compacted_tables::partition_by_expression;
use h3cellstore::error::Error;
use h3cellstore::order::less;
use h3cellstore::schema::{
    AggregationMethod, ColumnDefinition, Datatype, SimpleColumn, TemporalPartitioning,
};
use h3cellstore::text::{contains, join, replace_all, same_text, starts_with, to_chars};

fn replaced(text: &str, pattern: &str, to: &str) -> String {
    replace_all(&to_chars(text), &to_chars(pattern), &to_chars(to))
        .into_iter()
        .collect()
}

#[test]
fn texts_are_replaced_as_the_standard_library_replaces_them() {
    let cases = [
        ("", "a", "b"),
        ("aaa", "a", "b"),
        ("aaa", "aa", "b"),
        ("aaaa", "aa", "b"),
        ("abcabc", "bc", ""),
        ("abcabc", "abcabc", "x"),
        ("abcabc", "abcabcd", "x"),
        ("select <[table]> <[table]>", "<[table]>", "t_05"),
        ("<<[table]>[table]>", "<[table]>", "<[table]>"),
        ("äöü→äö", "ö", "oe"),
        ("xay", "a", "aa"),
    ];
    for (text, pattern, to) in cases {
        assert_eq!(replaced(text, pattern, to), text.replace(pattern, to), "{:?}", (text, pattern, to));
    }
}

#[test]
fn texts_are_searched_compared_and_joined() {
    assert!(contains("select * from <[table]>", "<[table]>"));
    assert!(!contains("select * from <[table]>", "<[h3indexes]>"));
    assert!(contains("abc", ""));
    assert!(contains("", ""));
    assert!(!contains("", "a"));
    assert!(contains("aab", "ab"));
    assert!(starts_with("h3index_parent", "h3index"));
    assert!(starts_with("h3index", "h3index"));
    assert!(!starts_with("h3inde", "h3index"));
    assert!(!starts_with("an_h3index", "h3index"));
    assert!(same_text("ab", "ab"));
    assert!(!same_text("ab", "abc"));
    assert!(!same_text("ab", "ac"));
    let parts = |v: &[&str]| v.iter().map(|s| s.to_string()).collect::<Vec<String>>();
    assert_eq!(join(&parts(&[]), ", "), "");
    assert_eq!(join(&parts(&["a"]), ", "), "a");
    assert_eq!(join(&parts(&["a", "", "c"]), ", "), "a, , c");
    assert_eq!(to_chars("a→b"), vec!['a', '→', 'b']);
}

#[test]
fn texts_are_ordered_as_strings_are() {
    let texts = ["", "a", "A", "ab", "b", "aa", "a_", "a0", "é", "e", "z", "zz", "→", "h3index"];
    for a in texts {
        for b in texts {
            assert_eq!(less(a, b), a < b, "{:?} < {:?}", a, b);
        }
    }
}

#[test]
fn types_are_found_by_their_sql_names() {
    let all = [
        Datatype::U8,
        Datatype::U8N,
        Datatype::I8,
        Datatype::I8N,
        Datatype::U16,
        Datatype::U16N,
        Datatype::I16,
        Datatype::I16N,
        Datatype::U32,
        Datatype::U32N,
        Datatype::I32,
        Datatype::I32N,
        Datatype::U64,
        Datatype::U64N,
        Datatype::I64,
        Datatype::I64N,
        Datatype::F32,
        Datatype::F32N,
        Datatype::F64,
        Datatype::F64N,
        Datatype::Date,
        Datatype::DateN,
        Datatype::DateTime,
        Datatype::DateTimeN,
    ];
    for datatype in all {
        assert_eq!(Datatype::from_sqltype(&datatype.sqltype()), Ok(datatype));
        assert_eq!(datatype.base().nullable().base(), datatype.base());
    }
    for name in ["", "String", "uint8", "Nullable(", "Nullable()", "Nullable(String)", "Nullable(UInt8", "UInt8)", "Nullable(Nullable(UInt8))", "UInt128"] {
        assert_eq!(
            Datatype::from_sqltype(name),
            Err(Error::UnknownDatatype(name.to_string())),
            "{:?}",
            name
        );
    }
}

#[test]
fn columns_are_written_into_the_partitioning() {
    let date = ColumnDefinition::Simple(SimpleColumn::new(Datatype::DateN, None));
    let number = ColumnDefinition::WithAggregation(
        SimpleColumn::new(Datatype::I32, Some(1)),
        AggregationMethod::Max,
    );
    assert_eq!(
        partition_by_expression("h3index", &ColumnDefinition::H3Index, &TemporalPartitioning::Year),
        "h3GetBaseCell(h3index)"
    );
    assert_eq!(
        partition_by_expression("day", &date, &TemporalPartitioning::Year),
        "toString(toYear(day))"
    );
    assert_eq!(
        partition_by_expression("day", &date, &TemporalPartitioning::Month),
        "toString(toMonth(day))"
    );
    assert_eq!(
        partition_by_expression("n", &number, &TemporalPartitioning::Month),
        "n"
    );
}
