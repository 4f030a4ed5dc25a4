use clusterfile::error::ClusterError;
use clusterfile::numeric::parse_u32;
use clusterfile::text::split_str;

#[test]
fn parse_u32_accepts_plain_numerals() {
    assert_eq!(parse_u32("0"), Some(0));
    assert_eq!(parse_u32("42"), Some(42));
    assert_eq!(parse_u32("007"), Some(7));
    assert_eq!(parse_u32("+12"), Some(12));
    assert_eq!(parse_u32("4294967295"), Some(u32::MAX));
}

#[test]
fn parse_u32_rejects_everything_else() {
    assert_eq!(parse_u32(""), None);
    assert_eq!(parse_u32("+"), None);
    assert_eq!(parse_u32("-1"), None);
    assert_eq!(parse_u32("1x"), None);
    assert_eq!(parse_u32("x1"), None);
    assert_eq!(parse_u32(" 1"), None);
    assert_eq!(parse_u32("1 "), None);
    assert_eq!(parse_u32("4294967296"), None);
    assert_eq!(parse_u32("184467440737095516160"), None);
}

#[test]
fn split_str_keeps_every_piece() {
    assert_eq!(split_str("a,b,c", ','), vec!["a", "b", "c"]);
    assert_eq!(split_str("a,,c", ','), vec!["a", "", "c"]);
    assert_eq!(split_str("", ','), vec![""]);
    assert_eq!(split_str(",", ','), vec!["", ""]);
    assert_eq!(split_str("one line\nanother", '\n'), vec!["one line", "another"]);
    assert_eq!(split_str("trailing\n", '\n'), vec!["trailing", ""]);
}

#[test]
fn error_messages_name_the_cause() {
    assert_eq!(
        ClusterError::NoRecords.message(),
        "Found no records in cluster file"
    );
    assert_eq!(
        ClusterError::MalformedRow.message(),
        "data row has fewer than 13 fields"
    );
    assert_eq!(
        ClusterError::InvalidNumericField.message(),
        "unit or instance field is not a non-negative integer"
    );
    assert_eq!(
        ClusterError::SourceUnavailable.message(),
        "cannot open or read the cluster file"
    );
}
