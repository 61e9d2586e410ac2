use sigv4core::authparse::extract_signed_headers;
use sigv4core::errors::SigError;
use sigv4core::timestamp::{epoch_seconds, parse_timestamp, render_timestamp, Timestamp};

fn bytes(s: &str) -> Vec<u8> {
    s.as_bytes().to_vec()
}

#[test]
fn extract_header_list() {
    let auth = bytes(
        "AWS4-HMAC-SHA256 Credential=x, SignedHeaders=content-length;host;x-amz-date, Signature=abc",
    );
    let names = extract_signed_headers(&auth).unwrap();
    assert_eq!(names.len(), 3);
    assert_eq!(names[0], bytes("content-length"));
    assert_eq!(names[1], bytes("host"));
    assert_eq!(names[2], bytes("x-amz-date"));
}

#[test]
fn extract_missing_signed_headers() {
    let auth = bytes("AWS4-HMAC-SHA256 Credential=x, Signature=abc");
    assert_eq!(
        extract_signed_headers(&auth),
        Err(SigError::MissingSignedHeaders)
    );
}

#[test]
fn extract_empty_signed_headers() {
    let auth = bytes("AWS4-HMAC-SHA256 Credential=x, SignedHeaders=, Signature=abc");
    assert_eq!(
        extract_signed_headers(&auth),
        Err(SigError::EmptySignedHeaders)
    );
}

#[test]
fn extract_empty_name_in_list() {
    let auth = bytes("AWS4-HMAC-SHA256 Credential=x, SignedHeaders=host;;x-amz-date, Signature=abc");
    assert_eq!(
        extract_signed_headers(&auth),
        Err(SigError::EmptySignedHeaders)
    );
}

#[test]
fn extract_tolerates_field_order() {
    let auth = bytes("AWS4-HMAC-SHA256 SignedHeaders=host;x-amz-date, Credential=x, Signature=abc");
    let names = extract_signed_headers(&auth).unwrap();
    assert_eq!(names.len(), 2);
    assert_eq!(names[0], bytes("host"));
    assert_eq!(names[1], bytes("x-amz-date"));
}

#[test]
fn extract_lowercases_names() {
    let auth = bytes("AWS4-HMAC-SHA256 Credential=x, SignedHeaders=Host;X-Amz-Date, Signature=abc");
    let names = extract_signed_headers(&auth).unwrap();
    assert_eq!(names[0], bytes("host"));
    assert_eq!(names[1], bytes("x-amz-date"));
}

#[test]
fn timestamp_parse_and_render() {
    let ts = parse_timestamp(&bytes("20240101T000000Z")).unwrap();
    assert_eq!(
        ts,
        Timestamp { year: 2024, month: 1, day: 1, hour: 0, minute: 0, second: 0 }
    );
    assert_eq!(render_timestamp(&ts), bytes("20240101T000000Z"));
}

#[test]
fn timestamp_rejects_malformed() {
    assert_eq!(
        parse_timestamp(&bytes("2024-01-01T00:00Z")),
        Err(SigError::TimeFormatError)
    );
    assert_eq!(
        parse_timestamp(&bytes("20240132T000000Z")),
        Err(SigError::TimeFormatError)
    );
    assert_eq!(
        parse_timestamp(&bytes("20241301T000000Z")),
        Err(SigError::TimeFormatError)
    );
    assert_eq!(
        parse_timestamp(&bytes("20240101T240000Z")),
        Err(SigError::TimeFormatError)
    );
    assert_eq!(
        parse_timestamp(&bytes("20240101X000000Z")),
        Err(SigError::TimeFormatError)
    );
    assert_eq!(parse_timestamp(&bytes("")), Err(SigError::TimeFormatError));
}

#[test]
fn timestamp_leap_day() {
    assert!(parse_timestamp(&bytes("20240229T120000Z")).is_ok());
    assert_eq!(
        parse_timestamp(&bytes("20230229T120000Z")),
        Err(SigError::TimeFormatError)
    );
    assert_eq!(
        parse_timestamp(&bytes("21000229T120000Z")),
        Err(SigError::TimeFormatError)
    );
    assert!(parse_timestamp(&bytes("20000229T120000Z")).is_ok());
}

#[test]
fn epoch_seconds_values() {
    let zero = parse_timestamp(&bytes("19700101T000000Z")).unwrap();
    assert_eq!(epoch_seconds(&zero), 0);
    let ts = parse_timestamp(&bytes("20240101T000000Z")).unwrap();
    assert_eq!(epoch_seconds(&ts), 1704067200);
    let later = parse_timestamp(&bytes("20240301T120530Z")).unwrap();
    assert_eq!(epoch_seconds(&later), 1709294730);
}
