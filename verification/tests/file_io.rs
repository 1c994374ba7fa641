use neoclr::file_io::{
    accept_chunk, check_request, finish_read, io_error, next_request, read_error, ReadStatus,
};
use neoclr::value::Value;
use std::io::ErrorKind;

#[test]
fn host_io_kinds_have_explicit_cross_platform_statuses() {
    for (kind, status) in [
        (ErrorKind::NotFound, 3),
        (ErrorKind::PermissionDenied, 4),
        (ErrorKind::InvalidInput, 2),
        (ErrorKind::Other, 6),
    ] {
        assert_eq!(
            io_error(std::io::Error::from(kind)),
            Value::Erased(Box::new(Value::Byte(status)))
        );
    }
}

#[test]
fn interrupted_reads_are_retried() {
    assert_eq!(read_error(std::io::Error::from(ErrorKind::Interrupted)), None);
    assert_eq!(
        read_error(std::io::Error::from(ErrorKind::TimedOut)),
        Some(Value::Erased(Box::new(Value::Byte(6))))
    );
}

#[test]
fn requests_are_checked_before_opening() {
    assert_eq!(check_request("a.txt", -1), Err(ReadStatus::InvalidLimit));
    assert_eq!(check_request("", -1), Err(ReadStatus::InvalidLimit));
    assert_eq!(check_request("", 10), Err(ReadStatus::InvalidPath));
    assert_eq!(check_request("a\0b", 10), Err(ReadStatus::InvalidPath));
    assert_eq!(check_request("a.txt", 0), Ok(0));
    assert_eq!(check_request("a.txt", 4096), Ok(4096));
}

#[test]
fn reads_probe_one_byte_past_the_limit() {
    assert_eq!(next_request(8192, 10, 0), 11);
    assert_eq!(next_request(8192, 10, 10), 1);
    assert_eq!(next_request(8192, 100_000, 0), 8192);
    assert_eq!(accept_chunk(10, 4, 6), Ok(10));
    assert_eq!(accept_chunk(10, 4, 7), Err(ReadStatus::TooLarge));
    assert_eq!(accept_chunk(0, 0, 1), Err(ReadStatus::TooLarge));
}

#[test]
fn completed_reads_decode_utf8() {
    assert_eq!(
        finish_read("héllo".as_bytes().to_vec()),
        Value::Erased(Box::new(Value::String("héllo".to_string())))
    );
    assert_eq!(
        finish_read(vec![0xff, 0xfe]),
        Value::Erased(Box::new(Value::Byte(8)))
    );
    assert_eq!(
        finish_read(vec![]),
        Value::Erased(Box::new(Value::String(String::new())))
    );
}
