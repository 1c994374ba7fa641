use neoclr::file_streams::{
    guest_read_fits, outcome, read_count, stream_error, transfer_range, write_length, HandleTable,
    StreamError, MAX_OPEN_FILES, MAX_TRANSFER,
};
use neoclr::value::Value;
use std::io::ErrorKind;

#[test]
fn handle_limit_recovers_without_reusing_ids() {
    let mut table = HandleTable::new();
    for expected in 1..=MAX_OPEN_FILES as i32 {
        table.check_open("data").unwrap();
        assert_eq!(table.register(false), expected);
    }
    assert_eq!(table.check_open("data"), Err(StreamError::LimitExceeded));
    assert_eq!(table.close(1), Ok(0));
    assert_eq!(table.close(1), Ok(0));
    table.check_open("data").unwrap();
    assert_eq!(table.register(false), MAX_OPEN_FILES as i32 + 1);
    assert_eq!(table.access(1, false), Err(StreamError::Closed));
    assert_eq!(table.len(), MAX_OPEN_FILES);
}

#[test]
fn access_and_closing_rules() {
    let mut table = HandleTable::new();
    assert_eq!(table.check_open(""), Err(StreamError::InvalidPath));
    assert_eq!(table.check_open("x\0y"), Err(StreamError::InvalidPath));
    let writer = table.register(true);
    let reader = table.register(false);
    assert_ne!(writer, reader);
    assert_eq!(table.access(writer, true), Ok(()));
    assert_eq!(table.access(writer, false), Err(StreamError::WrongAccess));
    assert_eq!(table.access(reader, true), Err(StreamError::WrongAccess));
    assert_eq!(table.close(reader + 1), Err(StreamError::Closed));
    assert_eq!(table.close(0), Err(StreamError::Closed));
    assert_eq!(table.close(writer), Ok(0));
    assert_eq!(table.access(writer, true), Err(StreamError::Closed));
    assert_eq!(table.access(reader, false), Ok(()));
}

#[test]
fn transfers_are_bounded_before_the_file_advances() {
    assert_eq!(read_count(-1), Err(StreamError::InvalidRange));
    assert_eq!(read_count(MAX_TRANSFER as i32 + 1), Err(StreamError::LimitExceeded));
    assert_eq!(read_count(3), Ok(3));
    assert_eq!(write_length(MAX_TRANSFER), Ok(()));
    assert_eq!(write_length(MAX_TRANSFER + 1), Err(StreamError::LimitExceeded));
    assert_eq!(guest_read_fits(10, 5, 100), Err(StreamError::LimitExceeded));
    assert_eq!(guest_read_fits(-1, 0, 0), Ok(()));
    assert_eq!(guest_read_fits(5, 5, 5), Ok(()));
    assert_eq!(transfer_range(1, 2, 3), Ok((1, 2)));
    assert_eq!(transfer_range(2, 2, 3), Err(StreamError::InvalidRange));
    assert_eq!(transfer_range(-1, 0, 3), Err(StreamError::InvalidRange));
    assert_eq!(transfer_range(3, 0, 3), Ok((3, 0)));
}

#[test]
fn host_failures_and_outcomes() {
    assert_eq!(stream_error(std::io::Error::from(ErrorKind::NotFound)), StreamError::NotFound);
    assert_eq!(stream_error(std::io::Error::from(ErrorKind::AlreadyExists)), StreamError::AlreadyExists);
    assert_eq!(stream_error(std::io::Error::from(ErrorKind::IsADirectory)), StreamError::WrongKind);
    assert_eq!(stream_error(std::io::Error::from(ErrorKind::InvalidInput)), StreamError::InvalidPath);
    assert_eq!(stream_error(std::io::Error::from(ErrorKind::TimedOut)), StreamError::Io);
    assert_eq!(outcome(Err(StreamError::Closed)), Value::Erased(Box::new(Value::Byte(6))));
    assert_eq!(outcome(Ok(Value::Int32(5))), Value::Erased(Box::new(Value::Int32(5))));
}

#[test]
fn the_handle_limit_recovers_without_reusing_ids() {
    let mut table = neoclr::file_streams::HandleTable::new();
    for expected in 1..=64 {
        assert!(table.check_open("data.bin").is_ok());
        assert_eq!(table.register(false), expected);
    }
    assert_eq!(table.check_open("data.bin"), Err(neoclr::file_streams::StreamError::LimitExceeded));
    assert_eq!(table.close(1), Ok(0));
    assert!(table.check_open("data.bin").is_ok());
    assert_eq!(table.register(false), 65);
    assert_eq!(table.access(1, false), Err(neoclr::file_streams::StreamError::Closed));
}
