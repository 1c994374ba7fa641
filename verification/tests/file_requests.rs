use neoclr::execution::Limits;
use neoclr::file_requests::{kind_outcome, plan_request, FileRequest, FileService};
use neoclr::file_streams::StreamError;
use neoclr::types::Type;
use neoclr::value::Value;

fn limits() -> Limits {
    Limits { array_elements: 100, array_bytes: 100 }
}

fn bytes(v: &[u8]) -> Value {
    Value::Array { element: Type::Byte, elements: v.iter().map(|b| Value::Byte(*b)).collect() }
}

#[test]
fn opens_name_their_path_and_mode() {
    let r = plan_request(FileService::OpenWrite, &vec![Value::String("a.txt".into())], &limits()).unwrap();
    assert_eq!(r, FileRequest::Open { name: "a.txt".into(), mode: FileService::OpenWrite });
}

#[test]
fn arguments_of_the_wrong_shape_are_a_fault() {
    let f = plan_request(FileService::Close, &vec![Value::String("x".into())], &limits()).unwrap_err();
    assert_eq!(f.message, "Invalid file resource service arguments");
    let f = plan_request(FileService::Read, &vec![Value::Int32(1)], &limits()).unwrap_err();
    assert_eq!(f.message, "Invalid file resource service arguments");
}

#[test]
fn reads_beyond_the_guest_array_limits_are_refused() {
    let r = plan_request(FileService::Read, &vec![Value::Int32(1), Value::Int32(101)], &limits()).unwrap();
    assert_eq!(r, FileRequest::Refused(StreamError::LimitExceeded));
    let r = plan_request(FileService::Read, &vec![Value::Int32(1), Value::Int32(10)], &limits()).unwrap();
    assert_eq!(r, FileRequest::Read { id: 1, count: 10 });
}

#[test]
fn writes_take_the_requested_slice_of_bytes() {
    let args = vec![Value::Int32(3), bytes(&[1, 2, 3, 4]), Value::Int32(1), Value::Int32(2)];
    let r = plan_request(FileService::Write, &args, &limits()).unwrap();
    assert_eq!(r, FileRequest::Write { id: 3, bytes: vec![2, 3] });
    let args = vec![Value::Int32(3), bytes(&[1, 2]), Value::Int32(1), Value::Int32(2)];
    let r = plan_request(FileService::Write, &args, &limits()).unwrap();
    assert_eq!(r, FileRequest::Refused(StreamError::InvalidRange));
}

#[test]
fn writes_of_uninitialized_elements_are_a_fault() {
    let args = vec![
        Value::Int32(3),
        Value::Array { element: Type::Byte, elements: vec![Value::Byte(1), Value::Uninitialized(Type::Byte)] },
        Value::Int32(0),
        Value::Int32(2),
    ];
    let f = plan_request(FileService::Write, &args, &limits()).unwrap_err();
    assert_eq!(f.message, "File write requires initialized bytes");
}

#[test]
fn invalid_paths_are_refused_before_any_host_call() {
    let r = plan_request(FileService::Kind, &vec![Value::String("".into())], &limits()).unwrap();
    assert_eq!(r, FileRequest::Refused(StreamError::InvalidPath));
    let r = plan_request(FileService::CreateDirectory, &vec![Value::String("d".into())], &limits()).unwrap();
    assert_eq!(r, FileRequest::CreateDirectory("d".into()));
}

#[test]
fn kinds_report_files_and_directories() {
    assert_eq!(kind_outcome(true, false), Ok(1));
    assert_eq!(kind_outcome(false, true), Ok(2));
    assert_eq!(kind_outcome(false, false), Err(StreamError::WrongKind));
}
