//! The decisions of a file service call made before any host work: which
//! operation the transport arguments ask for, with which operands, or why
//! the call is refused outright.
use crate::execution::Limits;
use crate::fault::Fault;
use crate::file_io::{path_is_valid, valid_path};
use crate::file_streams::{guest_read_fits, transfer_range, StreamError};
use crate::types::{Type, TypeView};
use crate::value::{lemma_value_views, value_views, Value, ValueView};
use vstd::prelude::*;

verus! {

/// The file services a guest can call.
#[derive(Debug, Clone, Copy, PartialEq, Eq, Structural)]
pub enum FileService {
    OpenRead,
    OpenWrite,
    CreateNew,
    Read,
    Write,
    Flush,
    Close,
    Kind,
    CreateDirectory,
}

/// What the host is to do for a service call, or the refusal decided before
/// any host work.
#[derive(Debug, PartialEq, Eq)]
pub enum FileRequest {
    Open { name: String, mode: FileService },
    Read { id: i32, count: i32 },
    Write { id: i32, bytes: Vec<u8> },
    Flush(i32),
    Close(i32),
    Kind(String),
    CreateDirectory(String),
    Refused(StreamError),
}

pub ghost enum RequestView {
    Open { name: Seq<char>, mode: FileService },
    Read { id: i32, count: i32 },
    Write { id: i32, bytes: Seq<u8> },
    Flush(i32),
    Close(i32),
    Kind(Seq<char>),
    CreateDirectory(Seq<char>),
    Refused(StreamError),
}

pub open spec fn request_view(r: FileRequest) -> RequestView {
    match r {
        FileRequest::Open { name, mode } => RequestView::Open { name: name@, mode },
        FileRequest::Read { id, count } => RequestView::Read { id, count },
        FileRequest::Write { id, bytes } => RequestView::Write { id, bytes: bytes@ },
        FileRequest::Flush(id) => RequestView::Flush(id),
        FileRequest::Close(id) => RequestView::Close(id),
        FileRequest::Kind(name) => RequestView::Kind(name@),
        FileRequest::CreateDirectory(name) => RequestView::CreateDirectory(name@),
        FileRequest::Refused(e) => RequestView::Refused(e),
    }
}

/// The refusal of arguments of the wrong number or shape.
pub open spec fn bad_arguments() -> Seq<char> {
    "Invalid file resource service arguments"@
}

/// The bytes of `elements[offset..offset + count]`, when each is a byte.
pub open spec fn bytes_in(elements: Seq<ValueView>, offset: int, count: int) -> Option<Seq<u8>> {
    if forall|k: int| offset <= k < offset + count ==> (#[trigger] elements[k]) is Byte {
        Some(Seq::new(count as nat, |k: int| elements[offset + k]->Byte_0))
    } else {
        None
    }
}

/// The plan for a service call with transport arguments `args`.
pub open spec fn spec_plan(op: FileService, args: Seq<ValueView>, limits: Limits) -> Result<
    RequestView,
    Seq<char>,
> {
    match op {
        FileService::OpenRead | FileService::OpenWrite | FileService::CreateNew => {
            if args.len() == 1 && args[0] is String {
                Ok(RequestView::Open { name: args[0]->String_0, mode: op })
            } else {
                Err(bad_arguments())
            }
        },
        FileService::Read => {
            if args.len() == 2 && args[0] is Int32 && args[1] is Int32 {
                let count = args[1]->Int32_0;
                if count >= 0 && (count > limits.array_elements || count > limits.array_bytes) {
                    Ok(RequestView::Refused(StreamError::LimitExceeded))
                } else {
                    Ok(RequestView::Read { id: args[0]->Int32_0, count })
                }
            } else {
                Err(bad_arguments())
            }
        },
        FileService::Write => {
            if args.len() == 4 && args[0] is Int32 && args[1] is Array && args[1]->Array_element
                == TypeView::Byte && args[2] is Int32 && args[3] is Int32 {
                let elements = args[1]->Array_elements;
                let offset = args[2]->Int32_0;
                let count = args[3]->Int32_0;
                if !(0 <= offset && 0 <= count && offset <= elements.len() && count <= elements.len()
                    - offset) {
                    Ok(RequestView::Refused(StreamError::InvalidRange))
                } else {
                    match bytes_in(elements, offset as int, count as int) {
                        Some(bytes) => Ok(RequestView::Write { id: args[0]->Int32_0, bytes }),
                        None => Err("File write requires initialized bytes"@),
                    }
                }
            } else {
                Err(bad_arguments())
            }
        },
        FileService::Flush | FileService::Close => {
            if args.len() == 1 && args[0] is Int32 {
                if op == FileService::Flush {
                    Ok(RequestView::Flush(args[0]->Int32_0))
                } else {
                    Ok(RequestView::Close(args[0]->Int32_0))
                }
            } else {
                Err(bad_arguments())
            }
        },
        FileService::Kind | FileService::CreateDirectory => {
            if args.len() == 1 && args[0] is String {
                let name = args[0]->String_0;
                if !valid_path(name) {
                    Ok(RequestView::Refused(StreamError::InvalidPath))
                } else if op == FileService::Kind {
                    Ok(RequestView::Kind(name))
                } else {
                    Ok(RequestView::CreateDirectory(name))
                }
            } else {
                Err(bad_arguments())
            }
        },
    }
}

fn bad_request() -> (r: Result<FileRequest, Fault>)
    ensures
        r matches Err(f) && f.message@ == bad_arguments(),
{
    Err(Fault::new("Invalid file resource service arguments"))
}

/// The bytes of `elements[offset..offset + count]`, when each is a byte (see
/// `bytes_in`).
fn collect_bytes(elements: &Vec<Value>, offset: usize, count: usize) -> (r: Option<Vec<u8>>)
    requires
        offset + count <= elements@.len(),
    ensures
        match bytes_in(value_views(elements@, elements@.len()), offset as int, count as int) {
            Some(b) => r matches Some(v) && v@ == b,
            None => r is None,
        },
{
    let ghost vs = value_views(elements@, elements@.len());
    proof {
        lemma_value_views(elements@, elements@.len());
    }
    let mut bytes: Vec<u8> = Vec::new();
    let length = elements.len();
    let mut k: usize = 0;
    while k < count
        invariant
            k <= count,
            length == elements@.len(),
            offset + count <= elements@.len(),
            vs == value_views(elements@, elements@.len()),
            vs.len() == elements@.len(),
            forall|i: int| 0 <= i < elements@.len() ==> #[trigger] vs[i] == elements@[i]@,
            bytes@.len() == k,
            forall|j: int| offset <= j < offset + k ==> (#[trigger] vs[j]) is Byte,
            forall|j: int| 0 <= j < k ==> bytes@[j] == vs[offset + j]->Byte_0,
        decreases count - k,
    {
        assert(offset + k < length);
        match &elements[offset + k] {
            Value::Byte(b) => {
                bytes.push(*b);
            },
            _ => {
                assert(!(vs[offset + k] is Byte));
                return None;
            },
        }
        k += 1;
    }
    assert(bytes@ =~= Seq::new(count as nat, |j: int| vs[offset + j]->Byte_0));
    Some(bytes)
}

/// Plans a service call with transport arguments `args` (see `spec_plan`):
/// the host work to do, a refusal decided before any, or the fault of
/// malformed arguments.
pub fn plan_request(op: FileService, args: &Vec<Value>, limits: &Limits) -> (r: Result<FileRequest, Fault>)
    ensures
        match spec_plan(op, value_views(args@, args@.len()), *limits) {
            Ok(v) => r matches Ok(x) && request_view(x) == v,
            Err(m) => r matches Err(f) && f.message@ == m,
        },
{
    proof {
        lemma_value_views(args@, args@.len());
    }
    match op {
        FileService::OpenRead | FileService::OpenWrite | FileService::CreateNew => {
            if args.len() == 1 {
                if let Value::String(name) = &args[0] {
                    return Ok(FileRequest::Open { name: name.clone(), mode: op });
                }
            }
            bad_request()
        },
        FileService::Read => {
            if args.len() == 2 {
                if let (Value::Int32(id), Value::Int32(count)) = (&args[0], &args[1]) {
                    return match guest_read_fits(*count, limits.array_elements, limits.array_bytes) {
                        Err(e) => Ok(FileRequest::Refused(e)),
                        Ok(()) => Ok(FileRequest::Read { id: *id, count: *count }),
                    };
                }
            }
            bad_request()
        },
        FileService::Write => {
            if args.len() == 4 {
                if let (
                    Value::Int32(id),
                    Value::Array { element: Type::Byte, elements },
                    Value::Int32(offset),
                    Value::Int32(count),
                ) = (&args[0], &args[1], &args[2], &args[3]) {
                    proof {
                        lemma_value_views(elements@, elements@.len());
                    }
                    return match transfer_range(*offset, *count, elements.len()) {
                        Err(e) => Ok(FileRequest::Refused(e)),
                        Ok((o, c)) => match collect_bytes(elements, o, c) {
                            Some(bytes) => Ok(FileRequest::Write { id: *id, bytes }),
                            None => Err(Fault::new("File write requires initialized bytes")),
                        },
                    };
                }
            }
            bad_request()
        },
        FileService::Flush | FileService::Close => {
            if args.len() == 1 {
                if let Value::Int32(id) = &args[0] {
                    return if let FileService::Flush = op {
                        Ok(FileRequest::Flush(*id))
                    } else {
                        Ok(FileRequest::Close(*id))
                    };
                }
            }
            bad_request()
        },
        FileService::Kind | FileService::CreateDirectory => {
            if args.len() == 1 {
                if let Value::String(name) = &args[0] {
                    if !path_is_valid(name.as_str()) {
                        return Ok(FileRequest::Refused(StreamError::InvalidPath));
                    }
                    return if let FileService::Kind = op {
                        Ok(FileRequest::Kind(name.clone()))
                    } else {
                        Ok(FileRequest::CreateDirectory(name.clone()))
                    };
                }
            }
            bad_request()
        },
    }
}

/// What a path's kind reports: 1 for a regular file, 2 for a directory,
/// and a refusal for anything else.
pub fn kind_outcome(is_file: bool, is_dir: bool) -> (r: Result<i32, StreamError>)
    ensures
        is_file ==> r == Ok::<i32, StreamError>(1),
        !is_file && is_dir ==> r == Ok::<i32, StreamError>(2),
        !is_file && !is_dir ==> r == Err::<i32, StreamError>(StreamError::WrongKind),
{
    if is_file {
        Ok(1)
    } else if is_dir {
        Ok(2)
    } else {
        Err(StreamError::WrongKind)
    }
}

} // verus!
