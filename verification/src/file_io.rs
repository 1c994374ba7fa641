//! Blocking, bounded UTF-8 file input: the request checks, the read bound and
//! the status protocol handed back to managed code. The host performs the
//! reads; every decision about them is made here.
use crate::text::chars_of;
use crate::value::{Value, ValueView};
use vstd::prelude::*;

verus! {

/// The status byte of a failed read, consumed by the managed file wrapper.
#[derive(Debug, Clone, Copy, PartialEq, Eq, Structural)]
pub enum ReadStatus {
    InvalidLimit,
    InvalidPath,
    NotFound,
    AccessDenied,
    NotRegularFile,
    ReadFailed,
    TooLarge,
    InvalidUtf8,
}

/// The byte that encodes each status.
pub open spec fn status_code(status: ReadStatus) -> u8 {
    match status {
        ReadStatus::InvalidLimit => 1,
        ReadStatus::InvalidPath => 2,
        ReadStatus::NotFound => 3,
        ReadStatus::AccessDenied => 4,
        ReadStatus::NotRegularFile => 5,
        ReadStatus::ReadFailed => 6,
        ReadStatus::TooLarge => 7,
        ReadStatus::InvalidUtf8 => 8,
    }
}

/// The value that reports a failed read: the status byte, erased.
pub open spec fn status_view(status: ReadStatus) -> ValueView {
    ValueView::Erased(Box::new(ValueView::Byte(status_code(status))))
}

impl ReadStatus {
    pub fn code(self) -> (b: u8)
        ensures
            b == status_code(self),
    {
        match self {
            ReadStatus::InvalidLimit => 1,
            ReadStatus::InvalidPath => 2,
            ReadStatus::NotFound => 3,
            ReadStatus::AccessDenied => 4,
            ReadStatus::NotRegularFile => 5,
            ReadStatus::ReadFailed => 6,
            ReadStatus::TooLarge => 7,
            ReadStatus::InvalidUtf8 => 8,
        }
    }
}

/// The erased status byte of a failed read.
pub fn error(status: ReadStatus) -> (v: Value)
    ensures
        v@ == status_view(status),
{
    let v = Value::Byte(status.code());
    assert(v@ == ValueView::Byte(status_code(status)));
    Value::Erased(Box::new(v))
}

/// The kinds of host I/O failure that the status protocol tells apart.
#[derive(Debug, Clone, Copy, PartialEq, Eq, Structural)]
pub enum HostErrorKind {
    NotFound,
    PermissionDenied,
    InvalidInput,
    Interrupted,
    AlreadyExists,
    IsADirectory,
    NotADirectory,
    Other,
}

#[verifier::external_type_specification]
#[verifier::external_body]
pub struct ExHostError(std::io::Error);

/// The kind of a host I/O error, as `std::io::Error::kind` reports it.
pub uninterp spec fn host_error_kind(error: std::io::Error) -> HostErrorKind;

/// Classifies a host error by `std::io::Error::kind`: the kinds the file
/// protocols distinguish, and every other kind as `Other`.
#[verifier::external_body]
pub(crate) fn error_kind(error: &std::io::Error) -> (k: HostErrorKind)
    ensures
        k == host_error_kind(*error),
{
    match error.kind() {
        std::io::ErrorKind::NotFound => HostErrorKind::NotFound,
        std::io::ErrorKind::PermissionDenied => HostErrorKind::PermissionDenied,
        std::io::ErrorKind::InvalidInput => HostErrorKind::InvalidInput,
        std::io::ErrorKind::Interrupted => HostErrorKind::Interrupted,
        std::io::ErrorKind::AlreadyExists => HostErrorKind::AlreadyExists,
        std::io::ErrorKind::IsADirectory => HostErrorKind::IsADirectory,
        std::io::ErrorKind::NotADirectory => HostErrorKind::NotADirectory,
        _ => HostErrorKind::Other,
    }
}

/// The status that reports a host failure of each kind.
pub open spec fn status_for_kind(kind: HostErrorKind) -> ReadStatus {
    match kind {
        HostErrorKind::NotFound => ReadStatus::NotFound,
        HostErrorKind::PermissionDenied => ReadStatus::AccessDenied,
        HostErrorKind::InvalidInput => ReadStatus::InvalidPath,
        _ => ReadStatus::ReadFailed,
    }
}

pub fn kind_status(kind: HostErrorKind) -> (s: ReadStatus)
    ensures
        s == status_for_kind(kind),
{
    match kind {
        HostErrorKind::NotFound => ReadStatus::NotFound,
        HostErrorKind::PermissionDenied => ReadStatus::AccessDenied,
        HostErrorKind::InvalidInput => ReadStatus::InvalidPath,
        _ => ReadStatus::ReadFailed,
    }
}

/// The status value that reports a host I/O error.
pub fn io_error(error_value: std::io::Error) -> (v: Value)
    ensures
        v@ == status_view(status_for_kind(host_error_kind(error_value))),
{
    let kind = error_kind(&error_value);
    error(kind_status(kind))
}

/// What a failed host read answers: nothing when the read was interrupted and
/// is to be retried, else the status value of the failure.
pub fn read_error(error_value: std::io::Error) -> (r: Option<Value>)
    ensures
        host_error_kind(error_value) == HostErrorKind::Interrupted <==> r is None,
        r matches Some(v) ==> v@ == status_view(status_for_kind(host_error_kind(error_value))),
{
    let kind = error_kind(&error_value);
    if matches!(kind, HostErrorKind::Interrupted) {
        None
    } else {
        Some(error(kind_status(kind)))
    }
}

/// A path the host may be asked to open: not empty and free of NUL.
pub open spec fn valid_path(path: Seq<char>) -> bool {
    path.len() > 0 && !path.contains('\0')
}

/// Whether a path may be handed to the host (see `valid_path`).
pub fn path_is_valid(path: &str) -> (b: bool)
    ensures
        b == valid_path(path@),
{
    let chars = chars_of(path);
    if chars.len() == 0 {
        return false;
    }
    let mut i: usize = 0;
    while i < chars.len()
        invariant
            i <= chars.len(),
            chars@ == path@,
            forall|j: int| 0 <= j < i ==> chars@[j] != '\0',
        decreases chars.len() - i,
    {
        if chars[i] == '\0' {
            assert(path@.contains('\0'));
            return false;
        }
        i += 1;
    }
    assert(!path@.contains('\0'));
    true
}

/// Checks a read request before any host call: a negative limit, then an empty
/// path or one holding NUL, is refused with its status; otherwise the limit.
pub fn check_request(path: &str, max_bytes: i32) -> (r: Result<usize, ReadStatus>)
    ensures
        max_bytes < 0 ==> r == Err::<usize, ReadStatus>(ReadStatus::InvalidLimit),
        max_bytes >= 0 && !valid_path(path@) ==> r == Err::<usize, ReadStatus>(ReadStatus::InvalidPath),
        max_bytes >= 0 && valid_path(path@) ==> r == Ok::<usize, ReadStatus>(max_bytes as usize),
{
    if max_bytes < 0 {
        return Err(ReadStatus::InvalidLimit);
    }
    if !path_is_valid(path) {
        return Err(ReadStatus::InvalidPath);
    }
    Ok(max_bytes as usize)
}

/// How many bytes the next host read asks for: a chunk, but never more than one
/// byte past the limit, so that a file that grew past it is noticed.
pub fn next_request(chunk: usize, limit: usize, read: usize) -> (n: usize)
    requires
        read <= limit,
        limit < usize::MAX,
    ensures
        n == if chunk <= limit - read + 1 { chunk as int } else { limit - read + 1 },
{
    let room = limit - read + 1;
    if chunk <= room { chunk } else { room }
}

/// Accepts `count` freshly read bytes after `read` earlier ones, or refuses the
/// file as too large when they would pass the limit.
pub fn accept_chunk(limit: usize, read: usize, count: usize) -> (r: Result<usize, ReadStatus>)
    requires
        read <= limit,
    ensures
        count > limit - read ==> r == Err::<usize, ReadStatus>(ReadStatus::TooLarge),
        count <= limit - read ==> r == Ok::<usize, ReadStatus>((read + count) as usize),
        r matches Ok(total) ==> total <= limit,
{
    if count > limit - read {
        Err(ReadStatus::TooLarge)
    } else {
        Ok(read + count)
    }
}

/// The text of a byte sequence when it is well-formed UTF-8, as
/// `String::from_utf8` decodes it.
pub uninterp spec fn utf8_text(bytes: Seq<u8>) -> Option<Seq<char>>;

/// Decodes bytes as UTF-8 (`String::from_utf8`); `None` when they are not
/// well-formed.
#[verifier::external_body]
fn decode_utf8(bytes: Vec<u8>) -> (r: Option<String>)
    ensures
        match r {
            Some(s) => utf8_text(bytes@) == Some(s@),
            None => utf8_text(bytes@) is None,
        },
{
    String::from_utf8(bytes).ok()
}

/// The answer to a completed read given the decoded text: the text, erased, or
/// the invalid-UTF-8 status.
pub fn text_result(decoded: Option<String>) -> (v: Value)
    ensures
        match decoded {
            Some(s) => v@ == ValueView::Erased(Box::new(ValueView::String(s@))),
            None => v@ == status_view(ReadStatus::InvalidUtf8),
        },
{
    match decoded {
        Some(text) => {
            let v = Value::String(text);
            assert(v@ == ValueView::String(text@));
            Value::Erased(Box::new(v))
        },
        None => error(ReadStatus::InvalidUtf8),
    }
}

/// The answer to a completed read of `bytes`.
pub fn finish_read(bytes: Vec<u8>) -> (v: Value)
    ensures
        match utf8_text(bytes@) {
            Some(s) => v@ == ValueView::Erased(Box::new(ValueView::String(s))),
            None => v@ == status_view(ReadStatus::InvalidUtf8),
        },
{
    let decoded = decode_utf8(bytes);
    text_result(decoded)
}

} // verus!
