//! Invocation-owned regular-file handles: the handle table, its limits and
//! the checks made before any host call. Integer handles are private runtime
//! transport, never OS descriptors; they are never reused within an
//! invocation. The host performs the file operations themselves.
use crate::file_io::{error_kind, host_error_kind, path_is_valid, valid_path, HostErrorKind};
use crate::value::{Value, ValueView};
use vstd::prelude::*;

verus! {

/// The most handles open at once.
pub const MAX_OPEN_FILES: usize = 64;

/// The most bytes one read or write transfers.
pub const MAX_TRANSFER: usize = 65536;

/// Why a file operation was refused; each is reported as its status byte.
#[derive(Debug, Clone, Copy, PartialEq, Eq, Structural)]
pub enum StreamError {
    InvalidPath,
    NotFound,
    AccessDenied,
    WrongKind,
    AlreadyExists,
    Closed,
    InvalidRange,
    LimitExceeded,
    WrongAccess,
    Io,
}

/// The status byte of each refusal.
pub open spec fn error_code(e: StreamError) -> u8 {
    match e {
        StreamError::InvalidPath => 1,
        StreamError::NotFound => 2,
        StreamError::AccessDenied => 3,
        StreamError::WrongKind => 4,
        StreamError::AlreadyExists => 5,
        StreamError::Closed => 6,
        StreamError::InvalidRange => 7,
        StreamError::LimitExceeded => 8,
        StreamError::WrongAccess => 9,
        StreamError::Io => 10,
    }
}

impl StreamError {
    pub fn code(self) -> (b: u8)
        ensures
            b == error_code(self),
    {
        match self {
            StreamError::InvalidPath => 1,
            StreamError::NotFound => 2,
            StreamError::AccessDenied => 3,
            StreamError::WrongKind => 4,
            StreamError::AlreadyExists => 5,
            StreamError::Closed => 6,
            StreamError::InvalidRange => 7,
            StreamError::LimitExceeded => 8,
            StreamError::WrongAccess => 9,
            StreamError::Io => 10,
        }
    }
}

/// The refusal a host failure of each kind is reported as.
pub open spec fn error_for_kind(kind: HostErrorKind) -> StreamError {
    match kind {
        HostErrorKind::NotFound => StreamError::NotFound,
        HostErrorKind::PermissionDenied => StreamError::AccessDenied,
        HostErrorKind::AlreadyExists => StreamError::AlreadyExists,
        HostErrorKind::InvalidInput => StreamError::InvalidPath,
        HostErrorKind::IsADirectory | HostErrorKind::NotADirectory => StreamError::WrongKind,
        _ => StreamError::Io,
    }
}

/// The refusal a host I/O error is reported as.
pub fn stream_error(error: std::io::Error) -> (e: StreamError)
    ensures
        e == error_for_kind(host_error_kind(error)),
{
    match error_kind(&error) {
        HostErrorKind::NotFound => StreamError::NotFound,
        HostErrorKind::PermissionDenied => StreamError::AccessDenied,
        HostErrorKind::AlreadyExists => StreamError::AlreadyExists,
        HostErrorKind::InvalidInput => StreamError::InvalidPath,
        HostErrorKind::IsADirectory | HostErrorKind::NotADirectory => StreamError::WrongKind,
        _ => StreamError::Io,
    }
}

/// The transport value of an operation's outcome: a success erased, or the
/// refusal's status byte erased.
pub open spec fn outcome_view(r: Result<Value, StreamError>) -> ValueView {
    match r {
        Ok(v) => ValueView::Erased(Box::new(v@)),
        Err(e) => ValueView::Erased(Box::new(ValueView::Byte(error_code(e)))),
    }
}

pub fn outcome(r: Result<Value, StreamError>) -> (v: Value)
    ensures
        v@ == outcome_view(r),
{
    match r {
        Ok(value) => Value::Erased(Box::new(value)),
        Err(e) => {
            let b = Value::Byte(e.code());
            assert(b@ == ValueView::Byte(error_code(e)));
            Value::Erased(Box::new(b))
        },
    }
}

/// The open handles in opening order, each with whether it was opened for
/// writing, and the last handle handed out.
#[derive(Debug)]
pub struct HandleTable {
    open: Vec<(i32, bool)>,
    next: i32,
}

/// The handle-to-writability map of a list of open handles.
pub open spec fn handle_map(s: Seq<(i32, bool)>) -> Map<i32, bool>
    decreases s.len(),
{
    if s.len() == 0 {
        Map::empty()
    } else {
        handle_map(s.drop_last()).insert(s.last().0, s.last().1)
    }
}

/// Handles strictly increase along the list.
pub open spec fn ascending(s: Seq<(i32, bool)>) -> bool {
    forall|a: int, b: int| 0 <= a < b < s.len() ==> #[trigger] s[a].0 < #[trigger] s[b].0
}

pub proof fn lemma_handle_map(s: Seq<(i32, bool)>)
    requires
        ascending(s),
    ensures
        forall|id: i32| #[trigger]
            handle_map(s).contains_key(id) <==> exists|i: int| 0 <= i < s.len() && s[i].0 == id,
        forall|i: int| 0 <= i < s.len() ==> #[trigger] handle_map(s)[s[i].0] == s[i].1,
        handle_map(s).dom().finite(),
        handle_map(s).dom().len() == s.len(),
    decreases s.len(),
{
    if s.len() > 0 {
        let init = s.drop_last();
        assert(ascending(init));
        lemma_handle_map(init);
        let last = s.last();
        assert forall|i: int| 0 <= i < init.len() implies init[i].0 != last.0 by {
            assert(s[i].0 < s[s.len() - 1].0);
        }
        assert(!handle_map(init).contains_key(last.0));
        assert forall|id: i32| #[trigger]
            handle_map(s).contains_key(id) <==> exists|i: int| 0 <= i < s.len() && s[i].0 == id by {
            if handle_map(s).contains_key(id) && id != last.0 {
                let i = choose|i: int| 0 <= i < init.len() && init[i].0 == id;
                assert(s[i].0 == id);
            }
            if exists|i: int| 0 <= i < s.len() && s[i].0 == id {
                let i = choose|i: int| 0 <= i < s.len() && s[i].0 == id;
                if i < s.len() - 1 {
                    assert(init[i].0 == id);
                }
            }
        }
        assert forall|i: int| 0 <= i < s.len() implies #[trigger] handle_map(s)[s[i].0] == s[i].1 by {
            if i < s.len() - 1 {
                assert(init[i] == s[i]);
                assert(s[i].0 != last.0);
            }
        }
    }
}

impl HandleTable {
    /// The open handles and whether each was opened for writing.
    pub closed spec fn handles(&self) -> Map<i32, bool> {
        handle_map(self.open@)
    }

    /// The last handle handed out (zero before the first).
    pub closed spec fn spec_next(&self) -> i32 {
        self.next
    }

    /// The table's invariant: handles ascend, lie in `1..=next`, and stay
    /// within the open-file limit.
    pub closed spec fn wf(&self) -> bool {
        &&& ascending(self.open@)
        &&& self.next >= 0
        &&& forall|i: int| 0 <= i < self.open@.len() ==> 0 < #[trigger] self.open@[i].0 <= self.next
        &&& self.open@.len() <= MAX_OPEN_FILES
    }

    /// An empty table.
    pub fn new() -> (t: HandleTable)
        ensures
            t.wf(),
            t.handles() == Map::<i32, bool>::empty(),
            t.spec_next() == 0,
    {
        let t = HandleTable { open: Vec::new(), next: 0 };
        assert(t.handles() =~= Map::<i32, bool>::empty());
        t
    }

    /// Every open handle was handed out, and there are at most
    /// `MAX_OPEN_FILES` of them.
    pub proof fn lemma_handles(&self)
        requires
            self.wf(),
        ensures
            forall|id: i32| #[trigger] self.handles().contains_key(id) ==> 0 < id <= self.spec_next(),
            self.handles().dom().finite(),
            self.handles().dom().len() <= MAX_OPEN_FILES,
    {
        lemma_handle_map(self.open@);
    }

    /// The number of open handles.
    pub fn len(&self) -> (n: usize)
        requires
            self.wf(),
        ensures
            n == self.handles().dom().len(),
    {
        proof {
            lemma_handle_map(self.open@);
        }
        self.open.len()
    }

    /// Checks an open request before any host call: the path, then the
    /// handle limits.
    pub fn check_open(&self, name: &str) -> (r: Result<(), StreamError>)
        requires
            self.wf(),
        ensures
            !valid_path(name@) ==> r == Err::<(), StreamError>(StreamError::InvalidPath),
            valid_path(name@) && (self.handles().dom().len() >= MAX_OPEN_FILES || self.spec_next()
                == i32::MAX) ==> r == Err::<(), StreamError>(StreamError::LimitExceeded),
            valid_path(name@) && self.handles().dom().len() < MAX_OPEN_FILES && self.spec_next()
                < i32::MAX ==> r is Ok,
    {
        proof {
            lemma_handle_map(self.open@);
        }
        if !path_is_valid(name) {
            return Err(StreamError::InvalidPath);
        }
        if self.open.len() >= MAX_OPEN_FILES || self.next == i32::MAX {
            return Err(StreamError::LimitExceeded);
        }
        Ok(())
    }

    /// Records a file the host opened, under a fresh handle one past the last.
    pub fn register(&mut self, writable: bool) -> (id: i32)
        requires
            old(self).wf(),
            old(self).handles().dom().len() < MAX_OPEN_FILES,
            old(self).spec_next() < i32::MAX,
        ensures
            final(self).wf(),
            id == old(self).spec_next() + 1,
            final(self).spec_next() == id,
            !old(self).handles().contains_key(id),
            final(self).handles() == old(self).handles().insert(id, writable),
    {
        proof {
            lemma_handle_map(self.open@);
        }
        self.next = self.next + 1;
        let id = self.next;
        self.open.push((id, writable));
        proof {
            let s = self.open@;
            assert(s.drop_last() =~= old(self).open@);
            assert(ascending(s));
            lemma_handle_map(s);
        }
        id
    }

    /// The position of an open handle.
    fn find(&self, id: i32) -> (r: Option<usize>)
        requires
            self.wf(),
        ensures
            match r {
                Some(i) => i < self.open@.len() && self.open@[i as int].0 == id,
                None => forall|i: int| 0 <= i < self.open@.len() ==> #[trigger] self.open@[i].0 != id,
            },
    {
        let mut i: usize = 0;
        while i < self.open.len()
            invariant
                i <= self.open@.len(),
                forall|j: int| 0 <= j < i ==> #[trigger] self.open@[j].0 != id,
            decreases self.open.len() - i,
        {
            if self.open[i].0 == id {
                return Some(i);
            }
            i += 1;
        }
        None
    }

    /// Checks that a handle is open, and open for the access asked.
    pub fn access(&self, id: i32, writable: bool) -> (r: Result<(), StreamError>)
        requires
            self.wf(),
        ensures
            !self.handles().contains_key(id) ==> r == Err::<(), StreamError>(StreamError::Closed),
            self.handles().contains_key(id) && self.handles()[id] != writable ==> r == Err::<
                (),
                StreamError,
            >(StreamError::WrongAccess),
            self.handles().contains_key(id) && self.handles()[id] == writable ==> r is Ok,
    {
        proof {
            lemma_handle_map(self.open@);
        }
        match self.find(id) {
            None => Err(StreamError::Closed),
            Some(i) => {
                if self.open[i].1 != writable {
                    Err(StreamError::WrongAccess)
                } else {
                    Ok(())
                }
            },
        }
    }

    /// Releases a handle. Closing is idempotent for every handle ever handed
    /// out; others are refused. Handles are never handed out again.
    pub fn close(&mut self, id: i32) -> (r: Result<i32, StreamError>)
        requires
            old(self).wf(),
        ensures
            final(self).wf(),
            final(self).spec_next() == old(self).spec_next(),
            id <= 0 || id > old(self).spec_next() ==> r == Err::<i32, StreamError>(
                StreamError::Closed,
            ) && final(self).handles() == old(self).handles(),
            0 < id <= old(self).spec_next() ==> r == Ok::<i32, StreamError>(0)
                && final(self).handles() == old(self).handles().remove(id),
    {
        proof {
            lemma_handle_map(self.open@);
        }
        if id <= 0 || id > self.next {
            return Err(StreamError::Closed);
        }
        match self.find(id) {
            None => {
                assert(self.handles() =~= self.handles().remove(id));
                Ok(0)
            },
            Some(i) => {
                let ghost before = self.open@;
                self.open.remove(i);
                proof {
                    let s = self.open@;
                    assert(s =~= before.subrange(0, i as int) + before.subrange(i + 1, before.len() as int));
                    assert forall|a: int, b: int| 0 <= a < b < s.len() implies #[trigger] s[a].0
                        < #[trigger] s[b].0 by {
                        let a0 = if a < i { a } else { a + 1 };
                        let b0 = if b < i { b } else { b + 1 };
                        assert(s[a] == before[a0] && s[b] == before[b0]);
                    }
                    assert forall|k: int| 0 <= k < s.len() implies 0 < #[trigger] s[k].0 <= self.next by {
                        let k0 = if k < i { k } else { k + 1 };
                        assert(s[k] == before[k0]);
                    }
                    lemma_handle_map(s);
                    assert forall|x: i32| #[trigger] handle_map(s).contains_key(x)
                        <==> old(self).handles().remove(id).contains_key(x) by {
                        if handle_map(s).contains_key(x) {
                            let k = choose|k: int| 0 <= k < s.len() && s[k].0 == x;
                            let k0 = if k < i { k } else { k + 1 };
                            assert(s[k] == before[k0]);
                            assert(k0 != i);
                            if x == id {
                                if k0 < i {
                                    assert(before[k0].0 < before[i as int].0);
                                } else {
                                    assert(before[i as int].0 < before[k0].0);
                                }
                            }
                        }
                        if old(self).handles().remove(id).contains_key(x) {
                            let k0 = choose|k0: int| 0 <= k0 < before.len() && before[k0].0 == x;
                            assert(k0 != i);
                            let k = if k0 < i { k0 } else { k0 - 1 };
                            assert(s[k] == before[k0]);
                        }
                    }
                    assert forall|x: i32| #[trigger] handle_map(s).contains_key(x) implies handle_map(
                        s,
                    )[x] == old(self).handles().remove(id)[x] by {
                        let k = choose|k: int| 0 <= k < s.len() && s[k].0 == x;
                        let k0 = if k < i { k } else { k + 1 };
                        assert(s[k] == before[k0]);
                    }
                    assert(handle_map(s) =~= old(self).handles().remove(id));
                }
                Ok(0)
            },
        }
    }
}

/// Checks a read count: not negative, and within one transfer.
pub fn read_count(count: i32) -> (r: Result<usize, StreamError>)
    ensures
        count < 0 ==> r == Err::<usize, StreamError>(StreamError::InvalidRange),
        count > MAX_TRANSFER ==> r == Err::<usize, StreamError>(StreamError::LimitExceeded),
        0 <= count <= MAX_TRANSFER ==> r == Ok::<usize, StreamError>(count as usize),
{
    if count < 0 {
        Err(StreamError::InvalidRange)
    } else if count as usize > MAX_TRANSFER {
        Err(StreamError::LimitExceeded)
    } else {
        Ok(count as usize)
    }
}

/// Refuses, before the file advances, a read whose output could not fit the
/// guest's array limits.
pub fn guest_read_fits(count: i32, array_elements: usize, array_bytes: usize) -> (r: Result<
    (),
    StreamError,
>)
    ensures
        r is Err <==> count >= 0 && (count > array_elements || count > array_bytes),
        r matches Err(e) ==> e == StreamError::LimitExceeded,
{
    if count >= 0 && (count as usize > array_elements || count as usize > array_bytes) {
        Err(StreamError::LimitExceeded)
    } else {
        Ok(())
    }
}

/// Checks a write length against one transfer.
pub fn write_length(len: usize) -> (r: Result<(), StreamError>)
    ensures
        r is Err <==> len > MAX_TRANSFER,
        r matches Err(e) ==> e == StreamError::LimitExceeded,
{
    if len > MAX_TRANSFER {
        Err(StreamError::LimitExceeded)
    } else {
        Ok(())
    }
}

/// The element range `offset..offset + count` of an array of `length`, when
/// both are non-negative and it fits.
pub fn transfer_range(offset: i32, count: i32, length: usize) -> (r: Result<(usize, usize), StreamError>)
    ensures
        r is Ok <==> 0 <= offset && 0 <= count && offset <= length && count <= length - offset,
        r matches Ok((o, c)) ==> o == offset && c == count,
        r matches Err(e) ==> e == StreamError::InvalidRange,
{
    if offset < 0 || count < 0 {
        return Err(StreamError::InvalidRange);
    }
    let o = offset as usize;
    let c = count as usize;
    if o <= length && c <= length - o {
        Ok((o, c))
    } else {
        Err(StreamError::InvalidRange)
    }
}

/// Handles are never reused: every handle still open, or closed, was handed
/// out before the next one, which is always greater.
pub proof fn law_handles_are_fresh(t: HandleTable, id: i32)
    requires
        t.wf(),
        t.handles().contains_key(id),
    ensures
        id < t.spec_next() + 1,
{
    t.lemma_handles();
}

/// One call on a handle table: `register` with the access asked for, or
/// `close` of a handle.
pub enum HandleCall {
    Register(bool),
    Close(i32),
}

/// What the contracts of `register` and `close` say one call does: the table
/// before, the call, the handle it hands out (registering only) and the table
/// after.
pub open spec fn call_step(
    before: HandleTable,
    call: HandleCall,
    given: Option<i32>,
    after: HandleTable,
) -> bool {
    match call {
        HandleCall::Register(writable) => {
            &&& before.spec_next() < i32::MAX
            &&& given == Some((before.spec_next() + 1) as i32)
            &&& after.spec_next() == before.spec_next() + 1
            &&& after.handles() == before.handles().insert((before.spec_next() + 1) as i32, writable)
        },
        HandleCall::Close(id) => {
            &&& given is None
            &&& after.spec_next() == before.spec_next()
            &&& after.handles() == if 0 < id <= before.spec_next() {
                before.handles().remove(id)
            } else {
                before.handles()
            }
        },
    }
}

/// `tables` are the states of one table across `calls`, and `given` the
/// handles the calls handed out.
pub open spec fn is_run(tables: Seq<HandleTable>, calls: Seq<HandleCall>, given: Seq<Option<i32>>) -> bool {
    &&& tables.len() == calls.len() + 1
    &&& given.len() == calls.len()
    &&& forall|i: int|
        #![trigger calls[i]]
        0 <= i < calls.len() ==> call_step(tables[i], calls[i], given[i], tables[i + 1])
}

proof fn lemma_next_grows(tables: Seq<HandleTable>, calls: Seq<HandleCall>, given: Seq<Option<i32>>, i: int, k: int)
    requires
        is_run(tables, calls, given),
        0 <= i <= k <= calls.len(),
    ensures
        tables[i].spec_next() <= tables[k].spec_next(),
    decreases k - i,
{
    if i < k {
        lemma_next_grows(tables, calls, given, i, k - 1);
        assert(call_step(tables[k - 1], calls[k - 1], given[k - 1], tables[k]));
    }
}

proof fn lemma_open_below_next(tables: Seq<HandleTable>, calls: Seq<HandleCall>, given: Seq<Option<i32>>, k: int)
    requires
        is_run(tables, calls, given),
        tables[0].wf(),
        0 <= k <= calls.len(),
    ensures
        forall|id: i32| #[trigger] tables[k].handles().contains_key(id) ==> id <= tables[k].spec_next(),
    decreases k,
{
    if k == 0 {
        tables[0].lemma_handles();
    } else {
        lemma_open_below_next(tables, calls, given, k - 1);
        assert(call_step(tables[k - 1], calls[k - 1], given[k - 1], tables[k]));
    }
}

proof fn lemma_closed_stays_closed(
    tables: Seq<HandleTable>,
    calls: Seq<HandleCall>,
    given: Seq<Option<i32>>,
    j: int,
    k: int,
    id: i32,
)
    requires
        is_run(tables, calls, given),
        0 <= j < k <= calls.len(),
        calls[j] == HandleCall::Close(id),
        0 < id <= tables[j].spec_next(),
    ensures
        !tables[k].handles().contains_key(id),
    decreases k - j,
{
    assert(call_step(tables[j], calls[j], given[j], tables[j + 1]));
    if k > j + 1 {
        lemma_closed_stays_closed(tables, calls, given, j, k - 1, id);
        lemma_next_grows(tables, calls, given, j, k - 1);
        assert(call_step(tables[k - 1], calls[k - 1], given[k - 1], tables[k]));
    }
}

/// Handle ids are never reused, over any run of `register` and `close` on one
/// table: the handles handed out strictly increase, each lies above the last
/// handle handed out before the run and is not open when handed out, and a
/// handle closed during the run is never open again.
pub proof fn law_handle_ids_are_never_reused(
    tables: Seq<HandleTable>,
    calls: Seq<HandleCall>,
    given: Seq<Option<i32>>,
)
    requires
        is_run(tables, calls, given),
        tables[0].wf(),
    ensures
        forall|i: int, j: int|
            0 <= i < j < calls.len() && given[i] is Some && given[j] is Some ==> #[trigger] given[i]->0
                < #[trigger] given[j]->0,
        forall|i: int|
            #![trigger given[i]]
            0 <= i < calls.len() && given[i] is Some ==> {
                &&& tables[0].spec_next() < given[i]->0 <= tables[calls.len() as int].spec_next()
                &&& !tables[i].handles().contains_key(given[i]->0)
            },
        forall|j: int, k: int, id: i32|
            0 <= j < k <= calls.len() && #[trigger] calls[j] == HandleCall::Close(id) && 0 < id
                <= tables[j].spec_next() ==> !#[trigger] tables[k].handles().contains_key(id),
{
    assert forall|i: int, j: int|
        0 <= i < j < calls.len() && given[i] is Some && given[j] is Some implies #[trigger] given[i]->0
            < #[trigger] given[j]->0 by {
        assert(call_step(tables[i], calls[i], given[i], tables[i + 1]));
        assert(call_step(tables[j], calls[j], given[j], tables[j + 1]));
        lemma_next_grows(tables, calls, given, i + 1, j);
    }
    assert forall|i: int| #![trigger given[i]]
        0 <= i < calls.len() && given[i] is Some implies {
            &&& tables[0].spec_next() < given[i]->0 <= tables[calls.len() as int].spec_next()
            &&& !tables[i].handles().contains_key(given[i]->0)
        } by {
        assert(call_step(tables[i], calls[i], given[i], tables[i + 1]));
        lemma_next_grows(tables, calls, given, 0, i);
        lemma_next_grows(tables, calls, given, i + 1, calls.len() as int);
        lemma_open_below_next(tables, calls, given, i);
    }
    assert forall|j: int, k: int, id: i32|
        0 <= j < k <= calls.len() && #[trigger] calls[j] == HandleCall::Close(id) && 0 < id
            <= tables[j].spec_next() implies !#[trigger] tables[k].handles().contains_key(id) by {
        lemma_closed_stays_closed(tables, calls, given, j, k, id);
    }
}

proof fn lemma_registers_count(tables: Seq<HandleTable>, calls: Seq<HandleCall>, given: Seq<Option<i32>>, k: int)
    requires
        is_run(tables, calls, given),
        tables[0].wf(),
        tables[0].spec_next() == 0,
        tables[0].handles().dom().len() == 0,
        forall|i: int| 0 <= i < calls.len() ==> #[trigger] calls[i] is Register,
        0 <= k <= calls.len(),
    ensures
        tables[k].spec_next() == k,
        tables[k].handles().dom().finite(),
        tables[k].handles().dom().len() == k,
        forall|id: i32| #[trigger] tables[k].handles().contains_key(id) ==> id <= tables[k].spec_next(),
    decreases k,
{
    if k == 0 {
        tables[0].lemma_handles();
    } else {
        lemma_registers_count(tables, calls, given, k - 1);
        let b = tables[k - 1];
        assert(call_step(b, calls[k - 1], given[k - 1], tables[k]));
        let id = (b.spec_next() + 1) as i32;
        assert(!b.handles().contains_key(id));
        assert(tables[k].handles().dom() =~= b.handles().dom().insert(id));
    }
}

/// From a fresh table, `n` successful opens hand out the handles `1..=n`, in
/// order, and leave `n` handles open, the last handed out being `n`; once `n`
/// reaches `MAX_OPEN_FILES`, `check_open` refuses the next open with
/// `LimitExceeded`.
pub proof fn law_opens_count_up(tables: Seq<HandleTable>, calls: Seq<HandleCall>, given: Seq<Option<i32>>)
    requires
        is_run(tables, calls, given),
        tables[0].wf(),
        tables[0].spec_next() == 0,
        tables[0].handles().dom().len() == 0,
        forall|i: int| 0 <= i < calls.len() ==> #[trigger] calls[i] is Register,
    ensures
        forall|i: int| 0 <= i < calls.len() ==> #[trigger] given[i] == Some((i + 1) as i32),
        tables[calls.len() as int].spec_next() == calls.len(),
        tables[calls.len() as int].handles().dom().len() == calls.len(),
        calls.len() >= MAX_OPEN_FILES ==> tables[calls.len() as int].handles().dom().len() >= MAX_OPEN_FILES,
{
    assert forall|i: int| 0 <= i < calls.len() implies #[trigger] given[i] == Some((i + 1) as i32) by {
        lemma_registers_count(tables, calls, given, i);
        assert(call_step(tables[i], calls[i], given[i], tables[i + 1]));
    }
    lemma_registers_count(tables, calls, given, calls.len() as int);
}

} // verus!
