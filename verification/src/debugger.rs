//! Cooperative, read-only inspection: the debugger's decisions. Snapshots contain
//! no guest references or host addresses; the host owns locking and waiting.
use crate::fault::Fault;
use std::collections::VecDeque;
use vstd::prelude::*;

verus! {

/// A rendered value: its type, text and named children.
#[derive(Debug, Default)]
pub struct DebugValue {
    pub ty: String,
    pub value: String,
    pub children: Vec<(String, DebugValue)>,
    pub truncated: bool,
}

/// A source location attached to an instruction.
#[derive(Debug, Clone)]
pub struct SequencePoint {
    pub document: String,
    pub line: usize,
    pub column: usize,
    pub instruction: usize,
}

#[derive(Debug)]
pub struct DebugFrame {
    /// Frame index counted from the entry frame; valid within this snapshot.
    pub index: usize,
    pub function: String,
    pub instruction: usize,
    pub operation: String,
    pub source: Option<SequencePoint>,
    pub arguments: Vec<(String, DebugValue)>,
    pub locals: Vec<(String, DebugValue)>,
    pub evaluation_stack: Vec<DebugValue>,
}

#[derive(Debug, Clone)]
pub struct NativeAllocation {
    pub id: usize,
    pub frame_owned: bool,
    pub size: usize,
    /// None means guest-uninitialized. Never inspect untracked native addresses.
    pub bytes: Vec<Option<u8>>,
}

/// One published view of an execution.
#[derive(Debug, Default)]
pub struct DebugSnapshot {
    pub revision: u64,
    pub status: String,
    pub frames: Vec<DebugFrame>,
    pub heap: Vec<(usize, DebugValue)>,
    pub native: Vec<NativeAllocation>,
    /// The collector's statistics as JSON text.
    pub gc: String,
    pub output: Vec<String>,
    pub result: Option<DebugValue>,
    pub fault: Option<String>,
    pub truncated: bool,
}

#[derive(Debug, Clone, PartialEq, Eq)]
pub enum Breakpoint {
    Instruction { function: String, instruction: usize },
    Source { document: String, line: usize },
}

#[derive(Debug, Clone)]
pub enum DebugCommand {
    Pause,
    Continue,
    Step,
    Next,
    Out,
    Stop,
    Break(Breakpoint),
    ClearBreakpoints,
}

/// What execution does at its next checkpoint.
#[derive(Debug, Clone, PartialEq, Eq)]
pub enum Mode {
    Paused,
    Running,
    Step,
    Stepping,
    /// Run until a shallower frame, or another source line at this depth.
    Next(usize, Option<(String, usize)>),
    /// Run until a frame shallower than this depth.
    Out(usize),
    Stopped,
    Finished,
}

/// The published status of an execution.
#[derive(Debug, Clone, Copy, PartialEq, Eq, Structural)]
pub enum DebugStatus {
    Starting,
    Paused,
    Running,
    PauseRequested,
    StopRequested,
    WaitingForInput,
    Faulted,
    Completed,
    Stopped,
}

impl DebugStatus {
    /// The status text of a snapshot.
    pub fn as_str(self) -> (s: &'static str)
        ensures
            s@ == status_text(self),
    {
        match self {
            DebugStatus::Starting => "starting",
            DebugStatus::Paused => "paused",
            DebugStatus::Running => "running",
            DebugStatus::PauseRequested => "pause requested",
            DebugStatus::StopRequested => "stop requested",
            DebugStatus::WaitingForInput => "waiting for input",
            DebugStatus::Faulted => "faulted",
            DebugStatus::Completed => "completed",
            DebugStatus::Stopped => "stopped",
        }
    }
}

pub open spec fn status_text(s: DebugStatus) -> Seq<char> {
    match s {
        DebugStatus::Starting => "starting"@,
        DebugStatus::Paused => "paused"@,
        DebugStatus::Running => "running"@,
        DebugStatus::PauseRequested => "pause requested"@,
        DebugStatus::StopRequested => "stop requested"@,
        DebugStatus::WaitingForInput => "waiting for input"@,
        DebugStatus::Faulted => "faulted"@,
        DebugStatus::Completed => "completed"@,
        DebugStatus::Stopped => "stopped"@,
    }
}

/// Most breakpoints one execution may hold.
pub const BREAKPOINT_LIMIT: usize = 256;

/// Most buffered console input bytes.
pub const INPUT_LIMIT: usize = 65536;

/// The mathematical value of a breakpoint.
pub open spec fn breakpoint_view(b: Breakpoint) -> (bool, Seq<char>, usize) {
    match b {
        Breakpoint::Instruction { function, instruction } => (true, function@, instruction),
        Breakpoint::Source { document, line } => (false, document@, line),
    }
}

/// The shared debugger state apart from the published snapshot body.
#[derive(Debug)]
pub struct DebugControl {
    pub mode: Mode,
    pub status: DebugStatus,
    pub revision: u64,
    pub breakpoints: Vec<Breakpoint>,
    pub input: VecDeque<u8>,
    pub eof: bool,
    pub attached: bool,
}

/// Whether two breakpoints name the same location.
pub fn same_breakpoint(a: &Breakpoint, b: &Breakpoint) -> (r: bool)
    ensures
        r == (breakpoint_view(*a) == breakpoint_view(*b)),
{
    match (a, b) {
        (
            Breakpoint::Instruction { function: f, instruction: i },
            Breakpoint::Instruction { function: g, instruction: j },
        ) => *f == *g && *i == *j,
        (Breakpoint::Source { document: d, line: l }, Breakpoint::Source { document: e, line: m }) => *d
            == *e && *l == *m,
        _ => false,
    }
}

/// Whether the mode is a terminal one.
pub open spec fn ended(mode: Mode) -> bool {
    mode is Finished || mode is Stopped
}

/// The view of an optional source line.
pub open spec fn line_view(line: Option<(String, usize)>) -> Option<(Seq<char>, usize)> {
    match line {
        Some((d, l)) => Some((d@, l)),
        None => None,
    }
}

fn same_line(a: &Option<(String, usize)>, b: &Option<(String, usize)>) -> (r: bool)
    ensures
        r == (line_view(*a) == line_view(*b)),
{
    match (a, b) {
        (Some((d, l)), Some((e, m))) => *d == *e && *l == *m,
        (None, None) => true,
        _ => false,
    }
}

fn copy_line(a: &Option<(String, usize)>) -> (r: Option<(String, usize)>)
    ensures
        line_view(r) == line_view(*a),
{
    match a {
        Some((d, l)) => Some((d.clone(), *l)),
        None => None,
    }
}

/// The status a command leaves behind for its new mode.
pub open spec fn status_after(mode: Mode, status: DebugStatus) -> DebugStatus {
    match mode {
        Mode::Running | Mode::Step | Mode::Next(..) | Mode::Out(_) => DebugStatus::Running,
        Mode::Stopped => DebugStatus::StopRequested,
        Mode::Paused => if status != DebugStatus::Paused {
            DebugStatus::PauseRequested
        } else {
            status
        },
        _ => status,
    }
}

impl DebugControl {
    /// A debugger that has not started: paused, with no breakpoints or input.
    pub fn new() -> (c: DebugControl)
        ensures
            c.mode == Mode::Paused,
            c.status == DebugStatus::Starting,
            c.revision == 0,
            c.breakpoints@.len() == 0,
            c.input@.len() == 0,
            !c.eof,
            !c.attached,
    {
        DebugControl {
            mode: Mode::Paused,
            status: DebugStatus::Starting,
            revision: 0,
            breakpoints: Vec::new(),
            input: VecDeque::new(),
            eof: false,
            attached: false,
        }
    }

    /// Applies a host command. `depth` and `source` describe the innermost frame
    /// of the current snapshot (depth zero and no source when there is none).
    pub fn command(
        &mut self,
        command: DebugCommand,
        depth: usize,
        source: Option<(String, usize)>,
    ) -> (r: Result<(), Fault>)
        ensures
            final(self).revision == old(self).revision,
            final(self).input == old(self).input,
            final(self).eof == old(self).eof,
            final(self).attached == old(self).attached,
            ended(old(self).mode) ==> r is Err && *final(self) == *old(self),
            !ended(old(self).mode) ==> match command {
                DebugCommand::Step | DebugCommand::Next | DebugCommand::Out => if old(self).mode
                    != Mode::Paused || old(self).status != DebugStatus::Paused {
                    r is Err && *final(self) == *old(self)
                } else {
                    &&& r is Ok
                    &&& final(self).breakpoints == old(self).breakpoints
                    &&& final(self).status == DebugStatus::Running
                    &&& match command {
                        DebugCommand::Step => final(self).mode == Mode::Step,
                        DebugCommand::Out => final(self).mode == Mode::Out(depth),
                        _ => final(self).mode matches Mode::Next(d, line) && d == depth
                            && line_view(line) == line_view(source),
                    }
                },
                DebugCommand::Break(point) => if old(self).breakpoints@.len() >= BREAKPOINT_LIMIT {
                    r is Err && *final(self) == *old(self)
                } else {
                    &&& r is Ok
                    &&& final(self).mode == old(self).mode
                    &&& final(self).status == status_after(old(self).mode, old(self).status)
                    &&& if exists|i: int|
                        0 <= i < old(self).breakpoints@.len() && breakpoint_view(
                            #[trigger] old(self).breakpoints@[i],
                        ) == breakpoint_view(point) {
                        final(self).breakpoints@ == old(self).breakpoints@
                    } else {
                        final(self).breakpoints@ == old(self).breakpoints@.push(point)
                    }
                },
                DebugCommand::ClearBreakpoints => {
                    &&& r is Ok
                    &&& final(self).mode == old(self).mode
                    &&& final(self).breakpoints@.len() == 0
                    &&& final(self).status == status_after(old(self).mode, old(self).status)
                },
                _ => {
                    let mode = match command {
                        DebugCommand::Pause => Mode::Paused,
                        DebugCommand::Continue => Mode::Running,
                        _ => Mode::Stopped,
                    };
                    &&& r is Ok
                    &&& final(self).mode == mode
                    &&& final(self).breakpoints == old(self).breakpoints
                    &&& final(self).status == status_after(mode, old(self).status)
                },
            },
    {
        if matches!(self.mode, Mode::Finished | Mode::Stopped) {
            return Err(Fault::new("debug execution has ended"));
        }
        match command {
            DebugCommand::Pause => self.mode = Mode::Paused,
            DebugCommand::Continue => self.mode = Mode::Running,
            DebugCommand::Step | DebugCommand::Next | DebugCommand::Out => {
                if !matches!(self.mode, Mode::Paused) || self.status != DebugStatus::Paused {
                    return Err(Fault::new("pause before stepping"));
                }
                match command {
                    DebugCommand::Step => self.mode = Mode::Step,
                    DebugCommand::Out => self.mode = Mode::Out(depth),
                    _ => self.mode = Mode::Next(depth, source),
                }
            },
            DebugCommand::Stop => self.mode = Mode::Stopped,
            DebugCommand::Break(point) => {
                if self.breakpoints.len() >= BREAKPOINT_LIMIT {
                    return Err(Fault::new("breakpoint limit exceeded"));
                }
                let mut i: usize = 0;
                let mut found = false;
                while i < self.breakpoints.len()
                    invariant
                        i <= self.breakpoints@.len(),
                        found <==> exists|j: int|
                            0 <= j < i && breakpoint_view(#[trigger] self.breakpoints@[j])
                                == breakpoint_view(point),
                    decreases self.breakpoints@.len() - i,
                {
                    if same_breakpoint(&self.breakpoints[i], &point) {
                        found = true;
                    }
                    i += 1;
                }
                if !found {
                    self.breakpoints.push(point);
                }
            },
            DebugCommand::ClearBreakpoints => self.breakpoints.clear(),
        }
        match self.mode {
            Mode::Running | Mode::Step | Mode::Next(..) | Mode::Out(_) => {
                self.status = DebugStatus::Running;
            },
            Mode::Stopped => {
                self.status = DebugStatus::StopRequested;
            },
            Mode::Paused => {
                if self.status != DebugStatus::Paused {
                    self.status = DebugStatus::PauseRequested;
                }
            },
            _ => {},
        }
        Ok(())
    }

    /// Records a hosting/loader failure before any execution snapshot was
    /// published; returns whether it was recorded.
    pub fn launch_failure(&mut self) -> (recorded: bool)
        ensures
            recorded == (old(self).revision == 0),
            recorded ==> final(self).revision == 1 && final(self).status == DebugStatus::Faulted
                && final(self).mode == Mode::Finished && final(self).breakpoints
                == old(self).breakpoints && final(self).input == old(self).input
                && final(self).eof == old(self).eof && final(self).attached == old(self).attached,
            !recorded ==> *final(self) == *old(self),
    {
        if self.revision == 0 {
            self.revision = 1;
            self.status = DebugStatus::Faulted;
            self.mode = Mode::Finished;
            true
        } else {
            false
        }
    }

    /// Buffers console input for the guest, up to 64 KiB in total.
    pub fn input(&mut self, bytes: &[u8]) -> (r: Result<(), Fault>)
        ensures
            match r {
                Ok(()) => old(self).input@.len() + bytes@.len() <= INPUT_LIMIT && final(self).input@
                    == old(self).input@ + bytes@,
                Err(_) => old(self).input@.len() + bytes@.len() > INPUT_LIMIT,
            },
            final(self).mode == old(self).mode,
            final(self).status == old(self).status,
            final(self).revision == old(self).revision,
            final(self).breakpoints == old(self).breakpoints,
            final(self).eof == old(self).eof,
            final(self).attached == old(self).attached,
    {
        if self.input.len().saturating_add(bytes.len()) > INPUT_LIMIT {
            return Err(Fault::new("debug input limit exceeded"));
        }
        let mut i: usize = 0;
        while i < bytes.len()
            invariant
                i <= bytes@.len(),
                self.input@ == old(self).input@ + bytes@.subrange(0, i as int),
                self.mode == old(self).mode,
                self.status == old(self).status,
                self.revision == old(self).revision,
                self.breakpoints == old(self).breakpoints,
                self.eof == old(self).eof,
                self.attached == old(self).attached,
            decreases bytes@.len() - i,
        {
            self.input.push_back(bytes[i]);
            i += 1;
            assert(self.input@ =~= old(self).input@ + bytes@.subrange(0, i as int));
        }
        assert(bytes@.subrange(0, i as int) =~= bytes@);
        Ok(())
    }

    /// Marks the end of console input.
    pub fn end_input(&mut self)
        ensures
            final(self).eof,
            final(self).mode == old(self).mode,
            final(self).input == old(self).input,
    {
        self.eof = true;
    }

    /// Attaches an execution; each debugger serves one execution.
    pub fn begin(&mut self) -> (r: Result<(), Fault>)
        ensures
            r is Ok <==> !old(self).attached,
            final(self).attached,
            final(self).mode == old(self).mode,
    {
        if self.attached {
            return Err(
                Fault::new("debugger is already attached; use a new debugger for each execution"),
            );
        }
        self.attached = true;
        Ok(())
    }

    /// Whether a checkpoint at `function`/`pc` with the given source point hits
    /// a breakpoint.
    pub fn hits_breakpoint(&self, function: &str, pc: usize, source: &Option<SequencePoint>) -> (hit:
        bool)
        ensures
            hit == exists|i: int|
                0 <= i < self.breakpoints@.len() && breakpoint_hit(
                    #[trigger] self.breakpoints@[i],
                    function@,
                    pc,
                    *source,
                ),
    {
        let mut i: usize = 0;
        while i < self.breakpoints.len()
            invariant
                i <= self.breakpoints@.len(),
                forall|j: int|
                    0 <= j < i ==> !breakpoint_hit(
                        #[trigger] self.breakpoints@[j],
                        function@,
                        pc,
                        *source,
                    ),
            decreases self.breakpoints@.len() - i,
        {
            let hit = match &self.breakpoints[i] {
                Breakpoint::Instruction { function: f, instruction } => crate::text::str_eq(
                    f.as_str(),
                    function,
                ) && *instruction == pc,
                Breakpoint::Source { document, line } => match source {
                    Some(p) => p.document == *document && p.line == *line && p.instruction == pc,
                    None => false,
                },
            };
            if hit {
                return true;
            }
            i += 1;
        }
        false
    }

    /// The checkpoint decision before an instruction at depth `depth`: pause on
    /// a single step, a breakpoint, a finished `Next` or `Out`. Returns whether a
    /// snapshot must be published (when paused, before a host call, or when
    /// `publish_due` says the publish interval has elapsed); publishing bumps
    /// the revision and sets the paused/running status.
    pub fn checkpoint(
        &mut self,
        function: &str,
        pc: usize,
        depth: usize,
        source: &Option<SequencePoint>,
        before_host_call: bool,
        publish_due: bool,
    ) -> (publish: bool)
        requires
            old(self).revision < u64::MAX,
        ensures
            final(self).mode == if old(self).mode == Mode::Stepping || (exists|i: int|
                0 <= i < old(self).breakpoints@.len() && breakpoint_hit(
                    #[trigger] old(self).breakpoints@[i],
                    function@,
                    pc,
                    *source,
                )) || next_done(old(self).mode, depth, *source) || (old(self).mode matches Mode::Out(
                d,
            ) && depth < d) {
                Mode::Paused
            } else {
                old(self).mode
            },
            publish == (final(self).mode == Mode::Paused || before_host_call || publish_due),
            publish ==> final(self).revision == old(self).revision + 1 && final(self).status == if final(self).mode == Mode::Paused {
                DebugStatus::Paused
            } else {
                DebugStatus::Running
            },
            !publish ==> final(self).revision == old(self).revision && final(self).status == old(self).status,
            final(self).breakpoints == old(self).breakpoints,
            final(self).input == old(self).input,
            final(self).eof == old(self).eof,
            final(self).attached == old(self).attached,
    {
        let hit = self.hits_breakpoint(function, pc, source);
        let line = match source {
            Some(p) => Some((p.document.clone(), p.line)),
            None => None,
        };
        let next_finished = match &self.mode {
            Mode::Next(d, start) => depth < *d || (depth == *d && (!same_line(&line, start)
                || start.is_none())),
            _ => false,
        };
        let out_finished = match &self.mode {
            Mode::Out(d) => depth < *d,
            _ => false,
        };
        if matches!(self.mode, Mode::Stepping) || hit || next_finished || out_finished {
            self.mode = Mode::Paused;
        }
        let publish = matches!(self.mode, Mode::Paused) || before_host_call || publish_due;
        if publish {
            self.revision = self.revision + 1;
            self.status = if matches!(self.mode, Mode::Paused) {
                DebugStatus::Paused
            } else {
                DebugStatus::Running
            };
        }
        publish
    }

    /// After waiting out a pause: a stop request ends execution, and a single
    /// step turns into stepping to the next checkpoint.
    pub fn resume(&mut self) -> (r: Result<(), Fault>)
        ensures
            r is Err <==> old(self).mode == Mode::Stopped,
            final(self).mode == if old(self).mode == Mode::Step {
                Mode::Stepping
            } else {
                old(self).mode
            },
            final(self).status == old(self).status,
            final(self).revision == old(self).revision,
    {
        if matches!(self.mode, Mode::Stopped) {
            return Err(Fault::new("debug execution stopped"));
        }
        if matches!(self.mode, Mode::Step) {
            self.mode = Mode::Stepping;
        }
        Ok(())
    }

    /// Records the end of execution and the final status.
    pub fn finish(&mut self, faulted: bool) -> (status: DebugStatus)
        requires
            old(self).revision < u64::MAX,
        ensures
            status == if old(self).mode == Mode::Stopped {
                DebugStatus::Stopped
            } else if faulted {
                DebugStatus::Faulted
            } else {
                DebugStatus::Completed
            },
            final(self).status == status,
            final(self).mode == Mode::Finished,
            final(self).revision == old(self).revision + 1,
    {
        let status = if matches!(self.mode, Mode::Stopped) {
            DebugStatus::Stopped
        } else if faulted {
            DebugStatus::Faulted
        } else {
            DebugStatus::Completed
        };
        self.revision = self.revision + 1;
        self.status = status;
        self.mode = Mode::Finished;
        status
    }

    /// The guest's next console byte: a buffered byte, end of input, a wait
    /// for more input (publishing a waiting status), or a stopped execution.
    pub fn read_input(&mut self) -> (r: InputPoll)
        requires
            old(self).revision < u64::MAX,
        ensures
            ended(old(self).mode) ==> r == InputPoll::Stopped && *final(self) == *old(self),
            !ended(old(self).mode) ==> if old(self).input@.len() > 0 {
                r == InputPoll::Byte(old(self).input@[0]) && final(self).input@ == old(self).input@.drop_first()
            } else if old(self).eof {
                r == InputPoll::EndOfInput
            } else {
                r == InputPoll::Wait && final(self).status == DebugStatus::WaitingForInput
                    && final(self).revision == old(self).revision + 1
            },
            final(self).mode == old(self).mode,
    {
        if matches!(self.mode, Mode::Stopped | Mode::Finished) {
            return InputPoll::Stopped;
        }
        match self.input.pop_front() {
            Some(b) => InputPoll::Byte(b),
            None => {
                if self.eof {
                    InputPoll::EndOfInput
                } else {
                    self.status = DebugStatus::WaitingForInput;
                    self.revision = self.revision + 1;
                    InputPoll::Wait
                }
            },
        }
    }
}

/// The outcome of polling for console input.
#[derive(Debug, Clone, Copy, PartialEq, Eq)]
pub enum InputPoll {
    Byte(u8),
    EndOfInput,
    Wait,
    Stopped,
}

/// Whether a breakpoint matches an instruction and its source point.
pub open spec fn breakpoint_hit(
    b: Breakpoint,
    function: Seq<char>,
    pc: usize,
    source: Option<SequencePoint>,
) -> bool {
    match b {
        Breakpoint::Instruction { function: f, instruction } => f@ == function && instruction == pc,
        Breakpoint::Source { document, line } => match source {
            Some(p) => p.document@ == document@ && p.line == line && p.instruction == pc,
            None => false,
        },
    }
}

/// Whether a `Next` has left its starting frame or line.
pub open spec fn next_done(mode: Mode, depth: usize, source: Option<SequencePoint>) -> bool {
    match mode {
        Mode::Next(d, start) => {
            let line = match source {
                Some(p) => Some((p.document@, p.line)),
                None => None,
            };
            depth < d || (depth == d && (line != line_view(start) || start is None))
        },
        _ => false,
    }
}

} // verus!
