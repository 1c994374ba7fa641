//! The debugger terminal's decisions and text: what a command line asks for,
//! and how a snapshot, a value and a source location are shown.
use crate::constraints::{first_whitespace, lemma_first_whitespace, split_words, words, words_view};
use crate::debugger::{
    breakpoint_view, Breakpoint, DebugCommand, DebugFrame, DebugSnapshot, DebugValue, NativeAllocation,
    SequencePoint,
};
use crate::syntax::{
    chars_equal, find_char, find_from, is_whitespace_char, lemma_find_from, lemma_trim_len, slice_chars,
    string_of, trim_start,
};
use crate::numbers::{decimal, parse_unsigned, parse_unsigned_at, push_decimal};
use crate::text::{chars_of, hex_byte, push_char, push_hex_byte, push_str, str_eq};
use vstd::prelude::*;
use vstd::string::StringExecFns;

verus! {

/// The escaped form `str::escape_debug` gives a text.
pub uninterp spec fn debug_escaped(s: Seq<char>) -> Seq<char>;

/// Escapes a text as `str::escape_debug` does.
#[verifier::external_body]
fn escape(s: &str) -> (r: String)
    ensures
        r@ == debug_escaped(s@),
{
    s.escape_debug().to_string()
}

/// `n` spaces.
pub open spec fn spaces(n: nat) -> Seq<char> {
    Seq::new(n, |i: int| ' ')
}

/// A value's line, `indent` spaces in, then its children two further in.
pub open spec fn value_text(name: Seq<char>, v: DebugValue, indent: nat) -> Seq<char>
    decreases v, 0nat,
{
    spaces(indent) + name + ": "@ + v.ty@ + " = "@ + v.value@ + (if v.truncated {
        " [truncated]"@
    } else {
        Seq::empty()
    }) + "\n"@ + children_text(v.children@, indent + 2, v.children@.len())
}

/// The lines of the first `n` named values.
pub open spec fn children_text(children: Seq<(String, DebugValue)>, indent: nat, n: nat) -> Seq<char>
    decreases children, n,
{
    if n == 0 || n > children.len() {
        Seq::empty()
    } else {
        children_text(children, indent, (n - 1) as nat) + value_text(
            children[n - 1].0@,
            children[n - 1].1,
            indent,
        )
    }
}

/// Appends a value's lines (see `value_text`); `prefix` holds its indentation.
fn push_value(out: &mut String, prefix: &String, name: &str, v: &DebugValue)
    requires
        prefix@ == spaces(prefix@.len()),
    ensures
        final(out)@ == old(out)@ + value_text(name@, *v, prefix@.len()),
    decreases v,
{
    push_str(out, prefix.as_str());
    push_str(out, name);
    push_str(out, ": ");
    push_str(out, v.ty.as_str());
    push_str(out, " = ");
    push_str(out, v.value.as_str());
    if v.truncated {
        push_str(out, " [truncated]");
    }
    push_str(out, "\n");
    let ghost head = out@;
    let mut inner = prefix.clone();
    push_str(&mut inner, "  ");
    proof {
        reveal_strlit("  ");
    }
    let ghost indent = (prefix@.len() + 2) as nat;
    assert(inner@ =~= spaces(indent));
    let ghost children = v.children@;
    let mut i: usize = 0;
    while i < v.children.len()
        invariant
            i <= children.len(),
            children == v.children@,
            inner@.len() == indent,
            inner@ == spaces(indent),
            out@ == head + children_text(children, indent, i as nat),
        decreases v.children.len() - i,
    {
        proof {
            assert(decreases_to!(v => v.children));
            assert(decreases_to!(v.children => v.children@));
            assert(decreases_to!(v.children@ => v.children@[i as int]));
            assert(decreases_to!(v.children@[i as int] => v.children@[i as int].1));
        }
        push_value(out, &inner, v.children[i].0.as_str(), &v.children[i].1);
        i += 1;
    }
    proof {
        reveal_strlit(": ");
        reveal_strlit(" = ");
        reveal_strlit(" [truncated]");
        reveal_strlit("\n");
        assert(out@ =~= old(out)@ + value_text(name@, *v, prefix@.len()));
    }
}


/// A source location: its escaped document, line and column.
pub open spec fn location_text(p: SequencePoint) -> Seq<char> {
    debug_escaped(p.document@) + ":"@ + decimal(p.line as nat) + ":"@ + decimal(p.column as nat)
}

/// A frame's line of the overview.
pub open spec fn frame_line(f: DebugFrame) -> Seq<char> {
    "  #"@ + decimal(f.index as nat) + " "@ + debug_escaped(f.function@) + " @ IL "@ + decimal(
        f.instruction as nat,
    ) + (match f.source {
        Some(p) => "  "@ + location_text(p),
        None => Seq::empty(),
    }) + "\n"@
}

/// The overview lines of the first `n` frames.
pub open spec fn frames_text(frames: Seq<DebugFrame>, n: nat) -> Seq<char>
    decreases n,
{
    if n == 0 || n > frames.len() {
        Seq::empty()
    } else {
        frames_text(frames, (n - 1) as nat) + frame_line(frames[n - 1])
    }
}

/// A snapshot's overview: status, revision, frame count and collector
/// statistics, a line per frame, then the fault, the result and a note when
/// limits cut the snapshot short.
pub open spec fn overview_text(s: DebugSnapshot) -> Seq<char> {
    "["@ + s.status@ + "] snapshot #"@ + decimal(s.revision as nat) + "; "@ + decimal(
        s.frames@.len(),
    ) + " frames; GC "@ + s.gc@ + "\n"@ + frames_text(s.frames@, s.frames@.len()) + (match s.fault {
        Some(f) => "Fault: "@ + debug_escaped(f@) + "\n"@,
        None => Seq::empty(),
    }) + (match s.result {
        Some(r) => value_text("result"@, r, 0),
        None => Seq::empty(),
    }) + (if s.truncated {
        "[snapshot limits reached; some memory omitted]\n"@
    } else {
        Seq::empty()
    })
}

fn push_location(out: &mut String, p: &SequencePoint)
    ensures
        final(out)@ == old(out)@ + location_text(*p),
{
    let document = escape(p.document.as_str());
    push_str(out, document.as_str());
    push_str(out, ":");
    push_decimal(out, p.line as u64);
    push_str(out, ":");
    push_decimal(out, p.column as u64);
    proof {
        reveal_strlit(":");
        assert(out@ =~= old(out)@ + location_text(*p));
    }
}

fn push_frame_line(out: &mut String, f: &DebugFrame)
    ensures
        final(out)@ == old(out)@ + frame_line(*f),
{
    push_str(out, "  #");
    push_decimal(out, f.index as u64);
    push_str(out, " ");
    let function = escape(f.function.as_str());
    push_str(out, function.as_str());
    push_str(out, " @ IL ");
    push_decimal(out, f.instruction as u64);
    let ghost middle = out@;
    if let Some(p) = &f.source {
        push_str(out, "  ");
        push_location(out, p);
    }
    push_str(out, "\n");
    proof {
        reveal_strlit("  #");
        reveal_strlit(" ");
        reveal_strlit(" @ IL ");
        reveal_strlit("  ");
        reveal_strlit("\n");
        assert(out@ =~= old(out)@ + frame_line(*f));
    }
}

/// The overview of a snapshot (see `overview_text`).
pub fn overview(snapshot: &DebugSnapshot) -> (text: String)
    ensures
        text@ == overview_text(*snapshot),
{
    let mut out = String::from_str("[");
    push_str(&mut out, snapshot.status.as_str());
    push_str(&mut out, "] snapshot #");
    push_decimal(&mut out, snapshot.revision);
    push_str(&mut out, "; ");
    push_decimal(&mut out, snapshot.frames.len() as u64);
    push_str(&mut out, " frames; GC ");
    push_str(&mut out, snapshot.gc.as_str());
    push_str(&mut out, "\n");
    let ghost head = out@;
    let ghost frames = snapshot.frames@;
    let mut i: usize = 0;
    while i < snapshot.frames.len()
        invariant
            i <= frames.len(),
            frames == snapshot.frames@,
            out@ == head + frames_text(frames, i as nat),
        decreases snapshot.frames.len() - i,
    {
        push_frame_line(&mut out, &snapshot.frames[i]);
        i += 1;
        proof {
            assert(out@ =~= head + frames_text(frames, i as nat));
        }
    }
    let ghost listed = out@;
    if let Some(f) = &snapshot.fault {
        push_str(&mut out, "Fault: ");
        let text = escape(f.as_str());
        push_str(&mut out, text.as_str());
        push_str(&mut out, "\n");
    }
    let ghost faulted = out@;
    if let Some(r) = &snapshot.result {
        let prefix = String::new();
        proof {
            assert(prefix@ =~= spaces(0));
        }
        push_value(&mut out, &prefix, "result", r);
    }
    let ghost resulted = out@;
    if snapshot.truncated {
        push_str(&mut out, "[snapshot limits reached; some memory omitted]\n");
    }
    proof {
        reveal_strlit("[");
        reveal_strlit("] snapshot #");
        reveal_strlit("; ");
        reveal_strlit(" frames; GC ");
        reveal_strlit("\n");
        reveal_strlit("Fault: ");
        assert(out@ =~= overview_text(*snapshot));
    }
    out
}


/// What an inspection argument asks for: no index, an index, or why it is
/// refused.
pub open spec fn parse_index(argument: Option<Seq<char>>) -> Result<Option<nat>, Seq<char>> {
    match argument {
        None => Ok(None),
        Some(a) => match parse_unsigned(a, usize::MAX as nat + 1) {
            Some(n) => Ok(Some(n)),
            None => Err("expected numeric index"@),
        },
    }
}

/// The position of the first frame from `from` on with the given index.
pub open spec fn frame_with_index(frames: Seq<DebugFrame>, index: nat, from: int) -> Option<int>
    decreases frames.len() - from,
{
    if from < 0 || from >= frames.len() {
        None
    } else if frames[from].index == index {
        Some(from)
    } else {
        frame_with_index(frames, index, from + 1)
    }
}

/// The frame that `stack` shows: the one with the index asked for, or the
/// first when none is asked for.
pub open spec fn chosen_frame(frames: Seq<DebugFrame>, index: Option<nat>) -> Option<int> {
    match index {
        Some(n) => frame_with_index(frames, n, 0),
        None => if frames.len() > 0 {
            Some(0)
        } else {
            None
        },
    }
}

/// The evaluation-stack lines of the first `n` values.
pub open spec fn eval_text(values: Seq<DebugValue>, n: nat) -> Seq<char>
    decreases n,
{
    if n == 0 || n > values.len() {
        Seq::empty()
    } else {
        eval_text(values, (n - 1) as nat) + value_text(
            "eval["@ + decimal((n - 1) as nat) + "]"@,
            values[n - 1],
            2,
        )
    }
}

/// A frame's header, its arguments and locals, then its evaluation stack.
pub open spec fn stack_text(f: DebugFrame) -> Seq<char> {
    let named = f.arguments@ + f.locals@;
    "Frame #"@ + decimal(f.index as nat) + " "@ + debug_escaped(f.function@) + "\n"@
        + children_text(named, 2, named.len()) + eval_text(
        f.evaluation_stack@,
        f.evaluation_stack@.len(),
    )
}

/// Whether the heap of a snapshot holds the object `id`.
pub open spec fn heap_has(heap: Seq<(usize, DebugValue)>, id: nat) -> bool {
    exists|i: int| 0 <= i < heap.len() && (#[trigger] heap[i]).0 == id
}

/// The lines of the first `n` heap objects that `index` selects.
pub open spec fn heap_text(heap: Seq<(usize, DebugValue)>, index: Option<nat>, n: nat) -> Seq<char>
    decreases n,
{
    if n == 0 || n > heap.len() {
        Seq::empty()
    } else {
        let (id, v) = heap[n - 1];
        heap_text(heap, index, (n - 1) as nat) + if index is None || index == Some(id as nat) {
            value_text("heap#"@ + decimal(id as nat), v, 0)
        } else {
            Seq::empty()
        }
    }
}

/// A byte in hexadecimal, or `??` when uninitialized.
pub open spec fn byte_text(b: Option<u8>) -> Seq<char> {
    match b {
        Some(n) => hex_byte(n),
        None => "??"@,
    }
}

/// The first `n` bytes, space-separated.
pub open spec fn bytes_text(bytes: Seq<Option<u8>>, n: nat) -> Seq<char>
    decreases n,
{
    if n == 0 || n > bytes.len() {
        Seq::empty()
    } else if n == 1 {
        byte_text(bytes[0])
    } else {
        bytes_text(bytes, (n - 1) as nat) + " "@ + byte_text(bytes[n - 1])
    }
}

/// A native allocation's line: owner, size and the bytes tracked, with a
/// mark when fewer bytes are tracked than allocated.
pub open spec fn allocation_line(a: NativeAllocation) -> Seq<char> {
    "native#"@ + decimal(a.id as nat) + " "@ + (if a.frame_owned {
        "frame-owned"@
    } else {
        "heap"@
    }) + " bytes="@ + decimal(a.size as nat) + " ["@ + bytes_text(a.bytes@, a.bytes@.len()) + (
    if a.size > a.bytes@.len() {
        " \u{2026}"@
    } else {
        Seq::empty()
    }) + "]\n"@
}

/// The lines of the first `n` native allocations.
pub open spec fn memory_text(native: Seq<NativeAllocation>, n: nat) -> Seq<char>
    decreases n,
{
    if n == 0 || n > native.len() {
        Seq::empty()
    } else {
        memory_text(native, (n - 1) as nat) + allocation_line(native[n - 1])
    }
}

/// The first `n` lines, each ended.
pub open spec fn lines_text(lines: Seq<String>, n: nat) -> Seq<char>
    decreases n,
{
    if n == 0 || n > lines.len() {
        Seq::empty()
    } else {
        lines_text(lines, (n - 1) as nat) + lines[n - 1]@ + "\n"@
    }
}

/// The current instruction of the innermost frame.
pub open spec fn il_text(frames: Seq<DebugFrame>) -> Seq<char> {
    if frames.len() == 0 {
        Seq::empty()
    } else {
        debug_escaped(frames[0].function@) + " @ "@ + decimal(frames[0].instruction as nat) + ": "@
            + frames[0].operation@ + "\n"@
    }
}

/// What an inspection command shows of a snapshot, or why it cannot:
/// `stack`, `heap`, `memory`, `gc`, `output` and `il`; any other command
/// shows the overview. An argument must be an index.
pub open spec fn spec_inspect(s: DebugSnapshot, command: Seq<char>, argument: Option<Seq<char>>) -> Result<
    Seq<char>,
    Seq<char>,
> {
    match parse_index(argument) {
        Err(m) => Err(m),
        Ok(index) => if command == "stack"@ {
            match chosen_frame(s.frames@, index) {
                None => Err("frame not in snapshot"@),
                Some(i) => Ok(stack_text(s.frames@[i])),
            }
        } else if command == "heap"@ {
            if index matches Some(id) && !heap_has(s.heap@, id) {
                Err("heap object not in snapshot"@)
            } else {
                Ok(heap_text(s.heap@, index, s.heap@.len()))
            }
        } else if command == "memory"@ {
            Ok(memory_text(s.native@, s.native@.len()))
        } else if command == "gc"@ {
            Ok(s.gc@ + "\n"@)
        } else if command == "output"@ {
            Ok(lines_text(s.output@, s.output@.len()))
        } else if command == "il"@ {
            Ok(il_text(s.frames@))
        } else {
            Ok(overview_text(s))
        },
    }
}

fn parse_index_exec(argument: Option<&str>) -> (r: Result<Option<usize>, String>)
    ensures
        match parse_index(
            match argument {
                Some(a) => Some(a@),
                None => None,
            },
        ) {
            Ok(Some(n)) => r == Ok::<Option<usize>, String>(Some(n as usize)) && n <= usize::MAX,
            Ok(None) => r == Ok::<Option<usize>, String>(None),
            Err(m) => r matches Err(e) && e@ == m,
        },
{
    match argument {
        None => Ok(None),
        Some(a) => {
            let chars = chars_of(a);
            match parse_unsigned_at(&chars, 0, chars.len(), usize::MAX as u128 + 1) {
                Some(n) => {
                    proof {
                        assert(chars@.subrange(0, chars@.len() as int) =~= a@);
                    }
                    Ok(Some(n as usize))
                },
                None => {
                    proof {
                        assert(chars@.subrange(0, chars@.len() as int) =~= a@);
                    }
                    Err(String::from_str("expected numeric index"))
                },
            }
        },
    }
}

fn push_stack(out: &mut String, f: &DebugFrame)
    ensures
        final(out)@ == old(out)@ + stack_text(*f),
{
    push_str(out, "Frame #");
    push_decimal(out, f.index as u64);
    push_str(out, " ");
    let function = escape(f.function.as_str());
    push_str(out, function.as_str());
    push_str(out, "\n");
    let ghost head = out@;
    let ghost named = f.arguments@ + f.locals@;
    let mut prefix = String::new();
    push_str(&mut prefix, "  ");
    proof {
        reveal_strlit("  ");
        assert(prefix@ =~= spaces(2));
    }
    let mut i: usize = 0;
    while i < f.arguments.len()
        invariant
            i <= f.arguments@.len(),
            named == f.arguments@ + f.locals@,
            prefix@ == spaces(2),
            out@ == head + children_text(named, 2, i as nat),
        decreases f.arguments.len() - i,
    {
        push_value(out, &prefix, f.arguments[i].0.as_str(), &f.arguments[i].1);
        i += 1;
        proof {
            assert(named[i - 1] == f.arguments@[i - 1]);
        }
    }
    let mut j: usize = 0;
    while j < f.locals.len()
        invariant
            j <= f.locals@.len(),
            named == f.arguments@ + f.locals@,
            prefix@ == spaces(2),
            out@ == head + children_text(named, 2, (f.arguments@.len() + j) as nat),
        decreases f.locals.len() - j,
    {
        push_value(out, &prefix, f.locals[j].0.as_str(), &f.locals[j].1);
        j += 1;
        proof {
            assert(named[f.arguments@.len() + j - 1] == f.locals@[j - 1]);
        }
    }
    let ghost listed = out@;
    let mut k: usize = 0;
    while k < f.evaluation_stack.len()
        invariant
            k <= f.evaluation_stack@.len(),
            prefix@ == spaces(2),
            out@ == listed + eval_text(f.evaluation_stack@, k as nat),
        decreases f.evaluation_stack.len() - k,
    {
        let mut name = String::from_str("eval[");
        push_decimal(&mut name, k as u64);
        push_str(&mut name, "]");
        push_value(out, &prefix, name.as_str(), &f.evaluation_stack[k]);
        k += 1;
        proof {
            reveal_strlit("eval[");
            reveal_strlit("]");
            assert(name@ =~= "eval["@ + decimal((k - 1) as nat) + "]"@);
            assert(out@ =~= listed + eval_text(f.evaluation_stack@, k as nat));
        }
    }
    proof {
        reveal_strlit("Frame #");
        reveal_strlit(" ");
        reveal_strlit("\n");
        assert(out@ =~= old(out)@ + stack_text(*f));
    }
}

fn push_allocation(out: &mut String, a: &NativeAllocation)
    ensures
        final(out)@ == old(out)@ + allocation_line(*a),
{
    push_str(out, "native#");
    push_decimal(out, a.id as u64);
    push_str(out, " ");
    if a.frame_owned {
        push_str(out, "frame-owned");
    } else {
        push_str(out, "heap");
    }
    push_str(out, " bytes=");
    push_decimal(out, a.size as u64);
    push_str(out, " [");
    let ghost head = out@;
    let mut i: usize = 0;
    while i < a.bytes.len()
        invariant
            i <= a.bytes@.len(),
            out@ == head + bytes_text(a.bytes@, i as nat),
        decreases a.bytes.len() - i,
    {
        if i > 0 {
            push_str(out, " ");
        }
        match a.bytes[i] {
            Some(b) => push_hex_byte(out, b),
            None => push_str(out, "??"),
        }
        i += 1;
        proof {
            reveal_strlit(" ");
            reveal_strlit("??");
            assert(out@ =~= head + bytes_text(a.bytes@, i as nat));
        }
    }
    if a.size > a.bytes.len() {
        push_str(out, " \u{2026}");
    }
    push_str(out, "]\n");
    proof {
        reveal_strlit("native#");
        reveal_strlit(" ");
        reveal_strlit("frame-owned");
        reveal_strlit("heap");
        reveal_strlit(" bytes=");
        reveal_strlit(" [");
        reveal_strlit(" \u{2026}");
        reveal_strlit("]\n");
        assert(out@ =~= old(out)@ + allocation_line(*a));
    }
}

/// The frame `stack` shows (see `chosen_frame`).
fn find_frame(frames: &Vec<DebugFrame>, index: Option<usize>) -> (r: Option<usize>)
    ensures
        match r {
            Some(i) => i < frames@.len() && chosen_frame(
                frames@,
                match index {
                    Some(n) => Some(n as nat),
                    None => None,
                },
            ) == Some(i as int),
            None => chosen_frame(
                frames@,
                match index {
                    Some(n) => Some(n as nat),
                    None => None,
                },
            ) is None,
        },
{
    match index {
        Some(n) => {
            let mut i: usize = 0;
            while i < frames.len()
                invariant
                    i <= frames@.len(),
                    index == Some(n),
                    frame_with_index(frames@, n as nat, 0) == frame_with_index(frames@, n as nat, i as int),
                decreases frames.len() - i,
            {
                if frames[i].index == n {
                    assert(frame_with_index(frames@, n as nat, i as int) == Some(i as int));
                    return Some(i);
                }
                i += 1;
            }
            None
        },
        None => if frames.len() > 0 {
            Some(0)
        } else {
            None
        },
    }
}

/// What an inspection command shows of a snapshot (see `spec_inspect`).
pub fn inspect(snapshot: &DebugSnapshot, command: &str, argument: Option<&str>) -> (r: Result<
    String,
    String,
>)
    ensures
        match spec_inspect(
            *snapshot,
            command@,
            match argument {
                Some(a) => Some(a@),
                None => None,
            },
        ) {
            Ok(t) => r matches Ok(text) && text@ == t,
            Err(m) => r matches Err(e) && e@ == m,
        },
{
    let index = match parse_index_exec(argument) {
        Ok(i) => i,
        Err(e) => return Err(e),
    };
    let mut out = String::new();
    proof {
        reveal_strlit("stack");
        reveal_strlit("heap");
        reveal_strlit("memory");
        reveal_strlit("gc");
        reveal_strlit("output");
        reveal_strlit("il");
        reveal_strlit("\n");
    }
    if str_eq(command, "stack") {
        let chosen = find_frame(&snapshot.frames, index);
        return match chosen {
            Some(i) => {
                push_stack(&mut out, &snapshot.frames[i]);
                Ok(out)
            },
            None => Err(String::from_str("frame not in snapshot")),
        };
    }
    if str_eq(command, "heap") {
        let ghost heap = snapshot.heap@;
        let ghost wanted: Option<nat> = match index {
            Some(n) => Some(n as nat),
            None => None,
        };
        if let Some(id) = index {
            let mut found = false;
            let mut i: usize = 0;
            while i < snapshot.heap.len()
                invariant
                    i <= heap.len(),
                    heap == snapshot.heap@,
                    !found ==> forall|k: int| 0 <= k < i ==> heap[k].0 != id,
                    found ==> heap_has(heap, id as nat),
                decreases snapshot.heap.len() - i,
            {
                if snapshot.heap[i].0 == id {
                    found = true;
                }
                i += 1;
            }
            if !found {
                return Err(String::from_str("heap object not in snapshot"));
            }
        }
        let prefix = String::new();
        proof {
            assert(prefix@ =~= spaces(0));
        }
        let mut i: usize = 0;
        while i < snapshot.heap.len()
            invariant
                i <= heap.len(),
                heap == snapshot.heap@,
                prefix@ == spaces(0),
                match index {
                    Some(n) => wanted == Some(n as nat),
                    None => wanted is None,
                },
                out@ == heap_text(heap, wanted, i as nat),
            decreases snapshot.heap.len() - i,
        {
            let id = snapshot.heap[i].0;
            let selected = match index {
                Some(n) => n == id,
                None => true,
            };
            if selected {
                let mut name = String::from_str("heap#");
                push_decimal(&mut name, id as u64);
                push_value(&mut out, &prefix, name.as_str(), &snapshot.heap[i].1);
                proof {
                    reveal_strlit("heap#");
                    assert(name@ =~= "heap#"@ + decimal(id as nat));
                }
            }
            i += 1;
            proof {
                assert(out@ =~= heap_text(heap, wanted, i as nat));
            }
        }
        return Ok(out);
    }
    if str_eq(command, "memory") {
        let ghost native = snapshot.native@;
        let mut i: usize = 0;
        while i < snapshot.native.len()
            invariant
                i <= native.len(),
                native == snapshot.native@,
                out@ == memory_text(native, i as nat),
            decreases snapshot.native.len() - i,
        {
            push_allocation(&mut out, &snapshot.native[i]);
            i += 1;
            proof {
                assert(out@ =~= memory_text(native, i as nat));
            }
        }
        return Ok(out);
    }
    if str_eq(command, "gc") {
        push_str(&mut out, snapshot.gc.as_str());
        push_str(&mut out, "\n");
        return Ok(out);
    }
    if str_eq(command, "output") {
        let ghost lines = snapshot.output@;
        let mut i: usize = 0;
        while i < snapshot.output.len()
            invariant
                i <= lines.len(),
                lines == snapshot.output@,
                out@ == lines_text(lines, i as nat),
            decreases snapshot.output.len() - i,
        {
            push_str(&mut out, snapshot.output[i].as_str());
            push_str(&mut out, "\n");
            i += 1;
            proof {
                reveal_strlit("\n");
                assert(out@ =~= lines_text(lines, i as nat));
            }
        }
        return Ok(out);
    }
    if str_eq(command, "il") {
        if snapshot.frames.len() > 0 {
            let f = &snapshot.frames[0];
            let function = escape(f.function.as_str());
            push_str(&mut out, function.as_str());
            push_str(&mut out, " @ ");
            push_decimal(&mut out, f.instruction as u64);
            push_str(&mut out, ": ");
            push_str(&mut out, f.operation.as_str());
            push_str(&mut out, "\n");
            proof {
                reveal_strlit(" @ ");
                reveal_strlit(": ");
                assert(out@ =~= il_text(snapshot.frames@));
            }
        }
        return Ok(out);
    }
    Ok(overview(snapshot))
}


/// What a line typed at the debugger terminal asks for.
#[derive(Debug)]
pub enum TerminalAction {
    /// A blank line.
    Nothing,
    Quit,
    /// A command for the debugger.
    Command(DebugCommand),
    /// `break` with arguments it cannot read.
    BreakUsage,
    /// Text for the program's input, its line break included.
    Input(String),
    EndInput,
    ToggleWatch,
    Help,
    ShowSource,
    /// An inspection command and its first argument.
    Inspect(String, Option<String>),
    Unknown,
}

/// The mathematical value of a terminal action; a breakpoint is seen as
/// `breakpoint_view` sees it.
pub ghost enum ActionView {
    Nothing,
    Quit,
    Pause,
    Continue,
    Step,
    Next,
    Out,
    Stop,
    Break((bool, Seq<char>, usize)),
    ClearBreakpoints,
    BreakUsage,
    Input(Seq<char>),
    EndInput,
    ToggleWatch,
    Help,
    ShowSource,
    Inspect(Seq<char>, Option<Seq<char>>),
    Unknown,
}

pub open spec fn action_view(a: TerminalAction) -> ActionView {
    match a {
        TerminalAction::Nothing => ActionView::Nothing,
        TerminalAction::Quit => ActionView::Quit,
        TerminalAction::Command(c) => match c {
            DebugCommand::Pause => ActionView::Pause,
            DebugCommand::Continue => ActionView::Continue,
            DebugCommand::Step => ActionView::Step,
            DebugCommand::Next => ActionView::Next,
            DebugCommand::Out => ActionView::Out,
            DebugCommand::Stop => ActionView::Stop,
            DebugCommand::Break(b) => ActionView::Break(breakpoint_view(b)),
            DebugCommand::ClearBreakpoints => ActionView::ClearBreakpoints,
        },
        TerminalAction::BreakUsage => ActionView::BreakUsage,
        TerminalAction::Input(t) => ActionView::Input(t@),
        TerminalAction::EndInput => ActionView::EndInput,
        TerminalAction::ToggleWatch => ActionView::ToggleWatch,
        TerminalAction::Help => ActionView::Help,
        TerminalAction::ShowSource => ActionView::ShowSource,
        TerminalAction::Inspect(c, a) => ActionView::Inspect(
            c@,
            match a {
                Some(t) => Some(t@),
                None => None,
            },
        ),
        TerminalAction::Unknown => ActionView::Unknown,
    }
}

/// The document a line breakpoint is set in: that of the innermost frame's
/// source location, else the program's.
pub open spec fn break_document(s: DebugSnapshot, document: Seq<char>) -> Seq<char> {
    if s.frames@.len() > 0 && s.frames@[0].source is Some {
        s.frames@[0].source->0.document@
    } else {
        document
    }
}

/// Whether a word names an inspection.
pub open spec fn is_inspection(w: Seq<char>) -> bool {
    w == "bt"@ || w == "stack"@ || w == "heap"@ || w == "memory"@ || w == "gc"@ || w == "output"@
        || w == "status"@ || w == "il"@
}

/// What `break` with the words `ws` asks for: a line in `document`, or a
/// function and instruction.
pub open spec fn break_action(ws: Seq<Seq<char>>, document: Seq<char>) -> ActionView {
    if ws.len() == 2 {
        match parse_unsigned(ws[1], usize::MAX as nat + 1) {
            Some(n) => if n > 0 {
                ActionView::Break((false, document, n as usize))
            } else {
                ActionView::BreakUsage
            },
            None => ActionView::BreakUsage,
        }
    } else if ws.len() == 3 {
        match parse_unsigned(ws[2], usize::MAX as nat + 1) {
            Some(pc) => ActionView::Break((true, ws[1], pc as usize)),
            None => ActionView::BreakUsage,
        }
    } else {
        ActionView::BreakUsage
    }
}

/// What a terminal line asks for; line breakpoints are set in `document`.
pub open spec fn spec_interpret(line: Seq<char>, document: Seq<char>) -> ActionView {
    let ws = words(line);
    if ws.len() == 0 {
        ActionView::Nothing
    } else {
        let c = ws[0];
        if c == "q"@ || c == "quit"@ {
            ActionView::Quit
        } else if c == "c"@ || c == "continue"@ {
            ActionView::Continue
        } else if c == "p"@ || c == "pause"@ {
            ActionView::Pause
        } else if c == "s"@ || c == "step"@ {
            ActionView::Step
        } else if c == "n"@ || c == "next"@ {
            ActionView::Next
        } else if c == "out"@ {
            ActionView::Out
        } else if c == "clear"@ {
            ActionView::ClearBreakpoints
        } else if c == "break"@ {
            break_action(ws, document)
        } else if c == "input"@ {
            ActionView::Input(trim_start(trim_start(line).skip(5)) + "\n"@)
        } else if c == "eof"@ {
            ActionView::EndInput
        } else if c == "watch"@ {
            ActionView::ToggleWatch
        } else if c == "help"@ || c == "h"@ {
            ActionView::Help
        } else if c == "source"@ {
            ActionView::ShowSource
        } else if is_inspection(c) {
            ActionView::Inspect(
                c,
                if ws.len() > 1 {
                    Some(ws[1])
                } else {
                    None
                },
            )
        } else {
            ActionView::Unknown
        }
    }
}

fn trim_start_chars(v: &Vec<char>, from: usize) -> (r: Vec<char>)
    requires
        from <= v@.len(),
    ensures
        r@ == trim_start(v@.skip(from as int)),
{
    let n = v.len();
    let mut a: usize = from;
    while a < n && is_whitespace_char(v[a])
        invariant
            from <= a <= n == v@.len(),
            trim_start(v@.skip(from as int)) == trim_start(v@.subrange(a as int, n as int)),
        decreases n - a,
    {
        assert(v@.subrange(a as int, n as int).drop_first() =~= v@.subrange(a + 1, n as int));
        a += 1;
    }
    assert(v@.skip(from as int) =~= v@.subrange(from as int, n as int));
    slice_chars(v, a, n)
}

fn parse_usize(word: &Vec<char>) -> (r: Option<usize>)
    ensures
        match parse_unsigned(word@, usize::MAX as nat + 1) {
            Some(n) => r == Some(n as usize) && n <= usize::MAX,
            None => r is None,
        },
{
    let r = parse_unsigned_at(word, 0, word.len(), usize::MAX as u128 + 1);
    assert(word@.subrange(0, word@.len() as int) =~= word@);
    match r {
        Some(n) => Some(n as usize),
        None => None,
    }
}

fn break_document_exec(snapshot: &DebugSnapshot, document: &str) -> (r: String)
    ensures
        r@ == break_document(*snapshot, document@),
{
    if snapshot.frames.len() > 0 {
        if let Some(p) = &snapshot.frames[0].source {
            return p.document.clone();
        }
    }
    String::from_str(document)
}

/// What a terminal line asks for (see `spec_interpret`); line breakpoints are
/// set in the innermost frame's document, else in `document`.
pub fn interpret(line: &str, snapshot: &DebugSnapshot, document: &str) -> (r: TerminalAction)
    ensures
        action_view(r) == spec_interpret(line@, break_document(*snapshot, document@)),
{
    let chars = chars_of(line);
    let ws = split_words(&chars);
    proof {
        reveal_strlit("q");
        reveal_strlit("quit");
        reveal_strlit("c");
        reveal_strlit("continue");
        reveal_strlit("p");
        reveal_strlit("pause");
        reveal_strlit("s");
        reveal_strlit("step");
        reveal_strlit("n");
        reveal_strlit("next");
        reveal_strlit("out");
        reveal_strlit("clear");
        reveal_strlit("break");
        reveal_strlit("input");
        reveal_strlit("eof");
        reveal_strlit("watch");
        reveal_strlit("help");
        reveal_strlit("h");
        reveal_strlit("source");
        reveal_strlit("\n");
    }
    if ws.len() == 0 {
        return TerminalAction::Nothing;
    }
    let c = &ws[0];
    proof {
        assert(c@ == words(line@)[0]);
    }
    if chars_equal(c, "q") || chars_equal(c, "quit") {
        TerminalAction::Quit
    } else if chars_equal(c, "c") || chars_equal(c, "continue") {
        TerminalAction::Command(DebugCommand::Continue)
    } else if chars_equal(c, "p") || chars_equal(c, "pause") {
        TerminalAction::Command(DebugCommand::Pause)
    } else if chars_equal(c, "s") || chars_equal(c, "step") {
        TerminalAction::Command(DebugCommand::Step)
    } else if chars_equal(c, "n") || chars_equal(c, "next") {
        TerminalAction::Command(DebugCommand::Next)
    } else if chars_equal(c, "out") {
        TerminalAction::Command(DebugCommand::Out)
    } else if chars_equal(c, "clear") {
        TerminalAction::Command(DebugCommand::ClearBreakpoints)
    } else if chars_equal(c, "break") {
        if ws.len() == 2 {
            proof {
                assert(ws@[1]@ == words(line@)[1]);
            }
            match parse_usize(&ws[1]) {
                Some(n) => if n > 0 {
                    let document = break_document_exec(snapshot, document);
                    TerminalAction::Command(DebugCommand::Break(Breakpoint::Source { document, line: n }))
                } else {
                    TerminalAction::BreakUsage
                },
                None => TerminalAction::BreakUsage,
            }
        } else if ws.len() == 3 {
            proof {
                assert(ws@[1]@ == words(line@)[1]);
                assert(ws@[2]@ == words(line@)[2]);
            }
            match parse_usize(&ws[2]) {
                Some(pc) => TerminalAction::Command(
                    DebugCommand::Break(Breakpoint::Instruction { function: string_of(&ws[1]), instruction: pc }),
                ),
                None => TerminalAction::BreakUsage,
            }
        } else {
            TerminalAction::BreakUsage
        }
    } else if chars_equal(c, "input") {
        let trimmed = trim_start_chars(&chars, 0);
        let skipped = if trimmed.len() >= 5 {
            5
        } else {
            trimmed.len()
        };
        let text = trim_start_chars(&trimmed, skipped);
        let mut input = string_of(&text);
        push_str(&mut input, "\n");
        proof {
            assert(chars@.skip(0) =~= chars@);
            lemma_input_word(line@);
        }
        TerminalAction::Input(input)
    } else if chars_equal(c, "eof") {
        TerminalAction::EndInput
    } else if chars_equal(c, "watch") {
        TerminalAction::ToggleWatch
    } else if chars_equal(c, "help") || chars_equal(c, "h") {
        TerminalAction::Help
    } else if chars_equal(c, "source") {
        TerminalAction::ShowSource
    } else if chars_equal(c, "bt") || chars_equal(c, "stack") || chars_equal(c, "heap")
        || chars_equal(c, "memory") || chars_equal(c, "gc") || chars_equal(c, "output")
        || chars_equal(c, "status") || chars_equal(c, "il") {
        let argument = if ws.len() > 1 {
            proof {
                assert(ws@[1]@ == words(line@)[1]);
            }
            Some(string_of(&ws[1]))
        } else {
            None
        };
        TerminalAction::Inspect(string_of(c), argument)
    } else {
        TerminalAction::Unknown
    }
}

/// When the first word of a line is `input`, what remains after trimming
/// the line starts with it.
proof fn lemma_input_word(line: Seq<char>)
    requires
        words(line).len() > 0,
        words(line)[0] == "input"@,
    ensures
        trim_start(line).len() >= 5,
{
    reveal_strlit("input");
    let t = trim_start(line);
    lemma_trim_len(line);
    if t.len() > 0 {
        lemma_first_whitespace(t, 0);
        assert(words(line)[0] == t.subrange(0, first_whitespace(t, 0)));
        assert(words(line)[0].len() == 5);
    }
}


/// A line without the carriage return that ends it, if any.
pub open spec fn without_cr(l: Seq<char>) -> Seq<char> {
    if l.len() > 0 && l.last() == '\r' {
        l.drop_last()
    } else {
        l
    }
}

/// The lines of `s` from `start` on, as `str::lines` gives them: split at
/// '\n' or "\r\n", no line after a final line break, a lone '\r' kept.
pub open spec fn lines_from(s: Seq<char>, start: int) -> Seq<Seq<char>>
    decreases s.len() - start,
{
    if start < 0 || start >= s.len() {
        Seq::empty()
    } else {
        match find_from(s, '\n', start) {
            None => seq![s.subrange(start, s.len() as int)],
            Some(k) => if k < start || k >= s.len() {
                Seq::empty()
            } else {
                seq![without_cr(s.subrange(start, k))] + lines_from(s, k + 1)
            },
        }
    }
}

/// A line number right-aligned in four columns.
pub open spec fn padded(n: nat) -> Seq<char> {
    let d = decimal(n);
    if d.len() < 4 {
        spaces((4 - d.len()) as nat) + d
    } else {
        d
    }
}

/// Line `k` (from zero) of a listing around `current` (from one).
pub open spec fn listing_line(text: Seq<char>, k: nat, current: nat) -> Seq<char> {
    (if k + 1 == current {
        ">"@
    } else {
        " "@
    }) + " "@ + padded(k + 1) + " "@ + debug_escaped(text) + "\n"@
}

/// The first `n` lines of a listing that starts at line `first`.
pub open spec fn listing(lines: Seq<Seq<char>>, first: nat, n: nat, current: nat) -> Seq<char>
    decreases n,
{
    if n == 0 {
        Seq::empty()
    } else {
        listing(lines, first, (n - 1) as nat, current) + listing_line(
            lines[first + n - 1],
            (first + n - 1) as nat,
            current,
        )
    }
}

/// The five lines around `current`, two before it, as far as there are.
pub open spec fn window(lines: Seq<Seq<char>>, current: nat) -> Seq<char> {
    let first: nat = if current >= 3 {
        (current - 3) as nat
    } else {
        0
    };
    let n: nat = if first >= lines.len() {
        0
    } else if lines.len() - first < 5 {
        (lines.len() - first) as nat
    } else {
        5
    };
    listing(lines, first, n, current)
}

/// Whether a document name ends in `.neo`.
pub open spec fn is_neo_document(d: Seq<char>) -> bool {
    d.len() >= 4 && d.subrange(d.len() - 4, d.len() as int) == ".neo"@
}

/// The innermost frame's source location and, when it lies in `document`
/// whose text is `source`, the lines around it.
pub open spec fn source_view(s: DebugSnapshot, document: Seq<char>, source: Seq<char>) -> Seq<char> {
    if s.frames@.len() > 0 && s.frames@[0].source is Some {
        let p = s.frames@[0].source->0;
        location_text(p) + "\n"@ + if p.document@ == document && is_neo_document(document) {
            window(lines_from(source, 0), p.line as nat)
        } else {
            "Source text is not loaded; location comes from artifact metadata.\n"@
        }
    } else {
        "No source mapping for this frame; use il.\n"@
    }
}

pub open spec fn lines_view(v: Seq<Vec<char>>) -> Seq<Seq<char>> {
    Seq::new(v.len(), |i: int| v[i]@)
}

/// The lines of a text (see `lines_from`).
fn split_lines(s: &Vec<char>) -> (r: Vec<Vec<char>>)
    ensures
        lines_view(r@) == lines_from(s@, 0),
{
    let n = s.len();
    let mut r: Vec<Vec<char>> = Vec::new();
    let mut start: usize = 0;
    while start < n
        invariant
            start <= n == s@.len(),
            lines_from(s@, 0) == lines_view(r@) + lines_from(s@, start as int),
        decreases n - start,
    {
        proof {
            lemma_find_from(s@, '\n', start as int);
        }
        let ghost before = lines_view(r@);
        match find_char(s, '\n', start) {
            None => {
                r.push(slice_chars(s, start, n));
                proof {
                    assert(lines_view(r@) =~= before + lines_from(s@, start as int));
                    assert(lines_from(s@, n as int) =~= Seq::<Seq<char>>::empty());
                }
                start = n;
            },
            Some(k) => {
                let mut line = slice_chars(s, start, k);
                if line.len() > 0 && line[line.len() - 1] == '\r' {
                    line.pop();
                }
                proof {
                    assert(line@ =~= without_cr(s@.subrange(start as int, k as int)));
                }
                r.push(line);
                proof {
                    assert(lines_view(r@) =~= before.push(without_cr(s@.subrange(start as int, k as int))));
                }
                start = k + 1;
            },
        }
    }
    proof {
        assert(lines_view(r@) + lines_from(s@, start as int) =~= lines_view(r@));
    }
    r
}

fn push_padded(out: &mut String, n: u64)
    ensures
        final(out)@ == old(out)@ + padded(n as nat),
{
    let mut digits = String::new();
    push_decimal(&mut digits, n);
    let d = chars_of(digits.as_str());
    let mut k = d.len();
    while k < 4
        invariant
            d@ == decimal(n as nat),
            d@.len() <= k <= 4 || k == d@.len(),
            out@ == old(out)@ + spaces((k - d@.len()) as nat),
        decreases 4 - k,
    {
        push_char(out, ' ');
        k += 1;
        proof {
            assert(out@ =~= old(out)@ + spaces((k - d@.len()) as nat));
        }
    }
    push_str(out, digits.as_str());
    proof {
        if d@.len() >= 4 {
            assert(spaces(0) =~= Seq::<char>::empty());
        }
        assert(out@ =~= old(out)@ + padded(n as nat));
    }
}

/// What `source` shows (see `source_view`).
pub fn show_source(snapshot: &DebugSnapshot, document: &str, source: &str) -> (text: String)
    ensures
        text@ == source_view(*snapshot, document@, source@),
{
    proof {
        reveal_strlit("\n");
        reveal_strlit(".neo");
        reveal_strlit(">");
        reveal_strlit(" ");
    }
    if snapshot.frames.len() == 0 || snapshot.frames[0].source.is_none() {
        return String::from_str("No source mapping for this frame; use il.\n");
    }
    let p = match &snapshot.frames[0].source {
        Some(p) => p,
        None => return String::from_str("No source mapping for this frame; use il.\n"),
    };
    let mut out = String::new();
    push_location(&mut out, p);
    push_str(&mut out, "\n");
    let doc = chars_of(document);
    let neo = doc.len() >= 4 && {
        let tail = slice_chars(&doc, doc.len() - 4, doc.len());
        chars_equal(&tail, ".neo")
    };
    if !(str_eq(p.document.as_str(), document) && neo) {
        push_str(&mut out, "Source text is not loaded; location comes from artifact metadata.\n");
        proof {
            assert(out@ =~= source_view(*snapshot, document@, source@));
        }
        return out;
    }
    let lines = split_lines(&chars_of(source));
    let ghost all = lines_view(lines@);
    let current = p.line;
    let first: usize = if current >= 3 {
        current - 3
    } else {
        0
    };
    let total = lines.len();
    let count: usize = if first >= total {
        0
    } else if total - first < 5 {
        total - first
    } else {
        5
    };
    let ghost head = out@;
    let mut i: usize = 0;
    while i < count
        invariant
            i <= count,
            total == lines@.len(),
            count == 0 || first + count <= lines@.len(),
            all == lines_view(lines@),
            out@ == head + listing(all, first as nat, i as nat, current as nat),
        decreases count - i,
    {
        let k = first + i;
        if k + 1 == current {
            push_str(&mut out, ">");
        } else {
            push_str(&mut out, " ");
        }
        push_str(&mut out, " ");
        push_padded(&mut out, (k + 1) as u64);
        push_str(&mut out, " ");
        let text = escape(string_of(&lines[k]).as_str());
        push_str(&mut out, text.as_str());
        push_str(&mut out, "\n");
        i += 1;
        proof {
            reveal_strlit(">");
            reveal_strlit(" ");
            reveal_strlit("\n");
            assert(all[first + i - 1] == lines@[k as int]@);
            assert(out@ =~= head + listing(all, first as nat, i as nat, current as nat));
        }
    }
    proof {
        assert(out@ =~= source_view(*snapshot, document@, source@));
    }
    out
}


/// Whether the terminal waits for the execution to settle after a command.
pub open spec fn awaits_settling(c: DebugCommand) -> bool {
    c is Pause || c is Step || c is Next || c is Out
}

/// Whether the terminal waits for the execution to settle after a command
/// (see `awaits_settling`).
pub fn waits_for_settling(c: &DebugCommand) -> (b: bool)
    ensures
        b == awaits_settling(*c),
{
    match c {
        DebugCommand::Pause | DebugCommand::Step | DebugCommand::Next | DebugCommand::Out => true,
        _ => false,
    }
}

/// The statuses in which an execution waits for the user or has ended.
pub open spec fn is_settled_status(status: Seq<char>) -> bool {
    status == "paused"@ || status == "completed"@ || status == "faulted"@ || status == "stopped"@
        || status == "waiting for input"@
}

/// Whether a snapshot published after revision `since` shows a settled
/// execution.
pub fn settled(update: &DebugSnapshot, since: u64) -> (b: bool)
    ensures
        b == (update.revision > since && is_settled_status(update.status@)),
{
    let status = update.status.as_str();
    update.revision > since && (str_eq(status, "paused") || str_eq(status, "completed") || str_eq(
        status,
        "faulted",
    ) || str_eq(status, "stopped") || str_eq(status, "waiting for input"))
}

} // verus!
