use neoclr::debugger::{
    Breakpoint, DebugCommand, DebugFrame, DebugSnapshot, DebugValue, NativeAllocation, SequencePoint,
};
use neoclr::terminal::{inspect, interpret, overview, settled, show_source, waits_for_settling, TerminalAction};

fn leaf(ty: &str, value: &str) -> DebugValue {
    DebugValue { ty: ty.to_string(), value: value.to_string(), children: vec![], truncated: false }
}

fn frame(index: usize, source: Option<SequencePoint>) -> DebugFrame {
    DebugFrame {
        index,
        function: "Main\t".to_string(),
        instruction: 4,
        operation: "ldarg.0".to_string(),
        source,
        arguments: vec![("args".to_string(), leaf("String[]", "[]"))],
        locals: vec![("x".to_string(), leaf("Int32", "1"))],
        evaluation_stack: vec![leaf("Int32", "2")],
    }
}

fn point(document: &str, line: usize) -> SequencePoint {
    SequencePoint { document: document.to_string(), line, column: 5, instruction: 4 }
}

fn snapshot() -> DebugSnapshot {
    let mut result = leaf("Int32", "7");
    result.children.push(("inner".to_string(), DebugValue { truncated: true, ..leaf("Int32", "1") }));
    DebugSnapshot {
        revision: 3,
        status: "paused".to_string(),
        frames: vec![frame(1, Some(point("main.neo", 3)))],
        heap: vec![(5, leaf("Point", "{...}")), (6, leaf("String", "\"hi\""))],
        native: vec![NativeAllocation { id: 1, frame_owned: false, size: 3, bytes: vec![Some(0xab), None] }],
        gc: "{\"collections\":0}".to_string(),
        output: vec!["hello".to_string(), "world".to_string()],
        result: Some(result),
        fault: Some("boom\n".to_string()),
        truncated: true,
    }
}

#[test]
fn overview_lists_frames_fault_and_result() {
    assert_eq!(
        overview(&snapshot()),
        "[paused] snapshot #3; 1 frames; GC {\"collections\":0}\n  #1 Main\\t @ IL 4  main.neo:3:5\nFault: boom\\n\nresult: Int32 = 7\n  inner: Int32 = 1 [truncated]\n[snapshot limits reached; some memory omitted]\n"
    );
    assert_eq!(overview(&DebugSnapshot::default()), "[] snapshot #0; 0 frames; GC \n");
}

#[test]
fn inspection_commands_show_parts_of_a_snapshot() {
    let s = snapshot();
    assert_eq!(
        inspect(&s, "stack", None).unwrap(),
        "Frame #1 Main\\t\n  args: String[] = []\n  x: Int32 = 1\n  eval[0]: Int32 = 2\n"
    );
    assert_eq!(inspect(&s, "stack", Some("1")).unwrap(), inspect(&s, "stack", None).unwrap());
    assert_eq!(inspect(&s, "stack", Some("9")).unwrap_err(), "frame not in snapshot");
    assert_eq!(inspect(&s, "stack", Some("x")).unwrap_err(), "expected numeric index");
    assert_eq!(inspect(&s, "gc", Some("-1")).unwrap_err(), "expected numeric index");
    assert_eq!(inspect(&s, "heap", None).unwrap(), "heap#5: Point = {...}\nheap#6: String = \"hi\"\n");
    assert_eq!(inspect(&s, "heap", Some("6")).unwrap(), "heap#6: String = \"hi\"\n");
    assert_eq!(inspect(&s, "heap", Some("7")).unwrap_err(), "heap object not in snapshot");
    assert_eq!(inspect(&s, "memory", None).unwrap(), "native#1 heap bytes=3 [ab ?? \u{2026}]\n");
    assert_eq!(inspect(&s, "gc", None).unwrap(), "{\"collections\":0}\n");
    assert_eq!(inspect(&s, "output", None).unwrap(), "hello\nworld\n");
    assert_eq!(inspect(&s, "il", None).unwrap(), "Main\\t @ 4: ldarg.0\n");
    assert_eq!(inspect(&s, "bt", None).unwrap(), overview(&s));
    assert_eq!(inspect(&DebugSnapshot::default(), "stack", None).unwrap_err(), "frame not in snapshot");
    assert_eq!(inspect(&DebugSnapshot::default(), "il", None).unwrap(), "");
}

#[test]
fn terminal_lines_become_actions() {
    let s = snapshot();
    assert!(matches!(interpret("   ", &s, "other.neo"), TerminalAction::Nothing));
    assert!(matches!(interpret(" quit now", &s, "other.neo"), TerminalAction::Quit));
    assert!(matches!(interpret("s", &s, "other.neo"), TerminalAction::Command(DebugCommand::Step)));
    match interpret("break +12", &s, "other.neo") {
        TerminalAction::Command(DebugCommand::Break(b)) => {
            assert_eq!(b, Breakpoint::Source { document: "main.neo".to_string(), line: 12 })
        }
        other => panic!("unexpected {other:?}"),
    }
    match interpret("break 12", &DebugSnapshot::default(), "other.neo") {
        TerminalAction::Command(DebugCommand::Break(b)) => {
            assert_eq!(b, Breakpoint::Source { document: "other.neo".to_string(), line: 12 })
        }
        other => panic!("unexpected {other:?}"),
    }
    match interpret("break Main 7", &s, "other.neo") {
        TerminalAction::Command(DebugCommand::Break(b)) => {
            assert_eq!(b, Breakpoint::Instruction { function: "Main".to_string(), instruction: 7 })
        }
        other => panic!("unexpected {other:?}"),
    }
    assert!(matches!(interpret("break 0", &s, "x"), TerminalAction::BreakUsage));
    assert!(matches!(interpret("break", &s, "x"), TerminalAction::BreakUsage));
    assert!(matches!(interpret("break a b c", &s, "x"), TerminalAction::BreakUsage));
    match interpret("  input   hello  world ", &s, "x") {
        TerminalAction::Input(text) => assert_eq!(text, "hello  world \n"),
        other => panic!("unexpected {other:?}"),
    }
    match interpret("input", &s, "x") {
        TerminalAction::Input(text) => assert_eq!(text, "\n"),
        other => panic!("unexpected {other:?}"),
    }
    match interpret("stack 2 3", &s, "x") {
        TerminalAction::Inspect(command, argument) => {
            assert_eq!(command, "stack");
            assert_eq!(argument.as_deref(), Some("2"));
        }
        other => panic!("unexpected {other:?}"),
    }
    assert!(matches!(interpret("watch", &s, "x"), TerminalAction::ToggleWatch));
    assert!(matches!(interpret("eof", &s, "x"), TerminalAction::EndInput));
    assert!(matches!(interpret("h", &s, "x"), TerminalAction::Help));
    assert!(matches!(interpret("source", &s, "x"), TerminalAction::ShowSource));
    assert!(matches!(interpret("frobnicate", &s, "x"), TerminalAction::Unknown));
}

#[test]
fn source_listing_shows_lines_around_the_location() {
    let s = snapshot();
    let source = "a\nb\r\nc\nd\ne\nf\n";
    assert_eq!(
        show_source(&s, "main.neo", source),
        "main.neo:3:5\n     1 a\n     2 b\n>    3 c\n     4 d\n     5 e\n"
    );
    let mut near_end = snapshot();
    near_end.frames[0].source = Some(point("main.neo", 6));
    assert_eq!(
        show_source(&near_end, "main.neo", source),
        "main.neo:6:5\n     4 d\n     5 e\n>    6 f\n"
    );
    assert_eq!(
        show_source(&s, "main.il", source),
        "main.neo:3:5\nSource text is not loaded; location comes from artifact metadata.\n"
    );
    assert_eq!(show_source(&DebugSnapshot::default(), "main.neo", source), "No source mapping for this frame; use il.\n");
}

#[test]
fn stepping_commands_wait_for_a_settled_snapshot() {
    assert!(waits_for_settling(&DebugCommand::Next));
    assert!(!waits_for_settling(&DebugCommand::Continue));
    let s = snapshot();
    assert!(settled(&s, 2));
    assert!(!settled(&s, 3));
    let running = DebugSnapshot { status: "running".to_string(), revision: 9, ..DebugSnapshot::default() };
    assert!(!settled(&running, 2));
}
