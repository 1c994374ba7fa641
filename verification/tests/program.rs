use neoclr::parser::Parser;
use neoclr::program::{check_program, emit_delegate};

fn parsed(text: &str) -> neoclr::document::Source {
    Parser::new(text).unwrap().source().unwrap()
}

#[test]
fn a_program_needs_a_parameterless_main() {
    let s = parsed("func helper() -> unit { }\nfunc Main() -> unit { }\n");
    assert_eq!(check_program(&s), Ok(1));
    let f = check_program(&parsed("func helper() -> unit { }\n")).unwrap_err();
    assert_eq!(f.message, "source requires func Main()");
    let f = check_program(&parsed("func Main(x: Int32) -> unit { }\n")).unwrap_err();
    assert_eq!(f.message, "source 1:6: Main must be parameterless");
}

#[test]
fn declaration_names_are_unique_and_not_reserved() {
    let f = check_program(&parsed("record Point(x: Int32)\nfunc Point() -> unit { }\nfunc Main() -> unit { }\n")).unwrap_err();
    assert_eq!(f.message, "source 2:6: duplicate or reserved declaration name");
    let f = check_program(&parsed("record Option(x: Int32)\nfunc Main() -> unit { }\n")).unwrap_err();
    assert_eq!(f.message, "source 1:8: duplicate or reserved declaration name");
    let f = check_program(&parsed("func neoCLR.Compiler.X() -> unit { }\nfunc Main() -> unit { }\n")).unwrap_err();
    assert_eq!(f.message, "source 1:6: duplicate or reserved declaration name");
}

#[test]
fn delegates_declare_their_invoke_signature() {
    let s = parsed("delegate Op(a: Int32, out c: Int32&) -> bool\nfunc Main() -> unit { }\n");
    assert_eq!(
        emit_delegate(&s.delegates[0]),
        ".delegate Op\n.method instance Invoke(Int32 a,out Int32& c) -> Boolean\n.end\n.end\n"
    );
}
