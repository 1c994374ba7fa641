use neoclr::assembler::{parse_function_ref, parse_type};
use neoclr::metadata::{FunctionRef, MemberId};
use neoclr::types::Type;

fn named(n: &str) -> Type {
    Type::Named(n.to_string())
}

fn err(text: &str) -> String {
    parse_type(text).unwrap_err().message
}

#[test]
fn primitive_and_named_types() {
    assert_eq!(parse_type("Int32").unwrap(), Type::Int32);
    assert_eq!(parse_type("  String\t").unwrap(), Type::String);
    assert_eq!(parse_type("System.Text.Builder").unwrap(), named("System.Text.Builder"));
    assert_eq!(parse_type("!3").unwrap(), Type::TypeParameter(3));
    assert_eq!(parse_type("!+7").unwrap(), Type::TypeParameter(7));
    assert_eq!(err("!x"), "expected type parameter index !0");
    assert_eq!(err("!65536"), "expected type parameter index !0");
    assert_eq!(err("a b"), "invalid identifier \"a b\"");
    assert_eq!(err(""), "invalid identifier \"\"");
}

#[test]
fn reference_and_pointer_suffixes() {
    assert_eq!(parse_type("Int32&").unwrap(), Type::ByRef(Box::new(Type::Int32)));
    assert_eq!(parse_type("Byte*").unwrap(), Type::Ptr(Box::new(Type::Byte)));
    assert_eq!(
        parse_type("!0*").unwrap(),
        Type::Ptr(Box::new(Type::TypeParameter(0)))
    );
    assert_eq!(
        parse_type("Byte * &").unwrap(),
        Type::ByRef(Box::new(Type::Ptr(Box::new(Type::Byte))))
    );
}

#[test]
fn nesting_is_bounded() {
    let ok = format!("Int32{}", "*".repeat(32));
    assert!(parse_type(&ok).is_ok());
    let deep = format!("Int32{}", "*".repeat(33));
    assert_eq!(err(&deep), "type nesting exceeds 32");
}

#[test]
fn module_scopes() {
    assert_eq!(
        parse_type("[Lib]Point").unwrap(),
        Type::Scoped { module: "Lib".into(), name: "Point".into(), arguments: vec![] }
    );
    assert_eq!(
        parse_type("[Lib]List<Int32>").unwrap(),
        Type::Scoped { module: "Lib".into(), name: "List".into(), arguments: vec![Type::Int32] }
    );
    assert_eq!(err("[Lib"), "unclosed module scope");
    assert_eq!(err("[Lib]Int32"), "module scope requires a named type definition");
    assert_eq!(err("[L b]Point"), "invalid identifier \"L b\"");
}

#[test]
fn generic_instances() {
    assert_eq!(
        parse_type("Map<Int32, List<String>>").unwrap(),
        Type::Constructed {
            definition: "Map".into(),
            arguments: vec![
                Type::Int32,
                Type::Constructed { definition: "List".into(), arguments: vec![Type::String] }
            ]
        }
    );
    assert_eq!(parse_type("Ref<Point>").unwrap(), Type::Ref(Box::new(named("Point"))));
    assert_eq!(
        parse_type("InterfaceRef<IShape>").unwrap(),
        Type::InterfaceRef(Box::new(named("IShape")))
    );
    assert_eq!(parse_type("Ptr<Byte>").unwrap(), Type::Ptr(Box::new(Type::Byte)));
    assert_eq!(err("Ref<Int32, Int32>"), "incorrect built-in generic arity");
    assert_eq!(err("List<Int32"), "unclosed generic type");
    assert_eq!(err("List<Int32>>"), "unbalanced generic type");
    assert_eq!(err("List<<Int32>"), "unbalanced generic type");
    assert_eq!(err("List<Int32, !x>"), "expected type parameter index !0");
    assert_eq!(err("My List<Int32>"), "invalid identifier \"My List\"");
}

fn call(text: &str) -> FunctionRef {
    parse_function_ref(text).unwrap()
}

fn call_err(text: &str) -> String {
    parse_function_ref(text).unwrap_err().message
}

#[test]
fn call_signatures() {
    assert_eq!(
        call("Main()"),
        FunctionRef { definition: None, name: "Main".into(), owner: None, instance: false, parameters: vec![] }
    );
    assert_eq!(
        call("Point::Add(Int32, Int32)"),
        FunctionRef {
            definition: None,
            name: "Point.Add".into(),
            owner: Some(named("Point")),
            instance: false,
            parameters: vec![Type::Int32, Type::Int32],
        }
    );
    let getter = call("instance Point::get_X( )");
    assert!(getter.instance);
    assert_eq!(getter.name, "Point.get_X");
    assert!(getter.parameters.is_empty());
    let ctor = call("List<Int32>::.ctor(Int32)");
    assert_eq!(ctor.name, "List..ctor");
    assert_eq!(
        ctor.owner,
        Some(Type::Constructed { definition: "List".into(), arguments: vec![Type::Int32] })
    );
    assert_eq!(
        call("F(Map<Int32, String>, Int32&)").parameters,
        vec![
            Type::Constructed { definition: "Map".into(), arguments: vec![Type::Int32, Type::String] },
            Type::ByRef(Box::new(Type::Int32)),
        ]
    );
}

#[test]
fn call_signature_errors() {
    assert_eq!(call_err("Main"), "call requires an explicit signature: Name(Type, ...) or Name()");
    assert_eq!(call_err("Main(Int32"), "unclosed call signature");
    assert_eq!(call_err("Point::A.B()"), "expected an unqualified member name");
    assert_eq!(call_err("Int32::Parse(String)"), "invalid method owner");
    assert_eq!(call_err("F(Int32>)"), "unbalanced call parameter type");
    assert_eq!(call_err("F(List<Int32)"), "unbalanced call parameter type");
    assert_eq!(call_err("F(!x, >)"), "expected type parameter index !0");
    assert_eq!(call_err("Bad Name()"), "invalid identifier \"Bad Name\"");
}

#[test]
fn pinned_definitions() {
    assert_eq!(
        call("F() @ Lib:3").definition,
        Some(MemberId { module: "Lib".into(), revision: None, index: 3 })
    );
    assert_eq!(
        call("instance P::M(Int32)@Lib#1.2.0: 7").definition,
        Some(MemberId { module: "Lib".into(), revision: Some("1.2.0".into()), index: 7 })
    );
    assert_eq!(call_err("F() @ Lib"), "expected @ Module:index");
    assert_eq!(call_err("F() @ Lib:x"), "expected unsigned definition index");
    assert_eq!(call_err("F() @ Lib:4294967296"), "expected unsigned definition index");
    assert_eq!(call_err("F() @ Lib#:1"), "invalid module revision");
    assert_eq!(call_err("F() @ L b:1"), "invalid identifier \"L b\"");
}

use neoclr::assembler::{
    bind_type_parameters, parse_compact_instruction, parse_slot, parse_type_declaration,
    resolve_slot, CompactInstruction, SlotNames,
};

#[test]
fn type_declarations() {
    assert_eq!(parse_type_declaration("Point").unwrap(), ("Point".to_string(), vec![]));
    assert_eq!(
        parse_type_declaration("Pair < T , U >").unwrap(),
        ("Pair".to_string(), vec![Some("T".to_string()), Some("U".to_string())])
    );
    assert_eq!(
        parse_type_declaration("Map<!0, V>").unwrap(),
        ("Map".to_string(), vec![None, Some("V".to_string())])
    );
    assert_eq!(
        parse_type_declaration("Map<K, !0>").unwrap_err().message,
        "expected type parameter name or its index"
    );
    assert_eq!(
        parse_type_declaration("List<T").unwrap_err().message,
        "unclosed type parameters"
    );
    assert_eq!(
        parse_type_declaration("List<>").unwrap_err().message,
        "expected type parameter name or its index"
    );
    assert_eq!(
        parse_type_declaration("Bad Name").unwrap_err().message,
        "invalid identifier \"Bad Name\""
    );
}

#[test]
fn declared_names_bind_to_parameters() {
    let names = vec![Some("K".to_string()), None, Some("V".to_string())];
    let ty = parse_type("Map<K, List<V>>").unwrap();
    assert_eq!(
        bind_type_parameters(&ty, &names),
        Type::Constructed {
            definition: "Map".into(),
            arguments: vec![
                Type::TypeParameter(0),
                Type::Constructed { definition: "List".into(), arguments: vec![Type::TypeParameter(2)] },
            ],
        }
    );
    assert_eq!(
        bind_type_parameters(&parse_type("V&").unwrap(), &names),
        Type::ByRef(Box::new(Type::TypeParameter(2)))
    );
    assert_eq!(bind_type_parameters(&named("W"), &names), named("W"));
    assert_eq!(bind_type_parameters(&Type::Int32, &names), Type::Int32);
}

#[test]
fn slots() {
    assert_eq!(parse_slot("Int32").unwrap(), (None, Type::Int32));
    assert_eq!(parse_slot(" Int32 count ").unwrap(), (Some("count".to_string()), Type::Int32));
    assert_eq!(
        parse_slot("Map<Int32, String> table").unwrap(),
        (
            Some("table".to_string()),
            Type::Constructed { definition: "Map".into(), arguments: vec![Type::Int32, Type::String] }
        )
    );
    assert_eq!(parse_slot("Int32 9lives").unwrap_err().message, "invalid parameter/local name");
    assert_eq!(parse_slot("List<").unwrap_err().message, "expected Type or Type name");
    assert_eq!(parse_slot("!x name").unwrap_err().message, "expected type parameter index !0");
}

fn function() -> SlotNames {
    SlotNames {
        instance: true,
        parameter_names: vec![Some("x".into()), None, Some("y".into())],
        local_names: vec![Some("sum".into())],
    }
}

#[test]
fn slot_operands() {
    let f = function();
    assert_eq!(resolve_slot(&f, "ldarg", "7").unwrap(), 7);
    assert_eq!(resolve_slot(&f, "ldarg", "this").unwrap(), 0);
    assert_eq!(resolve_slot(&f, "starg", "y").unwrap(), 3);
    assert_eq!(resolve_slot(&f, "ldloc", "sum").unwrap(), 0);
    assert_eq!(resolve_slot(&f, "ldloc", "this").unwrap_err().message, "unknown local name \"this\"");
    assert_eq!(resolve_slot(&f, "ldarga", "z").unwrap_err().message, "unknown parameter name \"z\"");
}

#[test]
fn compact_spellings() {
    let f = function();
    let parse = |w: &str, o: &str| parse_compact_instruction(w, o, &f);
    assert_eq!(parse("ldc.i4.s", "-128").unwrap(), Some(CompactInstruction::Int(-128)));
    assert_eq!(parse("ldc.i4.s", "+127").unwrap(), Some(CompactInstruction::Int(127)));
    assert_eq!(parse("ldc.i4.s", "128").unwrap_err().message, "ldc.i4.s requires a signed 8-bit literal");
    assert_eq!(parse("ldc.i4.s", "-+1").unwrap_err().message, "ldc.i4.s requires a signed 8-bit literal");
    assert_eq!(parse("ldc.i4.m1", "").unwrap(), Some(CompactInstruction::Int(-1)));
    assert_eq!(parse("ldc.i4.8", "").unwrap(), Some(CompactInstruction::Int(8)));
    assert_eq!(parse("ldc.i4.9", "").unwrap_err().message, "invalid compact Int32 opcode");
    assert_eq!(parse("ldc.i4.2", "5").unwrap_err().message, "compact constant has no operand");
    assert_eq!(parse("ldarg.s", "y").unwrap(), Some(CompactInstruction::Arg(3)));
    assert_eq!(parse("starg.s", "x").unwrap(), Some(CompactInstruction::StoreArg(1)));
    assert_eq!(parse("ldloc.s", "256").unwrap_err().message, "short slot index exceeds 255");
    assert_eq!(parse("ldloc.2", "").unwrap(), Some(CompactInstruction::Load(2)));
    assert_eq!(parse("stloc.3", "").unwrap(), Some(CompactInstruction::Store(3)));
    assert_eq!(parse("ldarg.0", "").unwrap(), Some(CompactInstruction::Arg(0)));
    assert_eq!(parse("starg.0", "").unwrap_err().message, "invalid compact slot opcode");
    assert_eq!(parse("ldloc.4", "").unwrap_err().message, "invalid compact slot opcode");
    assert_eq!(parse("ldloc.1", "x").unwrap_err().message, "compact slot opcode has no operand");
    assert_eq!(parse("ldarga.s", "x").unwrap(), None);
    assert_eq!(parse("add", "").unwrap(), None);
}
