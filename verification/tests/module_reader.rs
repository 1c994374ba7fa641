use neoclr::module_reader::parse_module_text;
use neoclr::module_text::{Representation, Visibility};
use neoclr::neoil::Operand;
use neoclr::types::Type;

#[test]
fn a_small_module_is_read() {
    let text = "; a comment\n.module Demo\n.entry Main\n\n.function Main() -> Void\n  ldc.i4 7\n  pop\n  ret\n.end\n";
    let (module, fixups) = parse_module_text(text).unwrap();
    assert_eq!(module.name, "Demo");
    assert_eq!(module.entry, "Main");
    assert!(fixups.is_empty());
    assert_eq!(module.functions.len(), 1);
    let main = &module.functions[0];
    assert_eq!(main.name, "Main");
    assert_eq!(main.return_type, Type::Void);
    assert_eq!(main.body.len(), 3);
    assert_eq!(main.body[0].opcode, "ldc.i4");
    assert_eq!(main.body[0].operand, Operand::Int32(7));
    assert_eq!(main.body[1].operand, Operand::Absent);
}

#[test]
fn compact_spellings_become_canonical_instructions() {
    let text = ".module M\n.function F(Int32 a) -> Int32\n.local Int32 t\nldarg.0\nstloc.s t\nldc.i4.m1\nldc.i4.s -5\nret\n.end\n";
    let (module, _) = parse_module_text(text).unwrap();
    let body = &module.functions[0].body;
    assert_eq!((body[0].opcode.as_str(), &body[0].operand), ("ldarg", &Operand::Index(0)));
    assert_eq!((body[1].opcode.as_str(), &body[1].operand), ("stloc", &Operand::Index(0)));
    assert_eq!((body[2].opcode.as_str(), &body[2].operand), ("ldc.i4", &Operand::Int32(-1)));
    assert_eq!(body[3].operand, Operand::Int32(-5));
    assert_eq!(module.functions[0].parameter_names, vec![Some("a".to_string())]);
    assert_eq!(module.functions[0].local_names, vec![Some("t".to_string())]);
}

#[test]
fn branch_targets_are_filled_in_at_the_end() {
    let text = ".module M\n.function F() -> Void\nstart:\nldc.bool true\nbrtrue done\nswitch (start, done)\nbr start\ndone:\nret\n.end\n";
    let (module, _) = parse_module_text(text).unwrap();
    let body = &module.functions[0].body;
    assert_eq!(body[0].operand, Operand::Bool(true));
    assert_eq!(body[1].operand, Operand::Index(4));
    assert_eq!(body[2].operand, Operand::Targets(vec![0, 4]));
    assert_eq!(body[3].operand, Operand::Index(0));
}

#[test]
fn types_fields_and_methods_are_read() {
    let text = ".module M\n.type internal Point\n.field x Int32\n.field private y Int32\n.implements IShape\n.method instance GetX() -> Int32\nldarg.0\nldfld Point::x\nret\n.end\n.end\n";
    let (module, fixups) = parse_module_text(text).unwrap();
    let point = &module.types[0];
    assert_eq!(point.name, "Point");
    assert_eq!(point.visibility, Visibility::Internal);
    assert_eq!(point.representation, Representation::Record);
    assert_eq!(point.fields.len(), 2);
    assert_eq!(point.fields[1].visibility, Visibility::Private);
    assert_eq!(point.implements, vec![Type::Named("IShape".to_string())]);
    let get = &module.functions[0];
    assert_eq!(get.name, "Point.GetX");
    assert!(get.instance);
    assert_eq!(get.owner, Some(Type::Named("Point".to_string())));
    assert_eq!(fixups.len(), 1);
    assert_eq!((fixups[0].function, fixups[0].pc, fixups[0].name.as_str(), fixups[0].line), (0, 1, "x", 8));
    assert_eq!(fixups[0].owner, Type::Named("Point".to_string()));
}

#[test]
fn nested_types_take_their_parent_name() {
    let text = ".module M\n.type Outer\n.type Inner\n.end\n.end\n.interface IShape\n.end\n";
    let (module, _) = parse_module_text(text).unwrap();
    assert_eq!(module.types[0].name, "Outer.Inner");
    assert_eq!(module.types[0].declaring_type, Some("Outer".to_string()));
    assert_eq!(module.types[1].name, "Outer");
    assert_eq!(module.types[2].representation, Representation::Interface);
}

#[test]
fn string_operands_and_native_imports_are_json_quoted() {
    let text = ".module M\n.function P() -> Void\n.pinvoke \"libc\" \"puts\" cdecl\n.end\n.function S() -> String\nldstr \"a\\nb\"\nret\n.end\n";
    let (module, _) = parse_module_text(text).unwrap();
    let native = module.functions[0].pinvoke.as_ref().unwrap();
    assert_eq!((native.library.as_str(), native.entry_point.as_str()), ("libc", "puts"));
    assert_eq!(module.functions[1].body[0].operand, Operand::Text("a\nb".to_string()));
}

#[test]
fn references_and_revision_are_read() {
    let text = ".module M\n.revision 1.0\n.references (Lib, Other#2)\n";
    let (module, _) = parse_module_text(text).unwrap();
    assert_eq!(module.revision, Some("1.0".to_string()));
    assert_eq!(module.references.as_ref().unwrap().len(), 2);
}

#[test]
fn errors_name_their_line() {
    let e = parse_module_text(".module M\n.function F() -> Void\nbr nowhere\n.end\n").unwrap_err();
    assert_eq!(e.message, "line 4: undefined label nowhere used on line 3");
    let e = parse_module_text(".module M\n.module N\n").unwrap_err();
    assert_eq!(e.message, "line 2: duplicate .module");
    let e = parse_module_text(".module M\n.function F() -> Void\n").unwrap_err();
    assert_eq!(e.message, "missing .end");
    let e = parse_module_text(".entry Main\n").unwrap_err();
    assert_eq!(e.message, ".module is required");
    let e = parse_module_text(".module M\n.end\n").unwrap_err();
    assert_eq!(e.message, "line 2: unexpected .end");
    let e = parse_module_text(".module M\n.function F() -> Void\nldc.i4 x\n.end\n").unwrap_err();
    assert_eq!(e.message, "line 3: expected Int32 literal");
    let e = parse_module_text(".module M\n.function F() -> Void\nret\n.local Int32\n.end\n").unwrap_err();
    assert_eq!(e.message, "line 4: parameters and locals must precede instructions");
    let e = parse_module_text(".module M\nbogus\n").unwrap_err();
    assert_eq!(e.message, "line 2: expected .module, .entry, .type or .function");
}
