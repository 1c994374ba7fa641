use neoclr::assembler::SlotNames;
use neoclr::neoil::{parse_i64_text, parse_instruction, Operand};
use neoclr::types::Type;

fn slots() -> SlotNames {
    SlotNames { instance: true, parameter_names: vec![Some("x".to_string())], local_names: vec![None, Some("t".to_string())] }
}

#[test]
fn operands_are_read_by_opcode() {
    let s = slots();
    let g: Vec<Option<String>> = vec![Some("T".to_string())];
    assert_eq!(parse_instruction("unaligned.", "4", &s, &g).unwrap().instruction.operand, Operand::Byte(4));
    assert_eq!(parse_instruction("ldc.i8", "-9223372036854775808", &s, &g).unwrap().instruction.operand, Operand::Int64(i64::MIN));
    assert_eq!(parse_instruction("ldc.r8", "1.5", &s, &g).unwrap().instruction.operand, Operand::Float("1.5".to_string()));
    assert_eq!(parse_instruction("ldarg", "x", &s, &g).unwrap().instruction.operand, Operand::Index(1));
    assert_eq!(parse_instruction("ldarg", "this", &s, &g).unwrap().instruction.operand, Operand::Index(0));
    assert_eq!(parse_instruction("ldloca", "t", &s, &g).unwrap().instruction.operand, Operand::Index(1));
    assert_eq!(parse_instruction("ldfld", "3", &s, &g).unwrap().instruction.operand, Operand::Index(3));
    assert_eq!(parse_instruction("sizeof", "Int32", &s, &g).unwrap().instruction.operand, Operand::Type(Type::Int32));
    assert_eq!(parse_instruction("newobj", "Point", &s, &g).unwrap().instruction.operand, Operand::Type(Type::Named("Point".to_string())));
    let ctor = parse_instruction("newobj", "Point::.ctor(Int32)", &s, &g).unwrap();
    assert_eq!(ctor.instruction.opcode, "newobj.ctor");
    assert!(matches!(ctor.instruction.operand, Operand::Function(_)));
    assert_eq!(parse_instruction("add", "", &s, &g).unwrap().instruction.operand, Operand::Absent);
}

#[test]
fn field_names_bind_the_enclosing_type_parameters() {
    let s = slots();
    let g: Vec<Option<String>> = vec![Some("T".to_string())];
    let p = parse_instruction("stfld", "Box<T>::Value", &s, &g).unwrap();
    let (owner, name) = p.field.unwrap();
    assert_eq!(name, "Value");
    assert_eq!(owner, Type::Constructed { definition: "Box".to_string(), arguments: vec![Type::TypeParameter(0)] });
}

#[test]
fn malformed_operands_are_refused() {
    let s = slots();
    let g: Vec<Option<String>> = vec![];
    assert_eq!(parse_instruction("unaligned.", "300", &s, &g).unwrap_err().message, "expected unaligned. 1, 2, or 4");
    assert_eq!(parse_instruction("ldc.bool", "yes", &s, &g).unwrap_err().message, "expected true or false");
    assert_eq!(parse_instruction("ldstr", "hi", &s, &g).unwrap_err().message, "expected JSON-quoted string");
    assert_eq!(parse_instruction("ldfld", "Point", &s, &g).unwrap_err().message, "expected field index or Type::Field");
    assert_eq!(parse_instruction("switch", "a, b", &s, &g).unwrap_err().message, "expected switch (Label, Label, ...)");
    assert_eq!(parse_instruction("ret", "1", &s, &g).unwrap_err().message, "unexpected instruction operand");
    assert_eq!(parse_instruction("ldloc", "nope", &s, &g).unwrap_err().message, "unknown local name \"nope\"");
    let labels = parse_instruction("switch", "()", &s, &g).unwrap();
    assert!(labels.labels.is_empty());
}

#[test]
fn sixty_four_bit_literals_follow_from_str() {
    assert_eq!(parse_i64_text("9223372036854775807"), Some(i64::MAX));
    assert_eq!(parse_i64_text("9223372036854775808"), None);
    assert_eq!(parse_i64_text("+12"), Some(12));
    assert_eq!(parse_i64_text("-+1"), None);
    assert_eq!(parse_i64_text(""), None);
}
