use neoclr::cil::{decode, DecodeError, Instruction, Operation};

fn ops(code: &[u8]) -> Vec<Operation> {
    decode(code).unwrap().into_iter().map(|i| i.operation).collect()
}

fn failure(code: &[u8]) -> (usize, String) {
    let e = decode(code).unwrap_err();
    (e.offset, e.message)
}

#[test]
fn decodes_the_supported_subset() {
    assert_eq!(
        ops(&[0x00, 0x02, 0x0e, 0x07, 0x16, 0x1f, 0xff, 0x25, 0x26, 0x2a]),
        vec![
            Operation::Nop,
            Operation::LoadArgument(0),
            Operation::LoadArgument(7),
            Operation::Int32(0),
            Operation::Int32(-1),
            Operation::Dup,
            Operation::Pop,
            Operation::Return,
        ]
    );
    assert_eq!(ops(&[0x15]), vec![Operation::Int32(-1)]);
    assert_eq!(ops(&[0x20, 0x78, 0x56, 0x34, 0x12]), vec![Operation::Int32(0x1234_5678)]);
    assert_eq!(ops(&[0x28, 0x01, 0x00, 0x00, 0x06]), vec![Operation::Call(0x0600_0001)]);
    assert_eq!(ops(&[0x73, 0x02, 0x00, 0x00, 0x0a]), vec![Operation::Construct(0x0a00_0002)]);
    assert_eq!(ops(&[0x72, 0x01, 0x00, 0x00, 0x70]), vec![Operation::LoadString(0x7000_0001)]);
    assert_eq!(ops(&[0xfe, 0x0c, 0x02, 0x01]), vec![Operation::LoadLocal(0x0102)]);
    assert_eq!(
        decode(&[0x00, 0x2a]).unwrap(),
        vec![
            Instruction { offset: 0, operation: Operation::Nop },
            Instruction { offset: 1, operation: Operation::Return },
        ]
    );
}

#[test]
fn rejects_with_offsets() {
    assert_eq!(failure(&[]), (0, "empty CIL code stream".to_string()));
    assert_eq!(failure(&[0x00, 0x1f]), (1, "truncated operand".to_string()));
    assert_eq!(failure(&[0x2a, 0x58]), (1, "unsupported opcode 0x58".to_string()));
    assert_eq!(failure(&[0xfe, 0x01]), (0, "unsupported opcode 0xfe01".to_string()));
    assert_eq!(
        failure(&[0x28, 0x00, 0x00, 0x00, 0x06]),
        (0, "call/newobj requires a non-nil MethodDef or MemberRef token".to_string())
    );
    assert_eq!(
        failure(&[0x72, 0x00, 0x00, 0x00, 0x70]),
        (0, "ldstr requires a nonzero user-string heap token".to_string())
    );
    assert_eq!(failure(&vec![0u8; 65_537]), (0, "method exceeds 64 KiB code limit".to_string()));
}

#[test]
fn diagnostics_render_offsets_in_hex() {
    let e = DecodeError { offset: 0x1a, message: "truncated operand".into() };
    assert_eq!(e.render(), "IL_001a: truncated operand");
    assert_eq!(DecodeError { offset: 0, message: "m".into() }.render(), "IL_0000: m");
    assert_eq!(DecodeError { offset: 0x1_2345, message: "m".into() }.render(), "IL_12345: m");
}

#[test]
fn every_byte_is_framed_once() {
    let code = [0x1f, 5, 0x20, 1, 0, 0, 0, 0xfe, 0x0c, 2, 0, 0x2a];
    let is = neoclr::cil::decode(&code).unwrap();
    let offsets: Vec<usize> = is.iter().map(|i| i.offset).collect();
    assert_eq!(offsets, vec![0, 2, 7, 11]);
}
