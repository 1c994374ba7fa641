//! Bounded decoding of CLI instruction bytes for the static-call experiment.
//!
//! This is not a PE loader or verifier. The caller must admit the method header,
//! resolve tokens against explicit inputs, and verify signatures and stack effects.
use crate::text::{hex_byte, hex_digit, hex_digit_exec, push_hex_byte, push_char, push_str};
use vstd::prelude::*;
use vstd::string::StringExecFns;

verus! {

/// Maximum code size admitted by the first experimental decoder (64 KiB).
pub const MAX_CODE_BYTES: usize = 65536;

/// Token operands remain module-scoped CLI tokens, never runtime definition indices.
#[derive(Clone, Copy, Debug, PartialEq, Eq)]
pub enum Operation {
    Nop,
    LoadArgument(u16),
    LoadLocal(u16),
    StoreLocal(u16),
    Int32(i32),
    Dup,
    Pop,
    Call(u32),
    Construct(u32),
    LoadField(u32),
    StoreField(u32),
    Return,
    LoadString(u32),
}

#[derive(Clone, Copy, Debug, PartialEq, Eq)]
pub struct Instruction {
    /// Offset within the CIL code stream, excluding the method header.
    pub offset: usize,
    pub operation: Operation,
}

#[derive(Clone, Debug, PartialEq, Eq)]
pub struct DecodeError {
    pub offset: usize,
    pub message: String,
}

/// Why a code stream was rejected.
#[derive(Clone, Copy, Debug, PartialEq, Eq)]
pub enum DecodeFailure {
    TooLarge,
    Empty,
    TruncatedOperand,
    InvalidMethodToken,
    InvalidFieldToken,
    InvalidStringToken,
    UnsupportedOpcode(u8),
    UnsupportedExtendedOpcode(u8),
}

/// The diagnostic text of each rejection.
pub open spec fn failure_message(failure: DecodeFailure) -> Seq<char> {
    match failure {
        DecodeFailure::TooLarge => "method exceeds 64 KiB code limit"@,
        DecodeFailure::Empty => "empty CIL code stream"@,
        DecodeFailure::TruncatedOperand => "truncated operand"@,
        DecodeFailure::InvalidMethodToken => "call/newobj requires a non-nil MethodDef or MemberRef token"@,
        DecodeFailure::InvalidFieldToken => "field access requires a non-nil Field or MemberRef token"@,
        DecodeFailure::InvalidStringToken => "ldstr requires a nonzero user-string heap token"@,
        DecodeFailure::UnsupportedOpcode(op) => "unsupported opcode 0x"@ + hex_byte(op),
        DecodeFailure::UnsupportedExtendedOpcode(op) => "unsupported opcode 0xfe"@ + hex_byte(op),
    }
}

/// Little-endian unsigned value of the `n` bytes at `at`.
pub open spec fn le_value(code: Seq<u8>, at: int, n: nat) -> nat
    decreases n,
{
    if n == 0 {
        0
    } else {
        code[at] as nat + 256 * le_value(code, at + 1, (n - 1) as nat)
    }
}

/// The table/kind byte of a metadata token.
pub open spec fn token_table(token: u32) -> int {
    token as int / 0x1000000
}

/// The row number of a metadata token.
pub open spec fn token_row(token: u32) -> int {
    token as int % 0x1000000
}

pub open spec fn valid_method_token(token: u32) -> bool {
    (token_table(token) == 0x06 || token_table(token) == 0x0a) && token_row(token) != 0
}

pub open spec fn valid_field_token(token: u32) -> bool {
    (token_table(token) == 0x04 || token_table(token) == 0x0a) && token_row(token) != 0
}

pub open spec fn valid_string_token(token: u32) -> bool {
    token_table(token) == 0x70 && token_row(token) != 0
}

/// One decoding step at `at`: the operation and the offset after it, or the failure.
pub open spec fn decode_step(code: Seq<u8>, at: int) -> Result<(Operation, int), DecodeFailure>
    recommends
        0 <= at < code.len(),
{
    let op = code[at];
    let c = at + 1;
    let fits = |n: int| c + n <= code.len();
    if op == 0x00 {
        Ok((Operation::Nop, c))
    } else if 0x02 <= op <= 0x05 {
        Ok((Operation::LoadArgument((op - 0x02) as u16), c))
    } else if 0x06 <= op <= 0x09 {
        Ok((Operation::LoadLocal((op - 0x06) as u16), c))
    } else if 0x0a <= op <= 0x0d {
        Ok((Operation::StoreLocal((op - 0x0a) as u16), c))
    } else if op == 0x0e || op == 0x11 || op == 0x13 {
        if !fits(1) {
            Err(DecodeFailure::TruncatedOperand)
        } else {
            let index = code[c] as u16;
            Ok((
                if op == 0x0e {
                    Operation::LoadArgument(index)
                } else if op == 0x11 {
                    Operation::LoadLocal(index)
                } else {
                    Operation::StoreLocal(index)
                },
                c + 1,
            ))
        }
    } else if 0x15 <= op <= 0x1e {
        Ok((Operation::Int32((op - 0x16) as i32), c))
    } else if op == 0x1f {
        if !fits(1) {
            Err(DecodeFailure::TruncatedOperand)
        } else {
            Ok((Operation::Int32((code[c] as i8) as i32), c + 1))
        }
    } else if op == 0x20 {
        if !fits(4) {
            Err(DecodeFailure::TruncatedOperand)
        } else {
            Ok((Operation::Int32((le_value(code, c, 4) as u32) as i32), c + 4))
        }
    } else if op == 0x25 {
        Ok((Operation::Dup, c))
    } else if op == 0x26 {
        Ok((Operation::Pop, c))
    } else if op == 0x28 || op == 0x73 {
        if !fits(4) {
            Err(DecodeFailure::TruncatedOperand)
        } else {
            let token = le_value(code, c, 4) as u32;
            if !valid_method_token(token) {
                Err(DecodeFailure::InvalidMethodToken)
            } else if op == 0x28 {
                Ok((Operation::Call(token), c + 4))
            } else {
                Ok((Operation::Construct(token), c + 4))
            }
        }
    } else if op == 0x7b || op == 0x7d {
        if !fits(4) {
            Err(DecodeFailure::TruncatedOperand)
        } else {
            let token = le_value(code, c, 4) as u32;
            if !valid_field_token(token) {
                Err(DecodeFailure::InvalidFieldToken)
            } else if op == 0x7b {
                Ok((Operation::LoadField(token), c + 4))
            } else {
                Ok((Operation::StoreField(token), c + 4))
            }
        }
    } else if op == 0x2a {
        Ok((Operation::Return, c))
    } else if op == 0x72 {
        if !fits(4) {
            Err(DecodeFailure::TruncatedOperand)
        } else {
            let token = le_value(code, c, 4) as u32;
            if !valid_string_token(token) {
                Err(DecodeFailure::InvalidStringToken)
            } else {
                Ok((Operation::LoadString(token), c + 4))
            }
        }
    } else if op == 0xfe {
        if !fits(1) {
            Err(DecodeFailure::TruncatedOperand)
        } else {
            let ext = code[c];
            if ext == 0x09 || ext == 0x0c || ext == 0x0e {
                if c + 3 > code.len() {
                    Err(DecodeFailure::TruncatedOperand)
                } else {
                    let index = le_value(code, c + 1, 2) as u16;
                    Ok((
                        if ext == 0x09 {
                            Operation::LoadArgument(index)
                        } else if ext == 0x0c {
                            Operation::LoadLocal(index)
                        } else {
                            Operation::StoreLocal(index)
                        },
                        c + 3,
                    ))
                }
            } else {
                Err(DecodeFailure::UnsupportedExtendedOpcode(ext))
            }
        }
    } else {
        Err(DecodeFailure::UnsupportedOpcode(op))
    }
}

/// Decodes the stream from `at` to its end; a failure carries the offset of
/// the instruction that could not be decoded.
pub open spec fn decode_from(code: Seq<u8>, at: int) -> Result<Seq<Instruction>, (int, DecodeFailure)>
    decreases code.len() - at,
{
    if at < 0 || at >= code.len() {
        Ok(Seq::empty())
    } else {
        match decode_step(code, at) {
            Err(failure) => Err((at, failure)),
            Ok((operation, next)) => {
                if next <= at {
                    Ok(Seq::empty())
                } else {
                    match decode_from(code, next) {
                        Ok(rest) => Ok(seq![Instruction { offset: at as usize, operation }] + rest),
                        Err(e) => Err(e),
                    }
                }
            }
        }
    }
}

/// The whole decoder: size limits, then instruction framing from offset zero.
pub open spec fn spec_decode(code: Seq<u8>) -> Result<Seq<Instruction>, (int, DecodeFailure)> {
    if code.len() > MAX_CODE_BYTES {
        Err((0, DecodeFailure::TooLarge))
    } else if code.len() == 0 {
        Err((0, DecodeFailure::Empty))
    } else {
        decode_from(code, 0)
    }
}

/// Each step consumes at least the opcode byte and stays inside the stream.
pub proof fn lemma_step_advances(code: Seq<u8>, at: int)
    requires
        0 <= at < code.len(),
    ensures
        decode_step(code, at) matches Ok((_, next)) ==> at < next <= code.len(),
{
}

/// The bytes an instruction takes, known from its first byte: the opcode
/// alone, a one-byte operand, a four-byte operand, or the two-byte extended
/// opcode with a two-byte index.
pub open spec fn instruction_width(op: u8) -> int {
    if op == 0x0e || op == 0x11 || op == 0x13 || op == 0x1f {
        2
    } else if op == 0x20 || op == 0x28 || op == 0x72 || op == 0x73 || op == 0x7b || op == 0x7d {
        5
    } else if op == 0xfe {
        4
    } else {
        1
    }
}

/// Every instruction decoded from `at` starts where the one before it ends.
pub open spec fn framed_from(code: Seq<u8>, at: int, is: Seq<Instruction>) -> bool {
    &&& is.len() > 0
    &&& is[0].offset == at
    &&& forall|k: int|
        0 <= k < is.len() - 1 ==> #[trigger] is[k + 1].offset == is[k].offset + instruction_width(
            code[is[k].offset as int],
        )
    &&& is.last().offset + instruction_width(code[is.last().offset as int]) == code.len()
}

/// A step that succeeds takes exactly the width of its instruction.
proof fn lemma_step_width(code: Seq<u8>, at: int)
    requires
        0 <= at < code.len(),
    ensures
        decode_step(code, at) matches Ok((_, next)) ==> next == at + instruction_width(code[at]),
{
}

proof fn lemma_framed_from(code: Seq<u8>, at: int)
    requires
        0 <= at < code.len(),
        code.len() <= MAX_CODE_BYTES,
        decode_from(code, at) is Ok,
    ensures
        framed_from(code, at, decode_from(code, at)->Ok_0),
    decreases code.len() - at,
{
    lemma_step_width(code, at);
    lemma_step_advances(code, at);
    if let Ok((operation, next)) = decode_step(code, at) {
        let head = Instruction { offset: at as usize, operation };
        if next < code.len() {
            lemma_framed_from(code, next);
            let rest = decode_from(code, next)->Ok_0;
            let is = seq![head] + rest;
            assert(is == decode_from(code, at)->Ok_0);
            assert forall|k: int| 0 <= k < is.len() - 1 implies #[trigger] is[k + 1].offset
                == is[k].offset + instruction_width(code[is[k].offset as int]) by {
                if k > 0 {
                    let j = k - 1;
                    assert(is[k] == rest[j]);
                    assert(is[k + 1] == rest[j + 1]);
                    assert(rest[j + 1].offset == rest[j].offset + instruction_width(code[rest[j].offset as int]));
                } else {
                    assert(is[1] == rest[0]);
                }
            }
        } else {
            assert(decode_from(code, next) == Ok::<Seq<Instruction>, (int, DecodeFailure)>(Seq::empty()));
            assert(decode_from(code, at)->Ok_0 =~= seq![head]);
        }
    }
}

/// Framing: a successful decode frames every byte exactly once. The first
/// instruction starts at offset zero, each next one where the one before it
/// ends (by the width of its opcode), and the last one ends at the end of
/// the code.
pub proof fn law_decode_framing(code: Seq<u8>)
    requires
        spec_decode(code) is Ok,
    ensures
        framed_from(code, 0, spec_decode(code)->Ok_0),
{
    lemma_framed_from(code, 0);
}

/// The one-byte opcodes without an operand decode to their ECMA-335 meaning:
/// `nop` (0x00), `ldarg.0`..`ldarg.3` (0x02..0x05), `ldloc.0`..`ldloc.3`
/// (0x06..0x09), `stloc.0`..`stloc.3` (0x0a..0x0d), `ldc.i4.m1` (0x15),
/// `ldc.i4.0`..`ldc.i4.8` (0x16..0x1e), `dup` (0x25), `pop` (0x26) and `ret`
/// (0x2a); each takes exactly its opcode byte.
pub proof fn law_short_form_opcodes(code: Seq<u8>, at: int)
    requires
        0 <= at < code.len(),
    ensures
        code[at] == 0x00 ==> decode_step(code, at) == Ok::<_, DecodeFailure>((Operation::Nop, at + 1)),
        code[at] == 0x02 ==> decode_step(code, at) == Ok::<_, DecodeFailure>((Operation::LoadArgument(0), at + 1)),
        code[at] == 0x03 ==> decode_step(code, at) == Ok::<_, DecodeFailure>((Operation::LoadArgument(1), at + 1)),
        code[at] == 0x04 ==> decode_step(code, at) == Ok::<_, DecodeFailure>((Operation::LoadArgument(2), at + 1)),
        code[at] == 0x05 ==> decode_step(code, at) == Ok::<_, DecodeFailure>((Operation::LoadArgument(3), at + 1)),
        code[at] == 0x06 ==> decode_step(code, at) == Ok::<_, DecodeFailure>((Operation::LoadLocal(0), at + 1)),
        code[at] == 0x07 ==> decode_step(code, at) == Ok::<_, DecodeFailure>((Operation::LoadLocal(1), at + 1)),
        code[at] == 0x08 ==> decode_step(code, at) == Ok::<_, DecodeFailure>((Operation::LoadLocal(2), at + 1)),
        code[at] == 0x09 ==> decode_step(code, at) == Ok::<_, DecodeFailure>((Operation::LoadLocal(3), at + 1)),
        code[at] == 0x0a ==> decode_step(code, at) == Ok::<_, DecodeFailure>((Operation::StoreLocal(0), at + 1)),
        code[at] == 0x0b ==> decode_step(code, at) == Ok::<_, DecodeFailure>((Operation::StoreLocal(1), at + 1)),
        code[at] == 0x0c ==> decode_step(code, at) == Ok::<_, DecodeFailure>((Operation::StoreLocal(2), at + 1)),
        code[at] == 0x0d ==> decode_step(code, at) == Ok::<_, DecodeFailure>((Operation::StoreLocal(3), at + 1)),
        code[at] == 0x15 ==> decode_step(code, at) == Ok::<_, DecodeFailure>((Operation::Int32(-1i32), at + 1)),
        code[at] == 0x16 ==> decode_step(code, at) == Ok::<_, DecodeFailure>((Operation::Int32(0), at + 1)),
        code[at] == 0x17 ==> decode_step(code, at) == Ok::<_, DecodeFailure>((Operation::Int32(1), at + 1)),
        code[at] == 0x18 ==> decode_step(code, at) == Ok::<_, DecodeFailure>((Operation::Int32(2), at + 1)),
        code[at] == 0x19 ==> decode_step(code, at) == Ok::<_, DecodeFailure>((Operation::Int32(3), at + 1)),
        code[at] == 0x1a ==> decode_step(code, at) == Ok::<_, DecodeFailure>((Operation::Int32(4), at + 1)),
        code[at] == 0x1b ==> decode_step(code, at) == Ok::<_, DecodeFailure>((Operation::Int32(5), at + 1)),
        code[at] == 0x1c ==> decode_step(code, at) == Ok::<_, DecodeFailure>((Operation::Int32(6), at + 1)),
        code[at] == 0x1d ==> decode_step(code, at) == Ok::<_, DecodeFailure>((Operation::Int32(7), at + 1)),
        code[at] == 0x1e ==> decode_step(code, at) == Ok::<_, DecodeFailure>((Operation::Int32(8), at + 1)),
        code[at] == 0x25 ==> decode_step(code, at) == Ok::<_, DecodeFailure>((Operation::Dup, at + 1)),
        code[at] == 0x26 ==> decode_step(code, at) == Ok::<_, DecodeFailure>((Operation::Pop, at + 1)),
        code[at] == 0x2a ==> decode_step(code, at) == Ok::<_, DecodeFailure>((Operation::Return, at + 1)),
{
}

/// The short forms with a one-byte operand: `ldarg.s` (0x0e) loads the
/// argument, `ldloc.s` (0x11) loads the local and `stloc.s` (0x13) stores into
/// the local that the byte after the opcode numbers; `ldc.i4.s` (0x1f) pushes
/// that byte read as a signed value. Each takes two bytes, and with no byte
/// after the opcode the operand is truncated.
pub proof fn law_byte_operand_opcodes(code: Seq<u8>, at: int)
    requires
        0 <= at < code.len(),
    ensures
        at + 1 < code.len() && code[at] == 0x0e ==> decode_step(code, at)
            == Ok::<_, DecodeFailure>((Operation::LoadArgument(code[at + 1] as u16), at + 2)),
        at + 1 < code.len() && code[at] == 0x11 ==> decode_step(code, at)
            == Ok::<_, DecodeFailure>((Operation::LoadLocal(code[at + 1] as u16), at + 2)),
        at + 1 < code.len() && code[at] == 0x13 ==> decode_step(code, at)
            == Ok::<_, DecodeFailure>((Operation::StoreLocal(code[at + 1] as u16), at + 2)),
        at + 1 < code.len() && code[at] == 0x1f ==> (decode_step(code, at) matches Ok(
            (Operation::Int32(v), next),
        ) && next == at + 2 && v == (if code[at + 1] < 128 {
            code[at + 1] as int
        } else {
            code[at + 1] - 256
        })),
        at + 1 == code.len() && (code[at] == 0x0e || code[at] == 0x11 || code[at] == 0x13
            || code[at] == 0x1f) ==> decode_step(code, at) == Err::<(Operation, int), _>(
            DecodeFailure::TruncatedOperand,
        ),
{
    if at + 1 < code.len() {
        let b = code[at + 1];
        assert(b < 128 ==> (b as i8) as i32 == b as i32) by (bit_vector);
        assert(b >= 128 ==> (b as i8) as i32 == b as i32 - 256) by (bit_vector);
    }
}

/// The two-byte opcodes `ldarg` (0xfe 0x09), `ldloc` (0xfe 0x0c) and `stloc`
/// (0xfe 0x0e) take the argument or local numbered by the little-endian
/// 16-bit index after them, four bytes in all; any other byte after 0xfe is
/// an unsupported extended opcode.
pub proof fn law_extended_opcodes(code: Seq<u8>, at: int)
    requires
        0 <= at,
        at + 1 < code.len(),
        code[at] == 0xfe,
    ensures
        at + 3 < code.len() && code[at + 1] == 0x09 ==> decode_step(code, at)
            == Ok::<_, DecodeFailure>((Operation::LoadArgument((code[at + 2] + 256 * code[at + 3]) as u16), at + 4)),
        at + 3 < code.len() && code[at + 1] == 0x0c ==> decode_step(code, at)
            == Ok::<_, DecodeFailure>((Operation::LoadLocal((code[at + 2] + 256 * code[at + 3]) as u16), at + 4)),
        at + 3 < code.len() && code[at + 1] == 0x0e ==> decode_step(code, at)
            == Ok::<_, DecodeFailure>((Operation::StoreLocal((code[at + 2] + 256 * code[at + 3]) as u16), at + 4)),
        code[at + 1] != 0x09 && code[at + 1] != 0x0c && code[at + 1] != 0x0e ==> decode_step(code, at)
            == Err::<(Operation, int), _>(DecodeFailure::UnsupportedExtendedOpcode(code[at + 1])),
{
    reveal_with_fuel(le_value, 3);
}

/// The token opcodes keep their meaning: whatever the token, `call` (0x28)
/// gives a call, `newobj` (0x73) a construction, `ldfld` (0x7b) a field load,
/// `stfld` (0x7d) a field store and `ldstr` (0x72) a string load, five bytes
/// long, unless the token is refused or cut short.
pub proof fn law_token_opcodes(code: Seq<u8>, at: int)
    requires
        0 <= at,
        at + 4 < code.len(),
    ensures
        code[at] == 0x28 ==> (decode_step(code, at) matches Ok((Operation::Call(_), next)) && next
            == at + 5) || decode_step(code, at) == Err::<(Operation, int), _>(
            DecodeFailure::InvalidMethodToken,
        ),
        code[at] == 0x73 ==> (decode_step(code, at) matches Ok((Operation::Construct(_), next))
            && next == at + 5) || decode_step(code, at) == Err::<(Operation, int), _>(
            DecodeFailure::InvalidMethodToken,
        ),
        code[at] == 0x7b ==> (decode_step(code, at) matches Ok((Operation::LoadField(_), next))
            && next == at + 5) || decode_step(code, at) == Err::<(Operation, int), _>(
            DecodeFailure::InvalidFieldToken,
        ),
        code[at] == 0x7d ==> (decode_step(code, at) matches Ok((Operation::StoreField(_), next))
            && next == at + 5) || decode_step(code, at) == Err::<(Operation, int), _>(
            DecodeFailure::InvalidFieldToken,
        ),
        code[at] == 0x72 ==> (decode_step(code, at) matches Ok((Operation::LoadString(_), next))
            && next == at + 5) || decode_step(code, at) == Err::<(Operation, int), _>(
            DecodeFailure::InvalidStringToken,
        ),
{
}

/// A local round trip, decoded whole: `ldloc.s b; ret` loads local `b` at
/// offset zero and returns at offset two, and `stloc.s b; ret` stores into
/// local `b`, for every index byte `b`.
pub proof fn law_local_access_stream(b: u8)
    ensures
        spec_decode(seq![0x11u8, b, 0x2au8]) == Ok::<_, (int, DecodeFailure)>(
            seq![
                Instruction { offset: 0, operation: Operation::LoadLocal(b as u16) },
                Instruction { offset: 2, operation: Operation::Return },
            ],
        ),
        spec_decode(seq![0x13u8, b, 0x2au8]) == Ok::<_, (int, DecodeFailure)>(
            seq![
                Instruction { offset: 0, operation: Operation::StoreLocal(b as u16) },
                Instruction { offset: 2, operation: Operation::Return },
            ],
        ),
{
    let load = seq![0x11u8, b, 0x2au8];
    let store = seq![0x13u8, b, 0x2au8];
    assert(decode_from(load, 3) == Ok::<Seq<Instruction>, (int, DecodeFailure)>(Seq::empty()));
    assert(decode_from(store, 3) == Ok::<Seq<Instruction>, (int, DecodeFailure)>(Seq::empty()));
    assert(decode_from(load, 2) == Ok::<_, (int, DecodeFailure)>(
        seq![Instruction { offset: 2, operation: Operation::Return }],
    ));
    assert(decode_from(store, 2) == Ok::<_, (int, DecodeFailure)>(
        seq![Instruction { offset: 2, operation: Operation::Return }],
    ));
    let ret = seq![Instruction { offset: 2, operation: Operation::Return }];
    assert(decode_step(load, 0) == Ok::<_, DecodeFailure>((Operation::LoadLocal(b as u16), 2int)));
    assert(decode_step(store, 0) == Ok::<_, DecodeFailure>((Operation::StoreLocal(b as u16), 2int)));
    assert(decode_from(load, 0) == Ok::<_, (int, DecodeFailure)>(
        seq![Instruction { offset: 0, operation: Operation::LoadLocal(b as u16) }] + ret,
    ));
    assert(decode_from(store, 0) == Ok::<_, (int, DecodeFailure)>(
        seq![Instruction { offset: 0, operation: Operation::StoreLocal(b as u16) }] + ret,
    ));
    assert(seq![Instruction { offset: 0, operation: Operation::LoadLocal(b as u16) }] + ret =~= seq![
        Instruction { offset: 0, operation: Operation::LoadLocal(b as u16) },
        Instruction { offset: 2, operation: Operation::Return },
    ]);
    assert(seq![Instruction { offset: 0, operation: Operation::StoreLocal(b as u16) }] + ret =~= seq![
        Instruction { offset: 0, operation: Operation::StoreLocal(b as u16) },
        Instruction { offset: 2, operation: Operation::Return },
    ]);
}

impl DecodeError {
    fn of(offset: usize, failure: DecodeFailure) -> (e: DecodeError)
        ensures
            e.offset == offset,
            e.message@ == failure_message(failure),
    {
        let message = match failure {
            DecodeFailure::TooLarge => String::from_str("method exceeds 64 KiB code limit"),
            DecodeFailure::Empty => String::from_str("empty CIL code stream"),
            DecodeFailure::TruncatedOperand => String::from_str("truncated operand"),
            DecodeFailure::InvalidMethodToken => String::from_str(
                "call/newobj requires a non-nil MethodDef or MemberRef token",
            ),
            DecodeFailure::InvalidFieldToken => String::from_str(
                "field access requires a non-nil Field or MemberRef token",
            ),
            DecodeFailure::InvalidStringToken => String::from_str(
                "ldstr requires a nonzero user-string heap token",
            ),
            DecodeFailure::UnsupportedOpcode(op) => {
                let mut s = String::from_str("unsupported opcode 0x");
                push_hex_byte(&mut s, op);
                s
            },
            DecodeFailure::UnsupportedExtendedOpcode(op) => {
                let mut s = String::from_str("unsupported opcode 0xfe");
                push_hex_byte(&mut s, op);
                s
            },
        };
        DecodeError { offset, message }
    }
}

/// The little-endian 16-bit value at `at`.
fn read_u16(code: &[u8], at: usize) -> (v: u16)
    requires
        at + 2 <= code@.len(),
    ensures
        v as nat == le_value(code@, at as int, 2),
{
    proof {
        reveal_with_fuel(le_value, 3);
    }
    (code[at] as u16) + 256 * (code[at + 1] as u16)
}

/// The little-endian 32-bit value at `at`.
fn read_u32(code: &[u8], at: usize) -> (v: u32)
    requires
        at + 4 <= code@.len(),
    ensures
        v as nat == le_value(code@, at as int, 4),
{
    proof {
        reveal_with_fuel(le_value, 5);
    }
    (code[at] as u32) + 256 * ((code[at + 1] as u32) + 256 * ((code[at + 2] as u32) + 256
        * (code[at + 3] as u32)))
}

fn method_token_ok(token: u32) -> (b: bool)
    ensures
        b == valid_method_token(token),
{
    let table = token / 0x1000000;
    (table == 0x06 || table == 0x0a) && token % 0x1000000 != 0
}

fn field_token_ok(token: u32) -> (b: bool)
    ensures
        b == valid_field_token(token),
{
    let table = token / 0x1000000;
    (table == 0x04 || table == 0x0a) && token % 0x1000000 != 0
}

fn string_token_ok(token: u32) -> (b: bool)
    ensures
        b == valid_string_token(token),
{
    token / 0x1000000 == 0x70 && token % 0x1000000 != 0
}

/// Decodes the single instruction at `at`.
fn decode_one(code: &[u8], at: usize) -> (r: Result<(Operation, usize), DecodeFailure>)
    requires
        at < code@.len(),
        code@.len() <= MAX_CODE_BYTES,
    ensures
        match r {
            Ok((operation, next)) => decode_step(code@, at as int) == Ok::<_, DecodeFailure>(
                (operation, next as int),
            ),
            Err(failure) => decode_step(code@, at as int) == Err::<(Operation, int), _>(failure),
        },
{
    let len = code.len();
    let op = code[at];
    let c = at + 1;
    if op == 0x00 {
        Ok((Operation::Nop, c))
    } else if 0x02 <= op && op <= 0x05 {
        Ok((Operation::LoadArgument((op - 0x02) as u16), c))
    } else if 0x06 <= op && op <= 0x09 {
        Ok((Operation::LoadLocal((op - 0x06) as u16), c))
    } else if 0x0a <= op && op <= 0x0d {
        Ok((Operation::StoreLocal((op - 0x0a) as u16), c))
    } else if op == 0x0e || op == 0x11 || op == 0x13 {
        if c + 1 > len {
            Err(DecodeFailure::TruncatedOperand)
        } else {
            let index = code[c] as u16;
            Ok((
                if op == 0x0e {
                    Operation::LoadArgument(index)
                } else if op == 0x11 {
                    Operation::LoadLocal(index)
                } else {
                    Operation::StoreLocal(index)
                },
                c + 1,
            ))
        }
    } else if 0x15 <= op && op <= 0x1e {
        Ok((Operation::Int32((op as i32) - 0x16), c))
    } else if op == 0x1f {
        if c + 1 > len {
            Err(DecodeFailure::TruncatedOperand)
        } else {
            Ok((Operation::Int32((code[c] as i8) as i32), c + 1))
        }
    } else if op == 0x20 {
        if c + 4 > len {
            Err(DecodeFailure::TruncatedOperand)
        } else {
            Ok((Operation::Int32(read_u32(code, c) as i32), c + 4))
        }
    } else if op == 0x25 {
        Ok((Operation::Dup, c))
    } else if op == 0x26 {
        Ok((Operation::Pop, c))
    } else if op == 0x28 || op == 0x73 {
        if c + 4 > len {
            Err(DecodeFailure::TruncatedOperand)
        } else {
            let token = read_u32(code, c);
            if !method_token_ok(token) {
                Err(DecodeFailure::InvalidMethodToken)
            } else if op == 0x28 {
                Ok((Operation::Call(token), c + 4))
            } else {
                Ok((Operation::Construct(token), c + 4))
            }
        }
    } else if op == 0x7b || op == 0x7d {
        if c + 4 > len {
            Err(DecodeFailure::TruncatedOperand)
        } else {
            let token = read_u32(code, c);
            if !field_token_ok(token) {
                Err(DecodeFailure::InvalidFieldToken)
            } else if op == 0x7b {
                Ok((Operation::LoadField(token), c + 4))
            } else {
                Ok((Operation::StoreField(token), c + 4))
            }
        }
    } else if op == 0x2a {
        Ok((Operation::Return, c))
    } else if op == 0x72 {
        if c + 4 > len {
            Err(DecodeFailure::TruncatedOperand)
        } else {
            let token = read_u32(code, c);
            if !string_token_ok(token) {
                Err(DecodeFailure::InvalidStringToken)
            } else {
                Ok((Operation::LoadString(token), c + 4))
            }
        }
    } else if op == 0xfe {
        if c + 1 > len {
            Err(DecodeFailure::TruncatedOperand)
        } else {
            let ext = code[c];
            if ext == 0x09 || ext == 0x0c || ext == 0x0e {
                if c + 3 > len {
                    Err(DecodeFailure::TruncatedOperand)
                } else {
                    let index = read_u16(code, c + 1);
                    Ok((
                        if ext == 0x09 {
                            Operation::LoadArgument(index)
                        } else if ext == 0x0c {
                            Operation::LoadLocal(index)
                        } else {
                            Operation::StoreLocal(index)
                        },
                        c + 3,
                    ))
                }
            } else {
                Err(DecodeFailure::UnsupportedExtendedOpcode(ext))
            }
        }
    } else {
        Err(DecodeFailure::UnsupportedOpcode(op))
    }
}

/// Decode a complete code stream, rejecting unsupported bytes even after `ret`.
///
/// A successful decode establishes instruction framing only. In particular, token
/// existence, MemberRef method/field signatures, static-call eligibility, local and
/// argument bounds, maxstack, and valid returns still require metadata and verification.
pub fn decode(code: &[u8]) -> (r: Result<Vec<Instruction>, DecodeError>)
    ensures
        match r {
            Ok(instructions) => spec_decode(code@) == Ok::<_, (int, DecodeFailure)>(
                instructions@,
            ),
            Err(e) => exists|failure: DecodeFailure|
                spec_decode(code@) == Err::<Seq<Instruction>, _>((e.offset as int, failure))
                    && e.message@ == failure_message(failure),
        },
{
    if code.len() > MAX_CODE_BYTES {
        return Err(DecodeError::of(0, DecodeFailure::TooLarge));
    }
    if code.len() == 0 {
        return Err(DecodeError::of(0, DecodeFailure::Empty));
    }
    let mut result: Vec<Instruction> = Vec::new();
    let mut cursor: usize = 0;
    while cursor < code.len()
        invariant
            0 <= cursor <= code@.len(),
            0 < code@.len() <= MAX_CODE_BYTES,
            decode_from(code@, 0) == match decode_from(code@, cursor as int) {
                Ok(rest) => Ok(result@ + rest),
                Err(e) => Err::<Seq<Instruction>, (int, DecodeFailure)>(e),
            },
        decreases code@.len() - cursor,
    {
        let offset = cursor;
        proof {
            lemma_step_advances(code@, cursor as int);
        }
        match decode_one(code, cursor) {
            Err(failure) => {
                return Err(DecodeError::of(offset, failure));
            },
            Ok((operation, next)) => {
                let ghost old_result = result@;
                result.push(Instruction { offset, operation });
                cursor = next;
                proof {
                    let step = seq![Instruction { offset: offset, operation }];
                    assert(old_result + step == result@);
                    match decode_from(code@, cursor as int) {
                        Ok(rest) => {
                            assert(old_result + (step + rest) == result@ + rest);
                        },
                        Err(_) => {},
                    }
                }
            },
        }
    }
    proof {
        assert(result@ + Seq::<Instruction>::empty() == result@);
    }
    Ok(result)
}


/// The lowercase hexadecimal digits of a number, without leading zeros.
pub open spec fn hex_digits(n: nat) -> Seq<char>
    decreases n,
{
    if n < 16 {
        seq![hex_digit(n as int)]
    } else {
        hex_digits(n / 16).push(hex_digit((n % 16) as int))
    }
}

/// Hexadecimal digits padded with zeros to at least four (`{:04x}`).
pub open spec fn hex4(n: nat) -> Seq<char> {
    let h = hex_digits(n);
    if h.len() < 4 {
        Seq::new((4 - h.len()) as nat, |i: int| '0') + h
    } else {
        h
    }
}

proof fn lemma_hex_digits_len(n: nat)
    ensures
        n < 16 ==> hex_digits(n).len() == 1,
        16 <= n < 256 ==> hex_digits(n).len() == 2,
        256 <= n < 4096 ==> hex_digits(n).len() == 3,
        4096 <= n ==> hex_digits(n).len() >= 4,
    decreases n,
{
    if n >= 16 {
        lemma_hex_digits_len(n / 16);
    }
}

fn push_hex_digits(s: &mut String, n: usize)
    ensures
        final(s)@ == old(s)@ + hex_digits(n as nat),
    decreases n,
{
    if n >= 16 {
        push_hex_digits(s, n / 16);
    }
    push_char(s, hex_digit_exec((n % 16) as u8));
    assert(s@ =~= old(s)@ + hex_digits(n as nat));
}

impl DecodeError {
    /// The diagnostic `IL_xxxx: message`, with the offset in at least four
    /// lowercase hexadecimal digits.
    pub fn render(&self) -> (s: String)
        ensures
            s@ == "IL_"@ + hex4(self.offset as nat) + ": "@ + self.message@,
    {
        let mut s = String::from_str("IL_");
        let n = self.offset;
        proof {
            lemma_hex_digits_len(n as nat);
        }
        let zeros: usize = if n < 16 {
            3
        } else if n < 256 {
            2
        } else if n < 4096 {
            1
        } else {
            0
        };
        let ghost start = s@;
        let mut k: usize = 0;
        while k < zeros
            invariant
                k <= zeros <= 3,
                s@ == start + Seq::new(k as nat, |i: int| '0'),
            decreases zeros - k,
        {
            push_char(&mut s, '0');
            k += 1;
            assert(s@ =~= start + Seq::new(k as nat, |i: int| '0'));
        }
        push_hex_digits(&mut s, n);
        push_str(&mut s, ": ");
        push_str(&mut s, self.message.as_str());
        assert(s@ =~= "IL_"@ + hex4(self.offset as nat) + ": "@ + self.message@);
        s
    }
}

} // verus!
