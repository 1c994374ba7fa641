//! The instructions of neoIL module text: one opcode and its operand per line.
use crate::assembler::{
    bind_type_parameters, find_path_separator, find_path_separator_chars, lemma_commas,
    lemma_find_path_separator, names_view, parse_compact_instruction, parse_function_ref,
    parse_type, piece, commas, resolve_slot, spec_compact_instruction, spec_parse_function_ref,
    spec_parse_type, spec_resolve_slot, bind_view, CompactInstruction, SlotNames, SlotNamesView, slot_names_view,
};
use crate::expressions::{parse_i32_text, unsigned_below};
use crate::fault::Fault;
use crate::grammar::{decode_string, json_string, parse_i32};
use crate::metadata::{FunctionRef, FunctionRefView};
use crate::numbers::{all_digits, digits_value, parse_unsigned, unsigned_digits};
use crate::syntax::{
    find_char, find_from, identifier, identifier_error, is_identifier, lemma_find_from, slice_chars,
    string_of, trim, trim_chars,
};
use crate::text::{chars_of, str_eq};
use crate::types::{Type, TypeView};
use vstd::prelude::*;

verus! {

/// An instruction's operand.
#[derive(Debug, PartialEq, Eq)]
pub enum Operand {
    /// No operand.
    Absent,
    Byte(u8),
    Int32(i32),
    Int64(i64),
    /// A floating-point literal, kept as written.
    Float(String),
    Bool(bool),
    Text(String),
    Index(usize),
    Targets(Vec<usize>),
    Function(FunctionRef),
    Type(Type),
}

pub ghost enum OperandView {
    Absent,
    Byte(u8),
    Int32(i32),
    Int64(i64),
    Float(Seq<char>),
    Bool(bool),
    Text(Seq<char>),
    Index(usize),
    Targets(Seq<usize>),
    Function(FunctionRefView),
    Type(TypeView),
}

impl View for Operand {
    type V = OperandView;

    open spec fn view(&self) -> OperandView {
        match self {
            Operand::Absent => OperandView::Absent,
            Operand::Byte(b) => OperandView::Byte(*b),
            Operand::Int32(v) => OperandView::Int32(*v),
            Operand::Int64(v) => OperandView::Int64(*v),
            Operand::Float(s) => OperandView::Float(s@),
            Operand::Bool(b) => OperandView::Bool(*b),
            Operand::Text(s) => OperandView::Text(s@),
            Operand::Index(i) => OperandView::Index(*i),
            Operand::Targets(t) => OperandView::Targets(t@),
            Operand::Function(f) => OperandView::Function(f@),
            Operand::Type(t) => OperandView::Type(t@),
        }
    }
}

/// One instruction: its opcode and operand.
#[derive(Debug, PartialEq, Eq)]
pub struct Instruction {
    pub opcode: String,
    pub operand: Operand,
}

pub ghost struct InstructionView {
    pub opcode: Seq<char>,
    pub operand: OperandView,
}

impl View for Instruction {
    type V = InstructionView;

    open spec fn view(&self) -> InstructionView {
        InstructionView { opcode: self.opcode@, operand: self.operand@ }
    }
}

/// An instruction as read from its line, with what is left to resolve once
/// the whole function or module is read: the labels its targets name (in
/// target order), and the owner and name of a field named by `Type::Field`.
#[derive(Debug)]
pub struct ParsedInstruction {
    pub instruction: Instruction,
    pub labels: Vec<String>,
    pub field: Option<(Type, String)>,
}

pub ghost struct ParsedView {
    pub instruction: InstructionView,
    pub labels: Seq<Seq<char>>,
    pub field: Option<(TypeView, Seq<char>)>,
}

pub open spec fn strings_view(v: Seq<String>) -> Seq<Seq<char>> {
    Seq::new(v.len(), |i: int| v[i]@)
}

pub open spec fn parsed_view(p: ParsedInstruction) -> ParsedView {
    ParsedView {
        instruction: p.instruction@,
        labels: strings_view(p.labels@),
        field: match p.field {
            Some((t, n)) => Some((t@, n@)),
            None => None,
        },
    }
}

/// How `i64::from_str` reads a text.
pub open spec fn parse_i64(s: Seq<char>) -> Option<i64> {
    if s.len() > 0 && s[0] == '-' {
        let digits = s.drop_first();
        if digits.len() > 0 && all_digits(digits) && digits_value(digits) <= 0x8000_0000_0000_0000 {
            Some((-(digits_value(digits) as int)) as i64)
        } else {
            None
        }
    } else {
        match parse_unsigned(s, 0x8000_0000_0000_0000) {
            Some(v) => Some(v as i64),
            None => None,
        }
    }
}

/// Reads an `i64` as `i64::from_str` does (see `parse_i64`).
pub fn parse_i64_text(s: &str) -> (r: Option<i64>)
    ensures
        r == parse_i64(s@),
{
    let chars = chars_of(s);
    if chars.len() > 0 && chars[0] == '-' {
        let digits = slice_chars(&chars, 1, chars.len());
        let text = string_of(&digits);
        proof {
            assert(digits@ =~= s@.drop_first());
        }
        if digits.len() > 0 && digits[0] == '+' {
            proof {
                assert(!all_digits(s@.drop_first()));
            }
            return None;
        }
        let r = unsigned_below(text.as_str(), 0x8000_0000_0000_0001);
        proof {
            let d = s@.drop_first();
            if d.len() > 0 {
                assert(d[0] != '+');
            }
            assert(unsigned_digits(d) =~= d);
        }
        match r {
            Some(v) => Some((-(v as i128)) as i64),
            None => None,
        }
    } else {
        match unsigned_below(s, 0x8000_0000_0000_0000) {
            Some(v) => Some(v as i64),
            None => None,
        }
    }
}

/// Whether an opcode branches to one label.
pub open spec fn is_branch(word: Seq<char>) -> bool {
    word == "br"@ || word == "brtrue"@ || word == "brfalse"@ || word == "beq"@ || word
        == "bne.un"@ || word == "bgt"@ || word == "bgt.un"@ || word == "blt"@ || word == "blt.un"@
        || word == "bge"@ || word == "bge.un"@ || word == "ble"@ || word == "ble.un"@
}

/// Whether an opcode names a parameter or local slot.
pub open spec fn is_slot_op(word: Seq<char>) -> bool {
    word == "ldarg"@ || word == "ldarga"@ || word == "starg"@ || word == "ldloc"@ || word
        == "ldloca"@ || word == "stloc"@
}

/// Whether an opcode takes a type.
pub open spec fn is_type_op(word: Seq<char>) -> bool {
    word == "sizeof"@ || word == "alignof"@ || word == "heap.alloc"@ || word == "ptr.null"@
        || word == "ptr.cast"@ || word == "ptr.fromint"@ || word == "ldobj"@ || word == "stobj"@
        || word == "cpobj"@ || word == "initobj"@ || word == "value.pack"@ || word == "value.is"@
        || word == "value.unpack"@ || word == "ldtoken"@ || word == "interface.borrow"@
}

/// The canonical instruction a compact spelling stands for.
pub open spec fn compact_view(c: CompactInstruction) -> InstructionView {
    match c {
        CompactInstruction::Int(v) => InstructionView { opcode: "ldc.i4"@, operand: OperandView::Int32(v) },
        CompactInstruction::Arg(i) => InstructionView { opcode: "ldarg"@, operand: OperandView::Index(i) },
        CompactInstruction::StoreArg(i) => InstructionView { opcode: "starg"@, operand: OperandView::Index(i) },
        CompactInstruction::Load(i) => InstructionView { opcode: "ldloc"@, operand: OperandView::Index(i) },
        CompactInstruction::Store(i) => InstructionView { opcode: "stloc"@, operand: OperandView::Index(i) },
    }
}

/// An instruction with no labels and no field to resolve.
pub open spec fn plain(opcode: Seq<char>, operand: OperandView) -> ParsedView {
    ParsedView {
        instruction: InstructionView { opcode, operand },
        labels: Seq::empty(),
        field: None,
    }
}

/// The labels of a `switch (L1, L2, ...)` list from the `k`th on.
pub open spec fn switch_labels(s: Seq<char>, k: nat) -> Result<Seq<Seq<char>>, Seq<char>>
    decreases commas(s, s.len()).len() + 1 - k,
{
    if k > commas(s, s.len()).len() {
        Ok(Seq::empty())
    } else {
        let label = trim(piece(s, k as int));
        if !is_identifier(label) {
            Err(identifier_error(label))
        } else {
            match switch_labels(s, k + 1) {
                Err(m) => Err(m),
                Ok(rest) => Ok(seq![label] + rest),
            }
        }
    }
}

/// The operand of a `ldfld`, `stfld` or `ldflda`: a field index, or
/// `Type::Field` to be resolved later, the owner's type parameters bound by
/// the enclosing type's names.
pub open spec fn field_operand(word: Seq<char>, rest: Seq<char>, generics: Seq<Option<Seq<char>>>) -> Result<
    ParsedView,
    Seq<char>,
> {
    match parse_unsigned(rest, usize::MAX as nat + 1) {
        Some(i) => Ok(plain(word, OperandView::Index(i as usize))),
        None => match find_path_separator(rest, 0) {
            None => Err("expected field index or Type::Field"@),
            Some(p) => match spec_parse_type(rest.subrange(0, p)) {
                Err(m) => Err(m),
                Ok(owner) => {
                    let field = trim(rest.subrange(p + 2, rest.len() as int));
                    if !is_identifier(field) {
                        Err(identifier_error(field))
                    } else {
                        Ok(
                            ParsedView {
                                instruction: InstructionView { opcode: word, operand: OperandView::Index(0) },
                                labels: Seq::empty(),
                                field: Some((bind_view(owner, generics), field)),
                            },
                        )
                    }
                },
            },
        },
    }
}

/// A `switch (L1, L2, ...)` line: one target per label.
pub open spec fn spec_switch(word: Seq<char>, rest: Seq<char>) -> Result<ParsedView, Seq<char>> {
    if rest.len() < 2 || rest[0] != '(' || rest.last() != ')' {
        Err("expected switch (Label, Label, ...)"@)
    } else {
        let inner = rest.subrange(1, rest.len() - 1);
        let labels = if trim(inner).len() == 0 {
            Ok(Seq::empty())
        } else {
            switch_labels(inner, 0)
        };
        match labels {
            Err(m) => Err(m),
            Ok(labels) => Ok(
                ParsedView {
                    instruction: InstructionView {
                        opcode: word,
                        operand: OperandView::Targets(Seq::new(labels.len(), |i: int| 0usize)),
                    },
                    labels,
                    field: None,
                },
            ),
        }
    }
}

/// How the assembler reads one instruction line: its opcode `word` and the
/// operand text `rest`, within a function whose slots are named by `slots`
/// and a type whose type parameters are `generics`.
pub open spec fn spec_instruction(
    word: Seq<char>,
    rest: Seq<char>,
    slots: SlotNamesView,
    generics: Seq<Option<Seq<char>>>,
) -> Result<ParsedView, Seq<char>> {
    match spec_compact_instruction(word, rest, slots) {
        Err(m) => Err(m),
        Ok(Some(c)) => Ok(ParsedView { instruction: compact_view(c), labels: Seq::empty(), field: None }),
        Ok(None) => if word == "unaligned."@ {
            match parse_unsigned(rest, 256) {
                Some(v) => Ok(plain(word, OperandView::Byte(v as u8))),
                None => Err("expected unaligned. 1, 2, or 4"@),
            }
        } else if word == "ldc.i4"@ {
            match parse_i32(rest) {
                Some(v) => Ok(plain(word, OperandView::Int32(v))),
                None => Err("expected Int32 literal"@),
            }
        } else if word == "ldc.i8"@ {
            match parse_i64(rest) {
                Some(v) => Ok(plain(word, OperandView::Int64(v))),
                None => Err("expected Int64 literal"@),
            }
        } else if word == "ldc.r4"@ || word == "ldc.r8"@ {
            Ok(plain(word, OperandView::Float(rest)))
        } else if word == "ldc.bool"@ {
            if rest == "true"@ {
                Ok(plain(word, OperandView::Bool(true)))
            } else if rest == "false"@ {
                Ok(plain(word, OperandView::Bool(false)))
            } else {
                Err("expected true or false"@)
            }
        } else if word == "ldstr"@ || word == "error"@ || word == "fault"@ {
            match json_string(rest) {
                Some(s) => Ok(plain(word, OperandView::Text(s))),
                None => Err("expected JSON-quoted string"@),
            }
        } else if is_slot_op(word) {
            match spec_resolve_slot(slots, word, rest) {
                Ok(i) => Ok(plain(word, OperandView::Index(i as usize))),
                Err(m) => Err(m),
            }
        } else if word == "ldfld"@ || word == "stfld"@ || word == "ldflda"@ {
            field_operand(word, rest, generics)
        } else if is_branch(word) {
            if !is_identifier(rest) {
                Err(identifier_error(rest))
            } else {
                Ok(
                    ParsedView {
                        instruction: InstructionView { opcode: word, operand: OperandView::Index(0) },
                        labels: seq![rest],
                        field: None,
                    },
                )
            }
        } else if word == "switch"@ {
            spec_switch(word, rest)
        } else if word == "call"@ || word == "callvirt"@ || word == "newobj.ctor"@ || (word
            == "newobj"@ && rest.contains('(')) {
            match spec_parse_function_ref(rest) {
                Ok(f) => Ok(
                    plain(
                        if word == "newobj"@ {
                            "newobj.ctor"@
                        } else {
                            word
                        },
                        OperandView::Function(f),
                    ),
                ),
                Err(m) => Err(m),
            }
        } else if word == "newobj"@ || is_type_op(word) {
            match spec_parse_type(rest) {
                Ok(t) => Ok(plain(word, OperandView::Type(t))),
                Err(m) => Err(m),
            }
        } else if rest.len() != 0 {
            Err("unexpected instruction operand"@)
        } else {
            Ok(plain(word, OperandView::Absent))
        },
    }
}

/// What `parse_instruction` promises.
pub open spec fn instruction_result(r: Result<ParsedInstruction, Fault>, expected: Result<ParsedView, Seq<char>>) -> bool {
    match expected {
        Ok(p) => r matches Ok(x) && parsed_view(x) == p,
        Err(m) => r matches Err(f) && f.message@ == m,
    }
}

fn plain_instruction(word: &str, operand: Operand) -> (p: ParsedInstruction)
    ensures
        parsed_view(p) == plain(word@, operand@),
{
    let labels: Vec<String> = Vec::new();
    let p = ParsedInstruction { instruction: Instruction { opcode: word.to_string(), operand }, labels, field: None };
    assert(strings_view(p.labels@) =~= Seq::<Seq<char>>::empty());
    p
}

fn text_of(s: &str) -> (r: String)
    ensures
        r@ == s@,
{
    s.to_string()
}

/// The labels of a switch list (see `switch_labels`).
fn parse_switch_labels(list: &Vec<char>) -> (r: Result<Vec<String>, Fault>)
    ensures
        match switch_labels(list@, 0) {
            Ok(labels) => r matches Ok(v) && strings_view(v@) == labels,
            Err(m) => r matches Err(f) && f.message@ == m,
        },
{
    let ghost sep = commas(list@, list@.len());
    let mut positions: Vec<usize> = Vec::new();
    let mut i: usize = 0;
    while i < list.len()
        invariant
            i <= list@.len(),
            positions@.len() == commas(list@, i as nat).len(),
            forall|k: int|
                0 <= k < positions@.len() ==> positions@[k] as int == #[trigger] commas(list@, i as nat)[k],
        decreases list.len() - i,
    {
        if list[i] == ',' {
            positions.push(i);
        }
        i += 1;
    }
    proof {
        lemma_commas(list@, list@.len());
    }
    let mut labels: Vec<String> = Vec::new();
    let mut k: usize = 0;
    let n = list.len();
    loop
        invariant
            n == list@.len(),
            k <= positions@.len(),
            sep == commas(list@, list@.len()),
            positions@.len() == sep.len(),
            forall|j: int| 0 <= j < positions@.len() ==> positions@[j] as int == #[trigger] sep[j],
            forall|j: int| 0 <= j < sep.len() ==> 0 <= #[trigger] sep[j] < list@.len(),
            forall|j: int, l: int| 0 <= j < l < sep.len() ==> sep[j] < sep[l],
            labels@.len() == k,
            switch_labels(list@, 0) == match switch_labels(list@, k as nat) {
                Ok(rest) => Ok(strings_view(labels@) + rest),
                Err(m) => Err::<Seq<Seq<char>>, Seq<char>>(m),
            },
        decreases positions@.len() - k,
    {
        let start = if k == 0 {
            0
        } else {
            assert(positions@[k - 1] as int == sep[k - 1]);
            assert(sep[k - 1] < list@.len());
            positions[k - 1] + 1
        };
        let end = if k < positions.len() {
            positions[k]
        } else {
            n
        };
        proof {
            if k > 0 && k < positions.len() {
                assert(sep[k - 1] < sep[k as int]);
            }
        }
        let text = slice_chars(list, start, end);
        proof {
            assert(text@ == piece(list@, k as int));
        }
        let label = trim_chars(&text);
        if let Err(f) = identifier(&label) {
            return Err(f);
        }
        let ghost old_labels = labels@;
        let entry = string_of(&label);
        labels.push(entry);
        proof {
            let l = label@;
            assert(strings_view(labels@) =~= strings_view(old_labels).push(l));
            match switch_labels(list@, (k + 1) as nat) {
                Ok(rest) => {
                    assert(strings_view(old_labels) + (seq![l] + rest) =~= strings_view(labels@) + rest);
                },
                Err(m) => {},
            }
        }
        if k == positions.len() {
            proof {
                assert(strings_view(labels@) + Seq::<Seq<char>>::empty() =~= strings_view(labels@));
            }
            return Ok(labels);
        }
        k += 1;
    }
}

fn is_branch_word(word: &str) -> (b: bool)
    ensures
        b == is_branch(word@),
{
    str_eq(word, "br") || str_eq(word, "brtrue") || str_eq(word, "brfalse") || str_eq(word, "beq")
        || str_eq(word, "bne.un") || str_eq(word, "bgt") || str_eq(word, "bgt.un") || str_eq(word, "blt")
        || str_eq(word, "blt.un") || str_eq(word, "bge") || str_eq(word, "bge.un") || str_eq(word, "ble")
        || str_eq(word, "ble.un")
}

fn is_slot_word(word: &str) -> (b: bool)
    ensures
        b == is_slot_op(word@),
{
    str_eq(word, "ldarg") || str_eq(word, "ldarga") || str_eq(word, "starg") || str_eq(word, "ldloc")
        || str_eq(word, "ldloca") || str_eq(word, "stloc")
}

fn is_type_word(word: &str) -> (b: bool)
    ensures
        b == is_type_op(word@),
{
    str_eq(word, "sizeof") || str_eq(word, "alignof") || str_eq(word, "heap.alloc") || str_eq(word, "ptr.null")
        || str_eq(word, "ptr.cast") || str_eq(word, "ptr.fromint") || str_eq(word, "ldobj") || str_eq(word, "stobj")
        || str_eq(word, "cpobj") || str_eq(word, "initobj") || str_eq(word, "value.pack") || str_eq(word, "value.is")
        || str_eq(word, "value.unpack") || str_eq(word, "ldtoken") || str_eq(word, "interface.borrow")
}

fn compact_instruction(c: CompactInstruction) -> (p: ParsedInstruction)
    ensures
        parsed_view(p) == (ParsedView { instruction: compact_view(c), labels: Seq::empty(), field: None }),
{
    match c {
        CompactInstruction::Int(v) => plain_instruction("ldc.i4", Operand::Int32(v)),
        CompactInstruction::Arg(i) => plain_instruction("ldarg", Operand::Index(i)),
        CompactInstruction::StoreArg(i) => plain_instruction("starg", Operand::Index(i)),
        CompactInstruction::Load(i) => plain_instruction("ldloc", Operand::Index(i)),
        CompactInstruction::Store(i) => plain_instruction("stloc", Operand::Index(i)),
    }
}

fn parse_field_operand(word: &str, rest: &str, generics: &Vec<Option<String>>) -> (r: Result<ParsedInstruction, Fault>)
    ensures
        instruction_result(r, field_operand(word@, rest@, names_view(generics@))),
{
    if let Some(i) = unsigned_below(rest, usize::MAX as u128 + 1) {
        return Ok(plain_instruction(word, Operand::Index(i as usize)));
    }
    let chars = chars_of(rest);
    proof {
        lemma_find_path_separator(chars@, 0);
    }
    let p = match find_path_separator_chars(&chars) {
        Some(p) => p,
        None => return Err(Fault::new("expected field index or Type::Field")),
    };
    let owner_text = slice_chars(&chars, 0, p);
    let owner_string = string_of(&owner_text);
    let owner = match parse_type(owner_string.as_str()) {
        Ok(t) => t,
        Err(f) => return Err(f),
    };
    let field_text = slice_chars(&chars, p + 2, chars.len());
    let field = trim_chars(&field_text);
    if let Err(f) = identifier(&field) {
        return Err(f);
    }
    let bound = bind_type_parameters(&owner, generics);
    let labels: Vec<String> = Vec::new();
    let parsed = ParsedInstruction {
        instruction: Instruction { opcode: text_of(word), operand: Operand::Index(0) },
        labels,
        field: Some((bound, string_of(&field))),
    };
    proof {
        assert(strings_view(parsed.labels@) =~= Seq::<Seq<char>>::empty());
    }
    Ok(parsed)
}

fn parse_switch(word: &str, rest: &str) -> (r: Result<ParsedInstruction, Fault>)
    requires
        word@ == "switch"@,
    ensures
        instruction_result(r, spec_switch(word@, rest@)),
{
    let chars = chars_of(rest);
    let n = chars.len();
    if n < 2 || chars[0] != '(' || chars[n - 1] != ')' {
        return Err(Fault::new("expected switch (Label, Label, ...)"));
    }
    let inner = slice_chars(&chars, 1, n - 1);
    let trimmed = trim_chars(&inner);
    let labels = if trimmed.len() == 0 {
        let none: Vec<String> = Vec::new();
        assert(strings_view(none@) =~= Seq::<Seq<char>>::empty());
        none
    } else {
        match parse_switch_labels(&inner) {
            Ok(v) => v,
            Err(f) => return Err(f),
        }
    };
    let mut targets: Vec<usize> = Vec::new();
    let mut i: usize = 0;
    while i < labels.len()
        invariant
            i <= labels@.len(),
            targets@ == Seq::new(i as nat, |j: int| 0usize),
        decreases labels.len() - i,
    {
        targets.push(0);
        i += 1;
        assert(targets@ =~= Seq::new(i as nat, |j: int| 0usize));
    }
    proof {
        assert(strings_view(labels@).len() == labels@.len());
    }
    Ok(ParsedInstruction { instruction: Instruction { opcode: text_of(word), operand: Operand::Targets(targets) }, labels, field: None })
}

/// Reads one instruction line (see `spec_instruction`).
pub fn parse_instruction(word: &str, rest: &str, slots: &SlotNames, generics: &Vec<Option<String>>) -> (r: Result<
    ParsedInstruction,
    Fault,
>)
    ensures
        instruction_result(r, spec_instruction(word@, rest@, slot_names_view(*slots), names_view(generics@))),
{
    proof {
        reveal_strlit("unaligned.");
        reveal_strlit("ldc.i4");
        reveal_strlit("ldc.i8");
        reveal_strlit("ldc.r4");
        reveal_strlit("ldc.r8");
        reveal_strlit("ldc.bool");
        reveal_strlit("ldstr");
        reveal_strlit("error");
        reveal_strlit("fault");
        reveal_strlit("ldarg");
        reveal_strlit("ldarga");
        reveal_strlit("starg");
        reveal_strlit("ldloc");
        reveal_strlit("ldloca");
        reveal_strlit("stloc");
        reveal_strlit("ldfld");
        reveal_strlit("stfld");
        reveal_strlit("ldflda");
        reveal_strlit("br");
        reveal_strlit("brtrue");
        reveal_strlit("brfalse");
        reveal_strlit("beq");
        reveal_strlit("bne.un");
        reveal_strlit("bgt");
        reveal_strlit("bgt.un");
        reveal_strlit("blt");
        reveal_strlit("blt.un");
        reveal_strlit("bge");
        reveal_strlit("bge.un");
        reveal_strlit("ble");
        reveal_strlit("ble.un");
        reveal_strlit("switch");
        reveal_strlit("call");
        reveal_strlit("callvirt");
        reveal_strlit("newobj.ctor");
        reveal_strlit("newobj");
        reveal_strlit("sizeof");
        reveal_strlit("alignof");
        reveal_strlit("heap.alloc");
        reveal_strlit("ptr.null");
        reveal_strlit("ptr.cast");
        reveal_strlit("ptr.fromint");
        reveal_strlit("ldobj");
        reveal_strlit("stobj");
        reveal_strlit("cpobj");
        reveal_strlit("initobj");
        reveal_strlit("value.pack");
        reveal_strlit("value.is");
        reveal_strlit("value.unpack");
        reveal_strlit("ldtoken");
        reveal_strlit("interface.borrow");
    }
    match parse_compact_instruction(word, rest, slots) {
        Err(f) => return Err(f),
        Ok(Some(c)) => return Ok(compact_instruction(c)),
        Ok(None) => {},
    }
    if str_eq(word, "unaligned.") {
        match unsigned_below(rest, 256) {
            Some(v) => Ok(plain_instruction(word, Operand::Byte(v as u8))),
            None => Err(Fault::new("expected unaligned. 1, 2, or 4")),
        }
    } else if str_eq(word, "ldc.i4") {
        match parse_i32_text(rest) {
            Some(v) => Ok(plain_instruction(word, Operand::Int32(v))),
            None => Err(Fault::new("expected Int32 literal")),
        }
    } else if str_eq(word, "ldc.i8") {
        match parse_i64_text(rest) {
            Some(v) => Ok(plain_instruction(word, Operand::Int64(v))),
            None => Err(Fault::new("expected Int64 literal")),
        }
    } else if str_eq(word, "ldc.r4") || str_eq(word, "ldc.r8") {
        Ok(plain_instruction(word, Operand::Float(text_of(rest))))
    } else if str_eq(word, "ldc.bool") {
        if str_eq(rest, "true") {
            Ok(plain_instruction(word, Operand::Bool(true)))
        } else if str_eq(rest, "false") {
            Ok(plain_instruction(word, Operand::Bool(false)))
        } else {
            Err(Fault::new("expected true or false"))
        }
    } else if str_eq(word, "ldstr") || str_eq(word, "error") || str_eq(word, "fault") {
        match decode_string(rest) {
            Some(s) => Ok(plain_instruction(word, Operand::Text(s))),
            None => Err(Fault::new("expected JSON-quoted string")),
        }
    } else if is_slot_word(word) {
        match resolve_slot(slots, word, rest) {
            Ok(i) => Ok(plain_instruction(word, Operand::Index(i))),
            Err(f) => Err(f),
        }
    } else if str_eq(word, "ldfld") || str_eq(word, "stfld") || str_eq(word, "ldflda") {
        parse_field_operand(word, rest, generics)
    } else if is_branch_word(word) {
        let chars = chars_of(rest);
        if let Err(f) = identifier(&chars) {
            return Err(f);
        }
        let mut labels: Vec<String> = Vec::new();
        labels.push(text_of(rest));
        proof {
            assert(strings_view(labels@) =~= seq![rest@]);
        }
        Ok(ParsedInstruction { instruction: Instruction { opcode: text_of(word), operand: Operand::Index(0) }, labels, field: None })
    } else if str_eq(word, "switch") {
        parse_switch(word, rest)
    } else {
        let chars = chars_of(rest);
        proof {
            lemma_find_from(chars@, '(', 0);
        }
        let has_paren = find_char(&chars, '(', 0).is_some();
        proof {
            if has_paren {
                let k = find_from(chars@, '(', 0)->0;
                assert(rest@[k] == '(');
                assert(rest@.contains('('));
            } else {
                assert(!rest@.contains('('));
            }
        }
        let newobj = str_eq(word, "newobj");
        if str_eq(word, "call") || str_eq(word, "callvirt") || str_eq(word, "newobj.ctor") || (newobj && has_paren) {
            match parse_function_ref(rest) {
                Ok(f) => {
                    let opcode = if newobj {
                        "newobj.ctor"
                    } else {
                        word
                    };
                    proof {
                        reveal_strlit("newobj.ctor");
                    }
                    Ok(plain_instruction(opcode, Operand::Function(f)))
                },
                Err(e) => Err(e),
            }
        } else if newobj || is_type_word(word) {
            match parse_type(rest) {
                Ok(t) => Ok(plain_instruction(word, Operand::Type(t))),
                Err(e) => Err(e),
            }
        } else if chars.len() != 0 {
            Err(Fault::new("unexpected instruction operand"))
        } else {
            Ok(plain_instruction(word, Operand::Absent))
        }
    }
}

} // verus!
