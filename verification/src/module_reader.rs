//! Reading neoIL module text: a line-oriented assembler from text to a
//! module, its field references left for the caller to resolve.
use crate::assembler::{
    bind_type_parameters, bind_view, commas, lemma_commas, names_view, option_name_view, parse_function_ref,
    parse_module_reference, parse_slot, parse_type, piece, slot_names_view, spec_module_reference,
    spec_parse_function_ref, spec_parse_slot, spec_parse_type, SlotNames, SlotNamesView,
};
use crate::fault::Fault;
use crate::metadata::{valid_revision, is_valid_revision, FunctionRef, FunctionRefView, ModuleReference};
use crate::module_text::{
    body_view, option_string_view, parse_field, parse_function_header, parse_property, parse_type_header,
    refs_view, spec_field, spec_function_header, spec_property, spec_type_header, bind_views_of,
    FieldDef, FieldDefView, FunctionDef, FunctionDefView, NativeImport, PropertyDef, PropertyDefView,
    TypeDef, TypeDefView, bind_all, split_word_chars, split_word,
};
use crate::neoil::{
    parse_instruction, parsed_view, spec_instruction, strings_view, Instruction, InstructionView, Operand,
    OperandView, ParsedInstruction, ParsedView,
};
use crate::numbers::{decimal, parse_unsigned, push_decimal};
use crate::expressions::unsigned_below;
use crate::syntax::{
    chars_equal, identifier, identifier_error, is_identifier, slice_chars, string_of, trim, trim_chars,
};
use crate::text::{chars_of, push_str, str_eq};
use crate::types::{lemma_type_views, list_view, Type, TypeView};
use vstd::prelude::*;

verus! {

/// The first JSON string value at the start of a text (after whitespace), as
/// `serde_json`'s stream deserializer reads it, and the text after it.
pub uninterp spec fn json_string_prefix(text: Seq<char>) -> Option<(Seq<char>, Seq<char>)>;

/// Reads one JSON string value from the start of `text` with
/// `serde_json::Deserializer::from_str(text).into_iter::<String>()`, and
/// returns it with the text after it (from the stream's byte offset). The
/// contract only names the outcome; a read that fails or finds no value
/// gives `None`.
#[verifier::external_body]
fn read_json_string(text: &str) -> (r: Option<(String, String)>)
    ensures
        match r {
            Some((s, after)) => json_string_prefix(text@) == Some((s@, after@)),
            None => json_string_prefix(text@) is None,
        },
{
    let mut strings = serde_json::Deserializer::from_str(text).into_iter::<String>();
    match strings.next() {
        Some(Ok(s)) => Some((s, text[strings.byte_offset()..].to_string())),
        _ => None,
    }
}

/// A `.pinvoke "library" "entry" cdecl` operand: the library and entry point.
pub open spec fn spec_pinvoke(rest: Seq<char>) -> Result<(Seq<char>, Seq<char>), Seq<char>> {
    match json_string_prefix(rest) {
        None => Err("expected quoted native library"@),
        Some((library, after)) => match json_string_prefix(after) {
            None => Err("expected quoted native entry point"@),
            Some((entry, tail)) => if trim(tail) != "cdecl"@ {
                Err("expected cdecl calling convention"@)
            } else {
                Ok((library, entry))
            },
        },
    }
}

fn parse_pinvoke(rest: &str) -> (r: Result<NativeImport, Fault>)
    ensures
        match spec_pinvoke(rest@) {
            Ok((l, e)) => r matches Ok(n) && n.library@ == l && n.entry_point@ == e,
            Err(m) => r matches Err(f) && f.message@ == m,
        },
{
    let (library, after) = match read_json_string(rest) {
        Some(x) => x,
        None => return Err(Fault::new("expected quoted native library")),
    };
    let (entry_point, tail) = match read_json_string(after.as_str()) {
        Some(x) => x,
        None => return Err(Fault::new("expected quoted native entry point")),
    };
    let tail_chars = chars_of(tail.as_str());
    let trimmed = trim_chars(&tail_chars);
    if !chars_equal(&trimmed, "cdecl") {
        return Err(Fault::new("expected cdecl calling convention"));
    }
    Ok(NativeImport { library, entry_point })
}

/// The module references of a `(A, B#rev, ...)` list from the `k`th on.
pub open spec fn reference_list(s: Seq<char>, k: nat) -> Result<Seq<(Seq<char>, Option<Seq<char>>)>, Seq<char>>
    decreases commas(s, s.len()).len() + 1 - k,
{
    if k > commas(s, s.len()).len() {
        Ok(Seq::empty())
    } else {
        match spec_module_reference(trim(piece(s, k as int))) {
            Err(m) => Err(m),
            Ok(r) => match reference_list(s, k + 1) {
                Err(m) => Err(m),
                Ok(rest) => Ok(seq![r] + rest),
            },
        }
    }
}

/// A `.references (A, B#rev, ...)` operand.
pub open spec fn spec_references(rest: Seq<char>) -> Result<Seq<(Seq<char>, Option<Seq<char>>)>, Seq<char>> {
    if rest.len() < 2 || rest[0] != '(' || rest.last() != ')' {
        Err("expected .references (Module, ...)"@)
    } else {
        let names = rest.subrange(1, rest.len() - 1);
        if trim(names).len() == 0 {
            Ok(Seq::empty())
        } else {
            reference_list(names, 0)
        }
    }
}

pub open spec fn references_view(v: Seq<ModuleReference>) -> Seq<(Seq<char>, Option<Seq<char>>)> {
    Seq::new(v.len(), |i: int| (v[i].spec_name(), v[i].spec_revision()))
}

fn parse_references(rest: &str) -> (r: Result<Vec<ModuleReference>, Fault>)
    ensures
        match spec_references(rest@) {
            Ok(v) => r matches Ok(x) && references_view(x@) == v,
            Err(m) => r matches Err(f) && f.message@ == m,
        },
{
    let chars = chars_of(rest);
    let n = chars.len();
    if n < 2 || chars[0] != '(' || chars[n - 1] != ')' {
        return Err(Fault::new("expected .references (Module, ...)"));
    }
    let list = slice_chars(&chars, 1, n - 1);
    let trimmed = trim_chars(&list);
    let mut result: Vec<ModuleReference> = Vec::new();
    if trimmed.len() == 0 {
        assert(references_view(result@) =~= Seq::<(Seq<char>, Option<Seq<char>>)>::empty());
        return Ok(result);
    }
    assert(list@ =~= rest@.subrange(1, rest@.len() - 1));
    assert(spec_references(rest@) == reference_list(list@, 0));
    let ghost sep = commas(list@, list@.len());
    let mut positions: Vec<usize> = Vec::new();
    let mut i: usize = 0;
    while i < list.len()
        invariant
            i <= list@.len(),
            positions@.len() == commas(list@, i as nat).len(),
            forall|k: int|
                0 <= k < positions@.len() ==> positions@[k] as int == #[trigger] commas(list@, i as nat)[k],
        decreases list.len() - i,
    {
        if list[i] == ',' {
            positions.push(i);
        }
        i += 1;
    }
    proof {
        lemma_commas(list@, list@.len());
    }
    let len = list.len();
    let mut k: usize = 0;
    loop
        invariant
            spec_references(rest@) == reference_list(list@, 0),
            len == list@.len(),
            k <= positions@.len(),
            sep == commas(list@, list@.len()),
            positions@.len() == sep.len(),
            forall|j: int| 0 <= j < positions@.len() ==> positions@[j] as int == #[trigger] sep[j],
            forall|j: int| 0 <= j < sep.len() ==> 0 <= #[trigger] sep[j] < list@.len(),
            forall|j: int, l: int| 0 <= j < l < sep.len() ==> sep[j] < sep[l],
            result@.len() == k,
            reference_list(list@, 0) == match reference_list(list@, k as nat) {
                Ok(rest) => Ok(references_view(result@) + rest),
                Err(m) => Err::<Seq<(Seq<char>, Option<Seq<char>>)>, Seq<char>>(m),
            },
        decreases positions@.len() - k,
    {
        let start = if k == 0 {
            0
        } else {
            assert(positions@[k - 1] as int == sep[k - 1]);
            assert(sep[k - 1] < list@.len());
            positions[k - 1] + 1
        };
        let end = if k < positions.len() {
            positions[k]
        } else {
            len
        };
        proof {
            if k > 0 && k < positions.len() {
                assert(sep[k - 1] < sep[k as int]);
            }
        }
        let text = slice_chars(&list, start, end);
        assert(text@ == piece(list@, k as int));
        let name = trim_chars(&text);
        let reference = match parse_module_reference(&name) {
            Ok(m) => m,
            Err(f) => return Err(f),
        };
        let ghost old_result = result@;
        let ghost entry = (reference.spec_name(), reference.spec_revision());
        result.push(reference);
        proof {
            assert(references_view(result@) =~= references_view(old_result).push(entry));
            match reference_list(list@, (k + 1) as nat) {
                Ok(rest) => {
                    assert(references_view(old_result) + (seq![entry] + rest) =~= references_view(result@) + rest);
                },
                Err(m) => {},
            }
        }
        if k == positions.len() {
            proof {
                assert(references_view(result@) + Seq::<(Seq<char>, Option<Seq<char>>)>::empty()
                    =~= references_view(result@));
            }
            return Ok(result);
        }
        k += 1;
    }
}

/// The views of a list.
pub open spec fn views<T: View>(v: Seq<T>) -> Seq<T::V> {
    Seq::new(v.len(), |i: int| v[i]@)
}

pub proof fn lemma_views_push<T: View>(v: Seq<T>, x: T)
    ensures
        views(v.push(x)) == views(v).push(x@),
{
    assert(views(v.push(x)) =~= views(v).push(x@));
}

/// An assembled module.
#[derive(Debug)]
pub struct Module {
    pub name: String,
    pub revision: Option<String>,
    pub references: Option<Vec<ModuleReference>>,
    pub entry: String,
    pub types: Vec<TypeDef>,
    pub functions: Vec<FunctionDef>,
}

pub ghost struct ModuleView {
    pub name: Seq<char>,
    pub revision: Option<Seq<char>>,
    pub references: Option<Seq<(Seq<char>, Option<Seq<char>>)>>,
    pub entry: Seq<char>,
    pub types: Seq<TypeDefView>,
    pub functions: Seq<FunctionDefView>,
}

impl View for Module {
    type V = ModuleView;

    open spec fn view(&self) -> ModuleView {
        ModuleView {
            name: self.name@,
            revision: option_string_view(self.revision),
            references: match self.references {
                Some(r) => Some(references_view(r@)),
                None => None,
            },
            entry: self.entry@,
            types: views(self.types@),
            functions: views(self.functions@),
        }
    }
}

/// A field named by `Type::Field` in an instruction, to resolve once every
/// type is known: the function's position, the instruction's, the owner,
/// the field's name and the source line.
#[derive(Debug)]
pub struct FieldFixup {
    pub function: usize,
    pub pc: usize,
    pub owner: Type,
    pub name: String,
    pub line: usize,
}

pub ghost struct FieldFixupView {
    pub function: usize,
    pub pc: usize,
    pub owner: TypeView,
    pub name: Seq<char>,
    pub line: usize,
}

impl View for FieldFixup {
    type V = FieldFixupView;

    open spec fn view(&self) -> FieldFixupView {
        FieldFixupView { function: self.function, pc: self.pc, owner: self.owner@, name: self.name@, line: self.line }
    }
}

/// A branch target to fill in once the function's labels are known.
#[derive(Debug)]
pub struct Branch {
    pub pc: usize,
    pub slot: Option<usize>,
    pub label: String,
    pub line: usize,
}

pub ghost struct BranchView {
    pub pc: usize,
    pub slot: Option<usize>,
    pub label: Seq<char>,
    pub line: usize,
}

impl View for Branch {
    type V = BranchView;

    open spec fn view(&self) -> BranchView {
        BranchView { pc: self.pc, slot: self.slot, label: self.label@, line: self.line }
    }
}

/// A label and the instruction position it names.
#[derive(Debug)]
pub struct Label {
    pub name: String,
    pub pc: usize,
}

impl View for Label {
    type V = (Seq<char>, usize);

    open spec fn view(&self) -> (Seq<char>, usize) {
        (self.name@, self.pc)
    }
}

/// A function being read.
#[derive(Debug)]
pub struct Pending {
    pub function: FunctionDef,
    pub labels: Vec<Label>,
    pub branches: Vec<Branch>,
    pub inline_parameters: bool,
}

pub ghost struct PendingView {
    pub function: FunctionDefView,
    pub labels: Seq<(Seq<char>, usize)>,
    pub branches: Seq<BranchView>,
    pub inline_parameters: bool,
}

impl View for Pending {
    type V = PendingView;

    open spec fn view(&self) -> PendingView {
        PendingView {
            function: self.function@,
            labels: views(self.labels@),
            branches: views(self.branches@),
            inline_parameters: self.inline_parameters,
        }
    }
}

/// What has been read so far.
#[derive(Debug)]
pub struct Assembly {
    pub module: Module,
    pub fixups: Vec<FieldFixup>,
    pub function: Option<Pending>,
    pub typedef: Option<TypeDef>,
    pub enclosing: Vec<TypeDef>,
    pub property: Option<PropertyDef>,
}

pub ghost struct AssemblyView {
    pub module: ModuleView,
    pub fixups: Seq<FieldFixupView>,
    pub function: Option<PendingView>,
    pub typedef: Option<TypeDefView>,
    pub enclosing: Seq<TypeDefView>,
    pub property: Option<PropertyDefView>,
}

pub open spec fn option_view<T: View>(o: Option<T>) -> Option<T::V> {
    match o {
        Some(x) => Some(x@),
        None => None,
    }
}

impl View for Assembly {
    type V = AssemblyView;

    open spec fn view(&self) -> AssemblyView {
        AssemblyView {
            module: self.module@,
            fixups: views(self.fixups@),
            function: option_view(self.function),
            typedef: option_view(self.typedef),
            enclosing: views(self.enclosing@),
            property: option_view(self.property),
        }
    }
}

/// A property with its types bound by a type's parameter names.
pub open spec fn bind_property(p: PropertyDefView, generics: Seq<Option<Seq<char>>>) -> PropertyDefView {
    PropertyDefView {
        parameters: bind_views_of(p.parameters, generics),
        ty: bind_view(p.ty, generics),
        ..p
    }
}

/// A function with its parameter, return and local types bound by a type's
/// parameter names.
pub open spec fn bind_function(f: FunctionDefView, generics: Seq<Option<Seq<char>>>) -> FunctionDefView {
    FunctionDefView {
        parameters: bind_views_of(f.parameters, generics),
        return_type: bind_view(f.return_type, generics),
        locals: bind_views_of(f.locals, generics),
        ..f
    }
}

/// The instruction position a label names, the first such label from `i` on.
pub open spec fn label_target(labels: Seq<(Seq<char>, usize)>, name: Seq<char>, i: int) -> Option<usize>
    decreases labels.len() - i,
{
    if i < 0 || i >= labels.len() {
        None
    } else if labels[i].0 == name {
        Some(labels[i].1)
    } else {
        label_target(labels, name, i + 1)
    }
}

/// Whether an opcode branches to one label.
pub open spec fn branches_once(op: Seq<char>) -> bool {
    crate::neoil::is_branch(op)
}

/// The body with one branch target filled in.
pub open spec fn patch(body: Seq<InstructionView>, pc: usize, slot: Option<usize>, target: usize) -> Result<
    Seq<InstructionView>,
    Seq<char>,
> {
    if pc >= body.len() {
        Err("invalid branch fixup"@)
    } else {
        let ins = body[pc as int];
        match ins.operand {
            OperandView::Targets(ts) => match slot {
                Some(k) => if k < ts.len() {
                    Ok(body.update(pc as int, InstructionView { opcode: ins.opcode, operand: OperandView::Targets(ts.update(k as int, target)) }))
                } else {
                    Err("invalid switch fixup"@)
                },
                None => Err("invalid switch fixup"@),
            },
            OperandView::Index(_) => if branches_once(ins.opcode) {
                Ok(body.update(pc as int, InstructionView { opcode: ins.opcode, operand: OperandView::Index(target) }))
            } else {
                Err("invalid branch fixup"@)
            },
            _ => Err("invalid branch fixup"@),
        }
    }
}

/// The branch opcodes: each of `br`, `brtrue`, `brfalse`, `beq`, `bne.un`,
/// `bgt`, `bgt.un`, `blt`, `blt.un`, `bge`, `bge.un`, `ble` and `ble.un`,
/// followed by an identifier, reads as that opcode branching to the one
/// label the identifier names, its target left at zero until the label is
/// resolved; followed by anything else it is refused as no identifier. When
/// the labels are resolved, the target of such an instruction is filled in.
pub proof fn law_branch_opcodes(
    word: Seq<char>,
    rest: Seq<char>,
    slots: SlotNamesView,
    generics: Seq<Option<Seq<char>>>,
    body: Seq<InstructionView>,
    pc: usize,
    target: usize,
)
    requires
        word == "br"@ || word == "brtrue"@ || word == "brfalse"@ || word == "beq"@ || word == "bne.un"@ || word == "bgt"@ || word == "bgt.un"@ || word == "blt"@ || word == "blt.un"@ || word == "bge"@ || word == "bge.un"@ || word == "ble"@ || word == "ble.un"@,
    ensures
        is_identifier(rest) ==> spec_instruction(word, rest, slots, generics) == Ok::<_, Seq<char>>(
            ParsedView {
                instruction: InstructionView { opcode: word, operand: OperandView::Index(0) },
                labels: seq![rest],
                field: None,
            },
        ),
        !is_identifier(rest) ==> spec_instruction(word, rest, slots, generics) == Err::<ParsedView, _>(
            identifier_error(rest),
        ),
        pc < body.len() && body[pc as int].opcode == word && body[pc as int].operand is Index ==> patch(
            body,
            pc,
            None,
            target,
        ) == Ok::<_, Seq<char>>(
            body.update(pc as int, InstructionView { opcode: word, operand: OperandView::Index(target) }),
        ),
{
    reveal_strlit("br");
    reveal_strlit("brtrue");
    reveal_strlit("brfalse");
    reveal_strlit("beq");
    reveal_strlit("bne.un");
    reveal_strlit("bgt");
    reveal_strlit("bgt.un");
    reveal_strlit("blt");
    reveal_strlit("blt.un");
    reveal_strlit("bge");
    reveal_strlit("bge.un");
    reveal_strlit("ble");
    reveal_strlit("ble.un");
    reveal_strlit("ldc.i4.s");
    reveal_strlit("ldc.i4.");
    reveal_strlit("unaligned.");
    reveal_strlit("ldc.i4");
    reveal_strlit("ldc.i8");
    reveal_strlit("ldc.r4");
    reveal_strlit("ldc.r8");
    reveal_strlit("ldc.bool");
    reveal_strlit("ldstr");
    reveal_strlit("error");
    reveal_strlit("fault");
    reveal_strlit("ldarg");
    reveal_strlit("ldarga");
    reveal_strlit("starg");
    reveal_strlit("ldloc");
    reveal_strlit("ldloca");
    reveal_strlit("stloc");
    reveal_strlit("ldfld");
    reveal_strlit("stfld");
    reveal_strlit("ldflda");
    assert(word.len() >= 2 && word[0] == 'b');
    if word.len() >= 7 {
        assert(word.subrange(0, 7)[0] == word[0]);
    }
    if word.len() >= 6 {
        assert(word.subrange(0, 5)[0] == word[0]);
    }
}

/// The body with the targets of the branches from the `i`th on filled in.
pub open spec fn resolve_branches(
    body: Seq<InstructionView>,
    labels: Seq<(Seq<char>, usize)>,
    branches: Seq<BranchView>,
    i: nat,
) -> Result<Seq<InstructionView>, Seq<char>>
    decreases branches.len() - i,
{
    if i >= branches.len() {
        Ok(body)
    } else {
        let b = branches[i as int];
        match label_target(labels, b.label, 0) {
            None => Err("undefined label "@ + b.label + " used on line "@ + decimal(b.line as nat)),
            Some(t) => match patch(body, b.pc, b.slot, t) {
                Err(m) => Err(m),
                Ok(next) => resolve_branches(next, labels, branches, i + 1),
            },
        }
    }
}

/// A directive inside a type, outside any function: the type after it, and
/// the property it opens, if any.
pub open spec fn type_directive(d: TypeDefView, word: Seq<char>, rest: Seq<char>) -> Result<
    (TypeDefView, Option<PropertyDefView>),
    Seq<char>,
> {
    if word == ".property"@ {
        match spec_property(rest, d.generic_parameters) {
            Err(m) => Err(m),
            Ok(p) => Ok((d, Some(p))),
        }
    } else if word == ".custom"@ {
        match spec_parse_function_ref(rest) {
            Err(m) => Err(m),
            Ok(f) => Ok((TypeDefView { custom_attributes: d.custom_attributes.push(f), ..d }, None)),
        }
    } else if word == ".pack"@ {
        if d.packing is Some {
            Err("duplicate .pack"@)
        } else {
            match parse_unsigned(rest, 0x1_0000_0000) {
                None => Err("expected unsigned packing size"@),
                Some(v) => Ok((TypeDefView { packing: Some(v as u32), ..d }, None)),
            }
        }
    } else if word == ".size"@ {
        if d.minimum_size is Some {
            Err("duplicate .size"@)
        } else {
            match parse_unsigned(rest, 0x1_0000_0000) {
                None => Err("expected unsigned record size"@),
                Some(v) => Ok((TypeDefView { minimum_size: Some(v as u32), ..d }, None)),
            }
        }
    } else if word == ".implements"@ {
        match spec_parse_type(rest) {
            Err(m) => Err(m),
            Ok(t) => Ok((TypeDefView { implements: d.implements.push(bind_view(t, d.generic_parameters)), ..d }, None)),
        }
    } else if word == ".field"@ {
        match spec_field(rest, d.generic_parameters) {
            Err(m) => Err(m),
            Ok(f) => Ok((TypeDefView { fields: d.fields.push(f), ..d }, None)),
        }
    } else {
        Err("expected .type, .interface, .implements, .field, .property, .pack, .size, .custom, .method or .end"@)
    }
}

/// The slot names of a function being read.
pub open spec fn slots_of(f: FunctionDefView) -> SlotNamesView {
    SlotNamesView { instance: f.instance, parameter_names: f.parameter_names, local_names: f.local_names }
}

/// The branches one instruction leaves to fill in.
pub open spec fn new_branches(p: ParsedView, pc: usize, line: usize) -> Seq<BranchView> {
    match p.instruction.operand {
        OperandView::Targets(_) => Seq::new(
            p.labels.len(),
            |k: int| BranchView { pc, slot: Some(k as usize), label: p.labels[k], line },
        ),
        _ => Seq::new(p.labels.len(), |k: int| BranchView { pc, slot: None, label: p.labels[k], line }),
    }
}

/// Whether nothing but declarations has been read of a function yet.
pub open spec fn before_body(f: PendingView) -> bool {
    f.function.body.len() == 0 && f.labels.len() == 0
}

/// A line inside a function on source line `n`: the function after it, and
/// the field it leaves to resolve, if any. `function_index` is the position
/// the function will take in the module; `generics` the enclosing type's
/// parameter names.
pub open spec fn function_directive(
    f: PendingView,
    word: Seq<char>,
    rest: Seq<char>,
    line: Seq<char>,
    generics: Seq<Option<Seq<char>>>,
    n: usize,
    function_index: usize,
) -> Result<(PendingView, Option<FieldFixupView>), Seq<char>> {
    let def = f.function;
    if word == ".custom"@ {
        if !before_body(f) {
            Err(".custom must precede instructions and labels"@)
        } else {
            match spec_parse_function_ref(rest) {
                Err(m) => Err(m),
                Ok(r) => Ok((PendingView { function: FunctionDefView { custom_attributes: def.custom_attributes.push(r), ..def }, ..f }, None)),
            }
        }
    } else if word == ".pinvoke"@ {
        if def.pinvoke is Some || !before_body(f) {
            Err("expected one .pinvoke directive before any body"@)
        } else {
            match spec_pinvoke(rest) {
                Err(m) => Err(m),
                Ok(native) => Ok((PendingView { function: FunctionDefView { pinvoke: Some(native), ..def }, ..f }, None)),
            }
        }
    } else if word == ".methodimpl"@ {
        if rest != "InternalCall"@ || def.internal_call {
            Err("expected one .methodimpl InternalCall directive"@)
        } else if !before_body(f) {
            Err(".methodimpl must precede any body"@)
        } else {
            Ok((PendingView { function: FunctionDefView { internal_call: true, ..def }, ..f }, None))
        }
    } else if word == ".param"@ || word == ".local"@ {
        if !before_body(f) {
            Err("parameters and locals must precede instructions"@)
        } else if word == ".param"@ && f.inline_parameters {
            Err("inline parameters cannot be combined with .param"@)
        } else {
            match spec_parse_slot(rest) {
                Err(m) => Err(m),
                Ok((name, ty)) => Ok(
                    (
                        PendingView {
                            function: if word == ".param"@ {
                                FunctionDefView {
                                    parameters: def.parameters.push(ty),
                                    parameter_names: def.parameter_names.push(name),
                                    ..def
                                }
                            } else {
                                FunctionDefView { locals: def.locals.push(ty), local_names: def.local_names.push(name), ..def }
                            },
                            ..f
                        },
                        None,
                    ),
                ),
            }
        }
    } else if line.len() > 0 && line.last() == ':' {
        let label = line.drop_last();
        if !is_identifier(label) {
            Err(identifier_error(label))
        } else if label_target(f.labels, label, 0) is Some {
            Err("duplicate label"@)
        } else {
            Ok((PendingView { labels: f.labels.push((label, def.body.len() as usize)), ..f }, None))
        }
    } else {
        match spec_instruction(word, rest, slots_of(def), generics) {
            Err(m) => Err(m),
            Ok(p) => {
                let pc = def.body.len() as usize;
                Ok(
                    (
                        PendingView {
                            function: FunctionDefView { body: def.body.push(p.instruction), ..def },
                            branches: f.branches + new_branches(p, pc, n),
                            ..f
                        },
                        match p.field {
                            Some((owner, name)) => Some(
                                FieldFixupView { function: function_index, pc, owner, name, line: n },
                            ),
                            None => None,
                        },
                    ),
                )
            },
        }
    }
}

/// A module-level line: `.module`, `.entry`, `.references`, `.revision`, or
/// a type or function opening.
pub open spec fn module_directive(st: AssemblyView, word: Seq<char>, rest: Seq<char>) -> Result<AssemblyView, Seq<char>> {
    let m = st.module;
    if word == ".module"@ {
        if !is_identifier(rest) {
            Err(identifier_error(rest))
        } else if m.name.len() != 0 {
            Err("duplicate .module"@)
        } else {
            Ok(AssemblyView { module: ModuleView { name: rest, ..m }, ..st })
        }
    } else if word == ".entry"@ {
        if !is_identifier(rest) {
            Err(identifier_error(rest))
        } else if m.entry.len() != 0 {
            Err("duplicate .entry"@)
        } else {
            Ok(AssemblyView { module: ModuleView { entry: rest, ..m }, ..st })
        }
    } else if word == ".references"@ {
        if m.references is Some {
            Err("duplicate .references"@)
        } else {
            match spec_references(rest) {
                Err(e) => Err(e),
                Ok(r) => Ok(AssemblyView { module: ModuleView { references: Some(r), ..m }, ..st }),
            }
        }
    } else if word == ".revision"@ {
        if m.revision is Some || !valid_revision(rest) {
            Err("invalid or duplicate .revision"@)
        } else {
            Ok(AssemblyView { module: ModuleView { revision: Some(rest), ..m }, ..st })
        }
    } else if word == ".type"@ || word == ".interface"@ {
        match spec_type_header(word, rest, st.typedef, st.enclosing.len()) {
            Err(e) => Err(e),
            Ok(d) => Ok(
                AssemblyView {
                    typedef: Some(d),
                    enclosing: match st.typedef {
                        Some(parent) => st.enclosing.push(parent),
                        None => st.enclosing,
                    },
                    ..st
                },
            ),
        }
    } else if word == ".function"@ || word == ".method"@ {
        match spec_function_header(word, rest, st.typedef) {
            Err(e) => Err(e),
            Ok((f, inline)) => Ok(
                AssemblyView {
                    function: Some(PendingView { function: f, labels: Seq::empty(), branches: Seq::empty(), inline_parameters: inline }),
                    ..st
                },
            ),
        }
    } else {
        Err("expected .module, .entry, .type or .function"@)
    }
}

/// The parameter names of the type being read, or none.
pub open spec fn generics_of(st: AssemblyView) -> Seq<Option<Seq<char>>> {
    match st.typedef {
        Some(d) => d.generic_parameters,
        None => Seq::empty(),
    }
}

/// One directive or instruction line, numbered `n`, split into its first
/// word and the trimmed rest.
#[verifier::opaque]
pub open spec fn spec_step(st: AssemblyView, n: usize, word: Seq<char>, rest: Seq<char>, line: Seq<char>) -> Result<
    AssemblyView,
    Seq<char>,
> {
    if st.property is Some {
        let p = st.property->0;
        if word == ".end"@ {
            if rest.len() != 0 {
                Err("unexpected property .end operand"@)
            } else {
                match st.typedef {
                    None => Err("property requires type"@),
                    Some(d) => Ok(
                        AssemblyView {
                            typedef: Some(TypeDefView { properties: d.properties.push(p), ..d }),
                            property: None,
                            ..st
                        },
                    ),
                }
            }
        } else if word != ".get"@ && word != ".set"@ {
            Err("expected .get, .set or .end in property"@)
        } else if (word == ".get"@ && p.getter is Some) || (word == ".set"@ && p.setter is Some) {
            Err("duplicate property accessor"@)
        } else {
            match spec_parse_function_ref(rest) {
                Err(m) => Err(m),
                Ok(f) => match st.typedef {
                    None => Err("property requires type"@),
                    Some(d) => Ok(
                        AssemblyView {
                            property: Some(
                                bind_property(
                                    if word == ".get"@ {
                                        PropertyDefView { getter: Some(f), ..p }
                                    } else {
                                        PropertyDefView { setter: Some(f), ..p }
                                    },
                                    d.generic_parameters,
                                ),
                            ),
                            ..st
                        },
                    ),
                },
            }
        }
    } else if word == ".end"@ {
        if rest.len() != 0 {
            Err(".end has no operand"@)
        } else {
            match st.function {
                Some(f) => match resolve_branches(f.function.body, f.labels, f.branches, 0) {
                    Err(m) => Err(m),
                    Ok(body) => {
                        let done = FunctionDefView { body, ..f.function };
                        let bound = match st.typedef {
                            Some(d) => bind_function(done, d.generic_parameters),
                            None => done,
                        };
                        Ok(
                            AssemblyView {
                                module: ModuleView { functions: st.module.functions.push(bound), ..st.module },
                                function: None,
                                ..st
                            },
                        )
                    },
                },
                None => match st.typedef {
                    Some(d) => Ok(
                        AssemblyView {
                            module: ModuleView { types: st.module.types.push(d), ..st.module },
                            typedef: if st.enclosing.len() > 0 {
                                Some(st.enclosing.last())
                            } else {
                                None
                            },
                            enclosing: if st.enclosing.len() > 0 {
                                st.enclosing.drop_last()
                            } else {
                                st.enclosing
                            },
                            ..st
                        },
                    ),
                    None => Err("unexpected .end"@),
                },
            }
        }
    } else if st.function is None && word != ".method"@ && word != ".type"@ && word != ".interface"@
        && st.typedef is Some {
        match type_directive(st.typedef->0, word, rest) {
            Err(m) => Err(m),
            Ok((d, p)) => Ok(AssemblyView { typedef: Some(d), property: p, ..st }),
        }
    } else if st.function is Some {
        match function_directive(
            st.function->0,
            word,
            rest,
            line,
            generics_of(st),
            n,
            st.module.functions.len() as usize,
        ) {
            Err(m) => Err(m),
            Ok((f, fixup)) => Ok(
                AssemblyView {
                    function: Some(f),
                    fixups: match fixup {
                        Some(x) => st.fixups.push(x),
                        None => st.fixups,
                    },
                    ..st
                },
            ),
        }
    } else {
        module_directive(st, word, rest)
    }
}

/// The first word of a trimmed line and the trimmed rest.
pub open spec fn word_and_rest(line: Seq<char>) -> (Seq<char>, Seq<char>) {
    match crate::module_text::split_word(line) {
        Some((a, b)) => (a, trim(b)),
        None => (line, Seq::empty()),
    }
}

/// One source line, numbered `n`: blank and `;` comment lines are skipped;
/// an error is prefixed with its line number.
pub open spec fn spec_line(st: AssemblyView, n: usize, raw: Seq<char>) -> Result<AssemblyView, Seq<char>> {
    let line = trim(raw);
    if line.len() == 0 || line[0] == ';' {
        Ok(st)
    } else {
        let (word, rest) = word_and_rest(line);
        match spec_step(st, n, word, rest, line) {
            Ok(next) => Ok(next),
            Err(m) => Err("line "@ + decimal(n as nat) + ": "@ + m),
        }
    }
}

/// The positions of the line breaks among the first `n` characters.
pub open spec fn breaks(s: Seq<char>, n: nat) -> Seq<int>
    decreases n,
{
    if n == 0 || n > s.len() {
        Seq::empty()
    } else if s[n - 1] == '\n' {
        breaks(s, (n - 1) as nat).push(n - 1)
    } else {
        breaks(s, (n - 1) as nat)
    }
}

/// The `k`th line of a text.
pub open spec fn line_of(s: Seq<char>, k: int) -> Seq<char> {
    let b = breaks(s, s.len());
    s.subrange(
        if k == 0 {
            0
        } else {
            b[k - 1] + 1
        },
        if k < b.len() {
            b[k]
        } else {
            s.len() as int
        },
    )
}

/// The state after the lines from the `k`th on.
pub open spec fn read_lines(s: Seq<char>, st: AssemblyView, k: nat) -> Result<AssemblyView, Seq<char>>
    decreases breaks(s, s.len()).len() + 1 - k,
{
    if k > breaks(s, s.len()).len() {
        Ok(st)
    } else {
        match spec_line(st, (k + 1) as usize, line_of(s, k as int)) {
            Err(m) => Err(m),
            Ok(next) => read_lines(s, next, k + 1),
        }
    }
}

/// Nothing read yet.
pub open spec fn empty_assembly() -> AssemblyView {
    AssemblyView {
        module: ModuleView {
            name: Seq::empty(),
            revision: None,
            references: None,
            entry: Seq::empty(),
            types: Seq::empty(),
            functions: Seq::empty(),
        },
        fixups: Seq::empty(),
        function: None,
        typedef: None,
        enclosing: Seq::empty(),
        property: None,
    }
}

/// What the assembler makes of module text: the module and the fields its
/// instructions name by `Type::Field`, or the first error.
pub open spec fn spec_parse_module(source: Seq<char>) -> Result<(ModuleView, Seq<FieldFixupView>), Seq<char>> {
    match read_lines(source, empty_assembly(), 0) {
        Err(m) => Err(m),
        Ok(st) => if st.function is Some || st.typedef is Some {
            Err("missing .end"@)
        } else if st.module.name.len() == 0 {
            Err(".module is required"@)
        } else {
            Ok((st.module, st.fixups))
        },
    }
}

fn type_line(d: TypeDef, word: &str, rest: &str) -> (r: Result<(TypeDef, Option<PropertyDef>), Fault>)
    ensures
        match type_directive(d@, word@, rest@) {
            Ok((t, p)) => r matches Ok((x, q)) && x@ == t && option_view(q) == p,
            Err(m) => r matches Err(f) && f.message@ == m,
        },
{
    proof {
        reveal_strlit(".property");
        reveal_strlit(".custom");
        reveal_strlit(".pack");
        reveal_strlit(".size");
        reveal_strlit(".implements");
        reveal_strlit(".field");
    }
    let mut d = d;
    let ghost old = d@;
    if str_eq(word, ".property") {
        match parse_property(rest, &d.generic_parameters) {
            Err(f) => Err(f),
            Ok(p) => Ok((d, Some(p))),
        }
    } else if str_eq(word, ".custom") {
        match parse_function_ref(rest) {
            Err(f) => Err(f),
            Ok(f) => {
                let ghost fv = f@;
                d.custom_attributes.push(f);
                proof {
                    assert(refs_view(d.custom_attributes@) =~= old.custom_attributes.push(fv));
                    assert(d@ =~= TypeDefView { custom_attributes: old.custom_attributes.push(fv), ..old });
                }
                Ok((d, None))
            },
        }
    } else if str_eq(word, ".pack") {
        if d.packing.is_some() {
            return Err(Fault::new("duplicate .pack"));
        }
        match unsigned_below(rest, 0x1_0000_0000) {
            None => Err(Fault::new("expected unsigned packing size")),
            Some(v) => {
                d.packing = Some(v as u32);
                Ok((d, None))
            },
        }
    } else if str_eq(word, ".size") {
        if d.minimum_size.is_some() {
            return Err(Fault::new("duplicate .size"));
        }
        match unsigned_below(rest, 0x1_0000_0000) {
            None => Err(Fault::new("expected unsigned record size")),
            Some(v) => {
                d.minimum_size = Some(v as u32);
                Ok((d, None))
            },
        }
    } else if str_eq(word, ".implements") {
        match parse_type(rest) {
            Err(f) => Err(f),
            Ok(t) => {
                let bound = bind_type_parameters(&t, &d.generic_parameters);
                let ghost bv = bound@;
                let ghost before = d.implements@;
                d.implements.push(bound);
                proof {
                    lemma_type_views(before, before.len());
                    lemma_type_views(d.implements@, d.implements@.len());
                    assert(list_view(d.implements@) =~= list_view(before).push(bv));
                }
                Ok((d, None))
            },
        }
    } else if str_eq(word, ".field") {
        match parse_field(rest, &d.generic_parameters) {
            Err(f) => Err(f),
            Ok(field) => {
                let ghost fv = field@;
                d.fields.push(field);
                proof {
                    assert(Seq::new(d.fields@.len(), |i: int| d.fields@[i]@) =~= old.fields.push(fv));
                }
                Ok((d, None))
            },
        }
    } else {
        Err(
            Fault::new(
                "expected .type, .interface, .implements, .field, .property, .pack, .size, .custom, .method or .end",
            ),
        )
    }
}

fn clone_names(v: &Vec<Option<String>>) -> (r: Vec<Option<String>>)
    ensures
        names_view(r@) == names_view(v@),
{
    let mut r: Vec<Option<String>> = Vec::new();
    let mut i: usize = 0;
    while i < v.len()
        invariant
            i <= v@.len(),
            r@.len() == i,
            forall|j: int| 0 <= j < i ==> option_name_view(#[trigger] r@[j]) == option_name_view(v@[j]),
        decreases v.len() - i,
    {
        let x = match &v[i] {
            Some(s) => Some(s.clone()),
            None => None,
        };
        r.push(x);
        i += 1;
    }
    assert(names_view(r@) =~= names_view(v@));
    r
}

fn find_label(labels: &Vec<Label>, name: &Vec<char>) -> (r: Option<usize>)
    ensures
        r == label_target(views(labels@), name@, 0),
{
    let ghost lv = views(labels@);
    let mut i: usize = 0;
    while i < labels.len()
        invariant
            i <= labels@.len(),
            lv == views(labels@),
            label_target(lv, name@, 0) == label_target(lv, name@, i as int),
        decreases labels.len() - i,
    {
        assert(lv[i as int] == labels@[i as int]@);
        if chars_equal(name, labels[i].name.as_str()) {
            return Some(labels[i].pc);
        }
        i += 1;
    }
    None
}

fn branches_of(p: &ParsedInstruction, pc: usize, n: usize) -> (r: Vec<Branch>)
    ensures
        views(r@) == new_branches(parsed_view(*p), pc, n),
{
    let targets = match &p.instruction.operand {
        Operand::Targets(_) => true,
        _ => false,
    };
    let ghost pv = parsed_view(*p);
    let mut r: Vec<Branch> = Vec::new();
    let mut k: usize = 0;
    while k < p.labels.len()
        invariant
            k <= p.labels@.len(),
            pv == parsed_view(*p),
            targets == (pv.instruction.operand is Targets),
            r@.len() == k,
            forall|j: int| 0 <= j < k ==> #[trigger] views(r@)[j] == new_branches(pv, pc, n)[j],
        decreases p.labels.len() - k,
    {
        let b = Branch {
            pc,
            slot: if targets {
                Some(k)
            } else {
                None
            },
            label: p.labels[k].clone(),
            line: n,
        };
        let ghost old = r@;
        r.push(b);
        proof {
            assert(pv.labels[k as int] == p.labels@[k as int]@);
            assert forall|j: int| 0 <= j < k + 1 implies #[trigger] views(r@)[j] == new_branches(pv, pc, n)[j] by {
                if j < k {
                    assert(views(r@)[j] == r@[j]@);
                    assert(r@[j] == old[j]);
                    assert(views(old)[j] == old[j]@);
                }
            }
        }
        k += 1;
    }
    assert(views(r@) =~= new_branches(pv, pc, n));
    r
}

fn function_line(
    f: Pending,
    word: &str,
    rest: &str,
    line: &Vec<char>,
    generics: &Vec<Option<String>>,
    n: usize,
    function_index: usize,
) -> (r: Result<(Pending, Option<FieldFixup>), Fault>)
    ensures
        match function_directive(f@, word@, rest@, line@, names_view(generics@), n, function_index) {
            Ok((g, x)) => r matches Ok((h, y)) && h@ == g && option_view(y) == x,
            Err(m) => r matches Err(e) && e.message@ == m,
        },
{
    proof {
        reveal_strlit(".custom");
        reveal_strlit(".pinvoke");
        reveal_strlit(".methodimpl");
        reveal_strlit(".param");
        reveal_strlit(".local");
    }
    let mut f = f;
    let ghost old = f@;
    let ghost def = old.function;
    let fresh = f.function.body.len() == 0 && f.labels.len() == 0;
    if str_eq(word, ".custom") {
        if !fresh {
            return Err(Fault::new(".custom must precede instructions and labels"));
        }
        match parse_function_ref(rest) {
            Err(e) => Err(e),
            Ok(r) => {
                let ghost rv = r@;
                f.function.custom_attributes.push(r);
                proof {
                    assert(refs_view(f.function.custom_attributes@) =~= def.custom_attributes.push(rv));
                    assert(f@.function =~= FunctionDefView { custom_attributes: def.custom_attributes.push(rv), ..def });
                }
                Ok((f, None))
            },
        }
    } else if str_eq(word, ".pinvoke") {
        if f.function.pinvoke.is_some() || !fresh {
            return Err(Fault::new("expected one .pinvoke directive before any body"));
        }
        match parse_pinvoke(rest) {
            Err(e) => Err(e),
            Ok(native) => {
                f.function.pinvoke = Some(native);
                Ok((f, None))
            },
        }
    } else if str_eq(word, ".methodimpl") {
        if !str_eq(rest, "InternalCall") || f.function.internal_call {
            return Err(Fault::new("expected one .methodimpl InternalCall directive"));
        }
        if !fresh {
            return Err(Fault::new(".methodimpl must precede any body"));
        }
        f.function.internal_call = true;
        Ok((f, None))
    } else if str_eq(word, ".param") || str_eq(word, ".local") {
        if !fresh {
            return Err(Fault::new("parameters and locals must precede instructions"));
        }
        let is_param = str_eq(word, ".param");
        if is_param && f.inline_parameters {
            return Err(Fault::new("inline parameters cannot be combined with .param"));
        }
        match parse_slot(rest) {
            Err(e) => Err(e),
            Ok((name, ty)) => {
                let ghost nv = option_name_view(name);
                let ghost tv = ty@;
                if is_param {
                    let ghost before = f.function.parameters@;
                    let ghost names = f.function.parameter_names@;
                    f.function.parameters.push(ty);
                    f.function.parameter_names.push(name);
                    proof {
                        lemma_type_views(before, before.len());
                        lemma_type_views(f.function.parameters@, f.function.parameters@.len());
                        assert(list_view(f.function.parameters@) =~= list_view(before).push(tv));
                        assert(names_view(f.function.parameter_names@) =~= names_view(names).push(nv));
                    }
                } else {
                    let ghost before = f.function.locals@;
                    let ghost names = f.function.local_names@;
                    f.function.locals.push(ty);
                    f.function.local_names.push(name);
                    proof {
                        lemma_type_views(before, before.len());
                        lemma_type_views(f.function.locals@, f.function.locals@.len());
                        assert(list_view(f.function.locals@) =~= list_view(before).push(tv));
                        assert(names_view(f.function.local_names@) =~= names_view(names).push(nv));
                    }
                }
                Ok((f, None))
            },
        }
    } else if line.len() > 0 && line[line.len() - 1] == ':' {
        let label = slice_chars(line, 0, line.len() - 1);
        assert(label@ =~= line@.drop_last());
        if let Err(e) = identifier(&label) {
            return Err(e);
        }
        if find_label(&f.labels, &label).is_some() {
            return Err(Fault::new("duplicate label"));
        }
        let pc = f.function.body.len();
        let ghost before = f.labels@;
        let entry = Label { name: string_of(&label), pc };
        let ghost ev = entry@;
        f.labels.push(entry);
        proof {
            assert(views(f.labels@) =~= views(before).push(ev));
        }
        Ok((f, None))
    } else {
        let slots = SlotNames {
            instance: f.function.instance,
            parameter_names: clone_names(&f.function.parameter_names),
            local_names: clone_names(&f.function.local_names),
        };
        let parsed = match parse_instruction(word, rest, &slots, generics) {
            Ok(p) => p,
            Err(e) => return Err(e),
        };
        let pc = f.function.body.len();
        let new = branches_of(&parsed, pc, n);
        let ParsedInstruction { instruction, labels: _, field } = parsed;
        let ghost body = f.function.body@;
        let ghost iv = instruction@;
        f.function.body.push(instruction);
        let ghost old_branches = f.branches@;
        let ghost added = new@;
        let mut new = new;
        f.branches.append(&mut new);
        proof {
            assert(body_view(f.function.body@) =~= body_view(body).push(iv));
            let all = f.branches@;
            assert(all =~= old_branches + added);
            assert forall|j: int| 0 <= j < all.len() implies #[trigger] views(all)[j] == (views(old_branches)
                + views(added))[j] by {
                if j < old_branches.len() {
                    assert(all[j] == old_branches[j]);
                } else {
                    assert(all[j] == added[j - old_branches.len()]);
                }
            }
            assert(views(all) =~= views(old_branches) + views(added));
        }
        let fixup = match field {
            Some((owner, name)) => Some(FieldFixup { function: function_index, pc, owner, name, line: n }),
            None => None,
        };
        Ok((f, fixup))
    }
}

/// A function with its body replaced and, inside a type, its types bound.
pub open spec fn finished(f: FunctionDefView, body: Seq<InstructionView>, generics: Option<Seq<Option<Seq<char>>>>) -> FunctionDefView {
    let done = FunctionDefView { body, ..f };
    match generics {
        Some(g) => bind_function(done, g),
        None => done,
    }
}

pub open spec fn option_names(o: Option<&Vec<Option<String>>>) -> Option<Seq<Option<Seq<char>>>> {
    match o {
        Some(g) => Some(names_view(g@)),
        None => None,
    }
}

fn clone_targets(v: &Vec<usize>) -> (r: Vec<usize>)
    ensures
        r@ == v@,
{
    let mut r: Vec<usize> = Vec::new();
    let mut i: usize = 0;
    while i < v.len()
        invariant
            i <= v@.len(),
            r@ == v@.subrange(0, i as int),
        decreases v.len() - i,
    {
        r.push(v[i]);
        i += 1;
        assert(r@ =~= v@.subrange(0, i as int));
    }
    assert(r@ =~= v@);
    r
}

fn patch_body(body: &mut Vec<Instruction>, pc: usize, slot: Option<usize>, target: usize) -> (r: Result<(), Fault>)
    ensures
        match patch(body_view(old(body)@), pc, slot, target) {
            Ok(b) => r is Ok && body_view(final(body)@) == b,
            Err(m) => r matches Err(f) && f.message@ == m,
        },
{
    if pc >= body.len() {
        return Err(Fault::new("invalid branch fixup"));
    }
    let ghost before = body@;
    assert(body_view(before)[pc as int] == before[pc as int]@);
    let replacement = match &body[pc].operand {
        Operand::Targets(ts) => match slot {
            Some(k) => {
                if k < ts.len() {
                    let mut updated = clone_targets(ts);
                    updated.set(k, target);
                    Instruction { opcode: body[pc].opcode.clone(), operand: Operand::Targets(updated) }
                } else {
                    return Err(Fault::new("invalid switch fixup"));
                }
            },
            None => return Err(Fault::new("invalid switch fixup")),
        },
        Operand::Index(_) => {
            if is_branch_op(body[pc].opcode.as_str()) {
                Instruction { opcode: body[pc].opcode.clone(), operand: Operand::Index(target) }
            } else {
                return Err(Fault::new("invalid branch fixup"));
            }
        },
        _ => return Err(Fault::new("invalid branch fixup")),
    };
    let ghost rv = replacement@;
    body.set(pc, replacement);
    proof {
        assert(body_view(body@) =~= body_view(before).update(pc as int, rv));
    }
    Ok(())
}

fn is_branch_op(word: &str) -> (b: bool)
    ensures
        b == crate::neoil::is_branch(word@),
{
    str_eq(word, "br") || str_eq(word, "brtrue") || str_eq(word, "brfalse") || str_eq(word, "beq")
        || str_eq(word, "bne.un") || str_eq(word, "bgt") || str_eq(word, "bgt.un") || str_eq(word, "blt")
        || str_eq(word, "blt.un") || str_eq(word, "bge") || str_eq(word, "bge.un") || str_eq(word, "ble")
        || str_eq(word, "ble.un")
}

/// The function of a closing `.end`: its branches filled in and, inside a
/// type, its types bound by the type's parameter names.
fn finish_function(f: Pending, generics: Option<&Vec<Option<String>>>) -> (r: Result<FunctionDef, Fault>)
    ensures
        match resolve_branches(f@.function.body, f@.labels, f@.branches, 0) {
            Ok(body) => r matches Ok(x) && x@ == finished(f@.function, body, option_names(generics)),
            Err(m) => r matches Err(e) && e.message@ == m,
        },
{
    let ghost fv = f@;
    let mut g = f;
    assert(g@ == fv);
    let ghost lv = views(g.labels@);
    let ghost bv = views(g.branches@);
    let mut i: usize = 0;
    while i < g.branches.len()
        invariant
            i <= g.branches@.len(),
            lv == views(g.labels@),
            bv == views(g.branches@),
            fv == f@,
            lv == fv.labels,
            bv == fv.branches,
            resolve_branches(fv.function.body, lv, bv, 0) == resolve_branches(body_view(g.function.body@), lv, bv, i as nat),
            (FunctionDefView { body: body_view(g.function.body@), ..fv.function }) == g.function@,
        decreases g.branches.len() - i,
    {
        let b = &g.branches[i];
        assert(bv[i as int] == b@);
        let name = chars_of(b.label.as_str());
        let target = match find_label(&g.labels, &name) {
            Some(t) => t,
            None => {
                let mut message = String::from_str("undefined label ");
                push_str(&mut message, b.label.as_str());
                push_str(&mut message, " used on line ");
                push_decimal(&mut message, b.line as u64);
                proof {
                    assert(label_target(lv, b.label@, 0) is None);
                    assert(message@ == "undefined label "@ + b.label@ + " used on line "@ + decimal(b.line as nat));
                    assert(resolve_branches(body_view(g.function.body@), lv, bv, i as nat) == Err::<Seq<InstructionView>, Seq<char>>(message@));
                    assert(resolve_branches(fv.function.body, fv.labels, fv.branches, 0) == Err::<Seq<InstructionView>, Seq<char>>(message@));
                    assert(resolve_branches(f@.function.body, f@.labels, f@.branches, 0) == Err::<Seq<InstructionView>, Seq<char>>(message@));
                }
                return Err(Fault::from_message(message));
            },
        };
        let ghost body_before = body_view(g.function.body@);
        assert(label_target(lv, b.label@, 0) == Some(target));
        match patch_body(&mut g.function.body, b.pc, b.slot, target) {
            Err(e) => {
                assert(resolve_branches(body_before, lv, bv, i as nat) == Err::<Seq<InstructionView>, Seq<char>>(e.message@));
                assert(resolve_branches(fv.function.body, fv.labels, fv.branches, 0) == Err::<Seq<InstructionView>, Seq<char>>(e.message@));
                return Err(e);
            },
            Ok(()) => {},
        }
        i += 1;
    }
    match generics {
        Some(names) => {
            g.function.parameters = bind_all(&g.function.parameters, names);
            g.function.locals = bind_all(&g.function.locals, names);
            g.function.return_type = bind_type_parameters(&g.function.return_type, names);
        },
        None => {},
    }
    Ok(g.function)
}

fn module_line(st: Assembly, word: &str, rest: &str) -> (r: Result<Assembly, Fault>)
    ensures
        match module_directive(st@, word@, rest@) {
            Ok(v) => r matches Ok(x) && x@ == v,
            Err(m) => r matches Err(e) && e.message@ == m,
        },
{
    proof {
        reveal_strlit(".module");
        reveal_strlit(".entry");
        reveal_strlit(".references");
        reveal_strlit(".revision");
        reveal_strlit(".type");
        reveal_strlit(".interface");
        reveal_strlit(".function");
        reveal_strlit(".method");
    }
    let ghost sv = st@;
    let Assembly { mut module, fixups, function, typedef, mut enclosing, property } = st;
    let rest_chars = chars_of(rest);
    if str_eq(word, ".module") {
        if let Err(e) = identifier(&rest_chars) {
            return Err(e);
        }
        if chars_of(module.name.as_str()).len() != 0 {
            return Err(Fault::new("duplicate .module"));
        }
        module.name = rest.to_string();
        Ok(Assembly { module, fixups, function, typedef, enclosing, property })
    } else if str_eq(word, ".entry") {
        if let Err(e) = identifier(&rest_chars) {
            return Err(e);
        }
        if chars_of(module.entry.as_str()).len() != 0 {
            return Err(Fault::new("duplicate .entry"));
        }
        module.entry = rest.to_string();
        Ok(Assembly { module, fixups, function, typedef, enclosing, property })
    } else if str_eq(word, ".references") {
        if module.references.is_some() {
            return Err(Fault::new("duplicate .references"));
        }
        match parse_references(rest) {
            Err(e) => Err(e),
            Ok(r) => {
                module.references = Some(r);
                Ok(Assembly { module, fixups, function, typedef, enclosing, property })
            },
        }
    } else if str_eq(word, ".revision") {
        if module.revision.is_some() || !is_valid_revision(&rest_chars) {
            return Err(Fault::new("invalid or duplicate .revision"));
        }
        module.revision = Some(rest.to_string());
        Ok(Assembly { module, fixups, function, typedef, enclosing, property })
    } else if str_eq(word, ".type") || str_eq(word, ".interface") {
        let header = match &typedef {
            Some(d) => parse_type_header(word, rest, Some(d), enclosing.len()),
            None => parse_type_header(word, rest, None, enclosing.len()),
        };
        let d = match header {
            Err(e) => return Err(e),
            Ok(d) => d,
        };
        match typedef {
            Some(parent) => {
                let ghost before = enclosing@;
                enclosing.push(parent);
                proof {
                    lemma_views_push(before, parent);
                }
            },
            None => {},
        }
        Ok(Assembly { module, fixups, function, typedef: Some(d), enclosing, property })
    } else if str_eq(word, ".function") || str_eq(word, ".method") {
        let header = match &typedef {
            Some(d) => parse_function_header(word, rest, Some(d)),
            None => parse_function_header(word, rest, None),
        };
        match header {
            Err(e) => Err(e),
            Ok((f, inline)) => {
                let pending = Pending { function: f, labels: Vec::new(), branches: Vec::new(), inline_parameters: inline };
                proof {
                    assert(views(pending.labels@) =~= Seq::<(Seq<char>, usize)>::empty());
                    assert(views(pending.branches@) =~= Seq::<BranchView>::empty());
                }
                Ok(Assembly { module, fixups, function: Some(pending), typedef, enclosing, property })
            },
        }
    } else {
        Err(Fault::new("expected .module, .entry, .type or .function"))
    }
}

fn step(st: Assembly, n: usize, word: &str, rest: &str, line: &Vec<char>) -> (r: Result<Assembly, Fault>)
    ensures
        match spec_step(st@, n, word@, rest@, line@) {
            Ok(v) => r matches Ok(x) && x@ == v,
            Err(m) => r matches Err(e) && e.message@ == m,
        },
{
    proof {
        reveal_strlit(".end");
        reveal_strlit(".get");
        reveal_strlit(".set");
        reveal_strlit(".method");
        reveal_strlit(".type");
        reveal_strlit(".interface");
    }
    proof {
        reveal(spec_step);
    }
    let ghost sv = st@;
    let rest_empty = chars_of(rest).len() == 0;
    let Assembly { mut module, mut fixups, function, typedef, mut enclosing, property } = st;
    match property {
        Some(p) => {
            let mut p = p;
            if str_eq(word, ".end") {
                if !rest_empty {
                    return Err(Fault::new("unexpected property .end operand"));
                }
                match typedef {
                    None => Err(Fault::new("property requires type")),
                    Some(d) => {
                        let mut d = d;
                        let ghost old_d = d@;
                        let ghost pv = p@;
                        d.properties.push(p);
                        proof {
                            assert(Seq::new(d.properties@.len(), |i: int| d.properties@[i]@) =~= old_d.properties.push(pv));
                        }
                        Ok(Assembly { module, fixups, function, typedef: Some(d), enclosing, property: None })
                    },
                }
            } else {
                let get = str_eq(word, ".get");
                let set = str_eq(word, ".set");
                if !get && !set {
                    return Err(Fault::new("expected .get, .set or .end in property"));
                }
                if (get && p.getter.is_some()) || (set && p.setter.is_some()) {
                    return Err(Fault::new("duplicate property accessor"));
                }
                let f = match parse_function_ref(rest) {
                    Ok(f) => f,
                    Err(e) => return Err(e),
                };
                match &typedef {
                    None => Err(Fault::new("property requires type")),
                    Some(d) => {
                        if get {
                            p.getter = Some(f);
                        } else {
                            p.setter = Some(f);
                        }
                        p.parameters = bind_all(&p.parameters, &d.generic_parameters);
                        p.ty = bind_type_parameters(&p.ty, &d.generic_parameters);
                        Ok(Assembly { module, fixups, function, typedef, enclosing, property: Some(p) })
                    },
                }
            }
        },
        None => {
            if str_eq(word, ".end") {
                if !rest_empty {
                    return Err(Fault::new(".end has no operand"));
                }
                match function {
                    Some(f) => {
                        let done = match &typedef {
                            Some(d) => finish_function(f, Some(&d.generic_parameters)),
                            None => finish_function(f, None),
                        };
                        match done {
                            Err(e) => Err(e),
                            Ok(done) => {
                                let ghost before = module.functions@;
                                let ghost dv = done@;
                                module.functions.push(done);
                                proof {
                                    assert(views(module.functions@) =~= views(before).push(dv));
                                }
                                Ok(Assembly { module, fixups, function: None, typedef, enclosing, property: None })
                            },
                        }
                    },
                    None => match typedef {
                        Some(d) => {
                            let ghost before = module.types@;
                            let ghost dv = d@;
                            module.types.push(d);
                            let ghost outer = enclosing@;
                            let next = enclosing.pop();
                            proof {
                                assert(views(module.types@) =~= views(before).push(dv));
                                if outer.len() > 0 {
                                    assert(enclosing@ =~= outer.drop_last());
                                    assert(views(enclosing@) =~= views(outer).drop_last());
                                }
                            }
                            Ok(Assembly { module, fixups, function: None, typedef: next, enclosing, property: None })
                        },
                        None => Err(Fault::new("unexpected .end")),
                    },
                }
            } else if function.is_none() && !str_eq(word, ".method") && !str_eq(word, ".type") && !str_eq(
                word,
                ".interface",
            ) && typedef.is_some() {
                let d = match typedef {
                    Some(d) => d,
                    None => return Err(Fault::new("unexpected .end")),
                };
                match type_line(d, word, rest) {
                    Err(e) => Err(e),
                    Ok((d2, p)) => Ok(Assembly { module, fixups, function, typedef: Some(d2), enclosing, property: p }),
                }
            } else if function.is_some() {
                let f = match function {
                    Some(f) => f,
                    None => return Err(Fault::new("unexpected .end")),
                };
                let generics = match &typedef {
                    Some(d) => clone_names(&d.generic_parameters),
                    None => {
                        let none: Vec<Option<String>> = Vec::new();
                        assert(names_view(none@) =~= Seq::<Option<Seq<char>>>::empty());
                        none
                    },
                };
                match function_line(f, word, rest, line, &generics, n, module.functions.len()) {
                    Err(e) => Err(e),
                    Ok((f2, fixup)) => {
                        match fixup {
                            Some(x) => {
                                let ghost before = fixups@;
                                let ghost xv = x@;
                                fixups.push(x);
                                proof {
                                    assert(views(fixups@) =~= views(before).push(xv));
                                }
                            },
                            None => {},
                        }
                        Ok(Assembly { module, fixups, function: Some(f2), typedef, enclosing, property: None })
                    },
                }
            } else {
                module_line(Assembly { module, fixups, function, typedef, enclosing, property: None }, word, rest)
            }
        },
    }
}

fn read_line(st: Assembly, n: usize, raw: &Vec<char>) -> (r: Result<Assembly, Fault>)
    ensures
        match spec_line(st@, n, raw@) {
            Ok(v) => r matches Ok(x) && x@ == v,
            Err(m) => r matches Err(e) && e.message@ == m,
        },
{
    let line = trim_chars(raw);
    if line.len() == 0 || line[0] == ';' {
        return Ok(st);
    }
    let (word, rest) = match split_word_chars(&line) {
        Some((a, b)) => (a, trim_chars(&b)),
        None => (slice_chars(&line, 0, line.len()), Vec::new()),
    };
    proof {
        assert(word_and_rest(line@) == (word@, rest@));
    }
    let word_text = string_of(&word);
    let rest_text = string_of(&rest);
    match step(st, n, word_text.as_str(), rest_text.as_str(), &line) {
        Ok(x) => Ok(x),
        Err(f) => {
            let mut message = String::from_str("line ");
            push_decimal(&mut message, n as u64);
            push_str(&mut message, ": ");
            push_str(&mut message, f.message.as_str());
            proof {
                reveal_strlit("line ");
                reveal_strlit(": ");
            }
            Err(Fault::from_message(message))
        },
    }
}

fn new_assembly() -> (a: Assembly)
    ensures
        a@ == empty_assembly(),
{
    let a = Assembly {
        module: Module {
            name: String::new(),
            revision: None,
            references: None,
            entry: String::new(),
            types: Vec::new(),
            functions: Vec::new(),
        },
        fixups: Vec::new(),
        function: None,
        typedef: None,
        enclosing: Vec::new(),
        property: None,
    };
    proof {
        assert(views(a.module.types@) =~= Seq::<TypeDefView>::empty());
        assert(views(a.module.functions@) =~= Seq::<FunctionDefView>::empty());
        assert(views(a.fixups@) =~= Seq::<FieldFixupView>::empty());
        assert(views(a.enclosing@) =~= Seq::<TypeDefView>::empty());
    }
    a
}

/// Reads neoIL module text line by line (see `spec_parse_module`): the
/// module and the fields its instructions name as `Type::Field`, which are
/// resolved once every type of the module, and of the modules read with it,
/// is known. Errors name their source line.
pub fn parse_module_text(source: &str) -> (r: Result<(Module, Vec<FieldFixup>), Fault>)
    requires
        source@.len() < usize::MAX,
    ensures
        match spec_parse_module(source@) {
            Ok((m, fixups)) => r matches Ok((x, y)) && x@ == m && views(y@) == fixups,
            Err(msg) => r matches Err(e) && e.message@ == msg,
        },
{
    let chars = chars_of(source);
    let ghost b = breaks(chars@, chars@.len());
    let mut positions: Vec<usize> = Vec::new();
    let mut i: usize = 0;
    while i < chars.len()
        invariant
            i <= chars@.len(),
            positions@.len() == breaks(chars@, i as nat).len(),
            forall|k: int|
                0 <= k < positions@.len() ==> positions@[k] as int == #[trigger] breaks(chars@, i as nat)[k],
        decreases chars.len() - i,
    {
        if chars[i] == '\n' {
            positions.push(i);
        }
        i += 1;
    }
    proof {
        lemma_breaks(chars@, chars@.len());
    }
    let n = chars.len();
    let mut st = new_assembly();
    let mut k: usize = 0;
    loop
        invariant_except_break
            read_lines(chars@, empty_assembly(), 0) == read_lines(chars@, st@, k as nat),
        invariant
            n == chars@.len(),
            chars@ == source@,
            n < usize::MAX,
            k <= positions@.len(),
            b == breaks(chars@, chars@.len()),
            positions@.len() == b.len(),
            positions@.len() <= n,
            forall|j: int| 0 <= j < positions@.len() ==> positions@[j] as int == #[trigger] b[j],
            forall|j: int| 0 <= j < b.len() ==> 0 <= #[trigger] b[j] < chars@.len(),
            forall|j: int, l: int| 0 <= j < l < b.len() ==> b[j] < b[l],
        ensures
            read_lines(chars@, empty_assembly(), 0) == Ok::<AssemblyView, Seq<char>>(st@),
            chars@ == source@,
        decreases positions@.len() - k,
    {
        let start = if k == 0 {
            0
        } else {
            assert(positions@[k - 1] as int == b[k - 1]);
            assert(b[k - 1] < chars@.len());
            positions[k - 1] + 1
        };
        let end = if k < positions.len() {
            positions[k]
        } else {
            n
        };
        proof {
            if k > 0 && k < positions.len() {
                assert(b[k - 1] < b[k as int]);
            }
        }
        let raw = slice_chars(&chars, start, end);
        assert(raw@ == line_of(chars@, k as int));
        let ghost before = st@;
        st = match read_line(st, k + 1, &raw) {
            Ok(next) => next,
            Err(e) => return Err(e),
        };
        if k == positions.len() {
            assert(read_lines(chars@, before, k as nat) == Ok::<AssemblyView, Seq<char>>(st@));
            break;
        }
        k += 1;
    }
    if st.function.is_some() || st.typedef.is_some() {
        return Err(Fault::new("missing .end"));
    }
    if chars_of(st.module.name.as_str()).len() == 0 {
        return Err(Fault::new(".module is required"));
    }
    Ok((st.module, st.fixups))
}

pub proof fn lemma_breaks(s: Seq<char>, n: nat)
    requires
        n <= s.len(),
    ensures
        breaks(s, n).len() <= n,
        forall|k: int| 0 <= k < breaks(s, n).len() ==> 0 <= #[trigger] breaks(s, n)[k] < n,
        forall|k: int, l: int| 0 <= k < l < breaks(s, n).len() ==> breaks(s, n)[k] < breaks(s, n)[l],
    decreases n,
{
    if n > 0 {
        lemma_breaks(s, (n - 1) as nat);
        if s[n - 1] == '\n' {
            assert(breaks(s, n) == breaks(s, (n - 1) as nat).push(n - 1));
        } else {
            assert(breaks(s, n) == breaks(s, (n - 1) as nat));
        }
    }
}

} // verus!
