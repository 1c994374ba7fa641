//! Metadata references written in assembler text: module references, member
//! identities and call targets, with the spelling rules of their names.
use crate::types::{list_view, Type, TypeView};
use vstd::prelude::*;

verus! {

/// A module named alone, or pinned to an exact revision.
#[derive(Debug, PartialEq, Eq)]
pub enum ModuleReference {
    Name(String),
    Exact { name: String, revision: String },
}

impl ModuleReference {
    pub open spec fn spec_name(&self) -> Seq<char> {
        match self {
            ModuleReference::Name(n) => n@,
            ModuleReference::Exact { name, .. } => name@,
        }
    }

    pub open spec fn spec_revision(&self) -> Option<Seq<char>> {
        match self {
            ModuleReference::Name(_) => None,
            ModuleReference::Exact { revision, .. } => Some(revision@),
        }
    }

    /// The referenced module's name.
    pub fn name(&self) -> (n: &String)
        ensures
            n@ == self.spec_name(),
    {
        match self {
            ModuleReference::Name(n) => n,
            ModuleReference::Exact { name, .. } => name,
        }
    }

    /// The pinned revision, if any.
    pub fn revision(&self) -> (r: Option<&String>)
        ensures
            match r {
                Some(v) => self.spec_revision() == Some(v@),
                None => self.spec_revision() is None,
            },
    {
        match self {
            ModuleReference::Name(_) => None,
            ModuleReference::Exact { revision, .. } => Some(revision),
        }
    }
}

/// The identity of a definition: its module, the module's revision when
/// pinned, and its index among the module's definitions.
#[derive(Debug, PartialEq, Eq)]
pub struct MemberId {
    pub module: String,
    pub revision: Option<String>,
    pub index: u32,
}

/// The mathematical value of a member identity.
pub struct MemberIdView {
    pub module: Seq<char>,
    pub revision: Option<Seq<char>>,
    pub index: u32,
}

impl View for MemberId {
    type V = MemberIdView;

    open spec fn view(&self) -> MemberIdView {
        MemberIdView {
            module: self.module@,
            revision: match self.revision {
                Some(r) => Some(r@),
                None => None,
            },
            index: self.index,
        }
    }
}

/// A call target: its optional pinned definition, qualified name, owner,
/// whether it takes an instance, and its parameter types.
#[derive(Debug, PartialEq, Eq)]
pub struct FunctionRef {
    pub definition: Option<MemberId>,
    pub name: String,
    pub owner: Option<Type>,
    pub instance: bool,
    pub parameters: Vec<Type>,
}

/// The mathematical value of a call target.
pub struct FunctionRefView {
    pub definition: Option<MemberIdView>,
    pub name: Seq<char>,
    pub owner: Option<TypeView>,
    pub instance: bool,
    pub parameters: Seq<TypeView>,
}

impl View for FunctionRef {
    type V = FunctionRefView;

    open spec fn view(&self) -> FunctionRefView {
        FunctionRefView {
            definition: match self.definition {
                Some(d) => Some(d@),
                None => None,
            },
            name: self.name@,
            owner: match self.owner {
                Some(t) => Some(t@),
                None => None,
            },
            instance: self.instance,
            parameters: list_view(self.parameters@),
        }
    }
}

/// A character of a module revision: an ASCII letter or digit, '.', '-',
/// '+' or '_'.
pub open spec fn is_revision_char(c: char) -> bool {
    ('a' <= c <= 'z') || ('A' <= c <= 'Z') || ('0' <= c <= '9') || c == '.' || c == '-' || c
        == '+' || c == '_'
}

/// A module revision: a nonempty run of revision characters.
pub open spec fn valid_revision(s: Seq<char>) -> bool {
    s.len() > 0 && forall|i: int| 0 <= i < s.len() ==> is_revision_char(#[trigger] s[i])
}

/// A parameter, local or type-parameter name: an ASCII letter or '_', then
/// ASCII letters, digits and '_'.
pub open spec fn valid_slot_name(s: Seq<char>) -> bool {
    &&& s.len() > 0
    &&& (('a' <= s[0] <= 'z') || ('A' <= s[0] <= 'Z') || s[0] == '_')
    &&& forall|i: int|
        0 <= i < s.len() ==> ('a' <= #[trigger] s[i] <= 'z') || ('A' <= s[i] <= 'Z') || ('0'
            <= s[i] <= '9') || s[i] == '_'
}

pub fn is_valid_revision(v: &Vec<char>) -> (b: bool)
    ensures
        b == valid_revision(v@),
{
    if v.len() == 0 {
        return false;
    }
    let mut i: usize = 0;
    while i < v.len()
        invariant
            i <= v.len(),
            forall|j: int| 0 <= j < i ==> is_revision_char(#[trigger] v@[j]),
        decreases v.len() - i,
    {
        let c = v[i];
        if !(('a' <= c && c <= 'z') || ('A' <= c && c <= 'Z') || ('0' <= c && c <= '9') || c
            == '.' || c == '-' || c == '+' || c == '_') {
            assert(!is_revision_char(v@[i as int]));
            return false;
        }
        i += 1;
    }
    true
}

pub fn is_valid_slot_name(v: &Vec<char>) -> (b: bool)
    ensures
        b == valid_slot_name(v@),
{
    if v.len() == 0 {
        return false;
    }
    let first = v[0];
    if !(('a' <= first && first <= 'z') || ('A' <= first && first <= 'Z') || first == '_') {
        return false;
    }
    let mut i: usize = 0;
    while i < v.len()
        invariant
            i <= v.len(),
            forall|j: int|
                0 <= j < i ==> ('a' <= #[trigger] v@[j] <= 'z') || ('A' <= v@[j] <= 'Z') || ('0'
                    <= v@[j] <= '9') || v@[j] == '_',
        decreases v.len() - i,
    {
        let c = v[i];
        if !(('a' <= c && c <= 'z') || ('A' <= c && c <= 'Z') || ('0' <= c && c <= '9') || c
            == '_') {
            return false;
        }
        i += 1;
    }
    true
}

} // verus!
