//! Enum metadata retains nominal identity over an ordinary one-integer value layout.
use crate::fault::Fault;
use crate::numbers::{i32_text, signed_decimal};
use crate::text::{push_str};
use crate::types::Type;
use vstd::prelude::*;
use vstd::string::StringExecFns;

verus! {

/// One named enum literal.
#[derive(Debug)]
pub struct EnumMember {
    pub name: String,
    pub value: i32,
}

/// The literals of an enum over its underlying integer type.
#[derive(Debug)]
pub struct EnumInfo {
    pub underlying: Type,
    pub flags: bool,
    pub members: Vec<EnumMember>,
}

/// The unsigned key by which members are ordered.
pub open spec fn key(m: EnumMember) -> u32 {
    m.value as u32
}

/// Member `i` comes before member `j`: lower unsigned value, or the same value
/// and declared earlier.
pub open spec fn precedes(members: Seq<EnumMember>, i: usize, j: usize) -> bool {
    key(members[i as int]) < key(members[j as int]) || (key(members[i as int]) == key(
        members[j as int],
    ) && i < j)
}

/// `order` lists member positions sorted by unsigned value, ties kept in
/// declaration order: strictly increasing in (value, position).
pub open spec fn stable_order(members: Seq<EnumMember>, order: Seq<usize>) -> bool {
    &&& order.len() == members.len()
    &&& forall|i: int| 0 <= i < order.len() ==> #[trigger] order[i] < members.len()
    &&& forall|a: int, b: int|
        #![trigger order[a], order[b]]
        0 <= a < b < order.len() ==> precedes(members, order[a], order[b])
}

/// Positions of the members in shared unsigned-value order. The sort is stable,
/// so aliases keep their metadata order.
pub fn member_order(info: &EnumInfo) -> (order: Vec<usize>)
    ensures
        stable_order(info.members@, order@),
{
    let n = info.members.len();
    let mut order: Vec<usize> = Vec::new();
    let mut i: usize = 0;
    while i < n
        invariant
            i <= n == info.members@.len(),
            order@.len() == i,
            forall|j: int| 0 <= j < order@.len() ==> #[trigger] order@[j] < i,
            forall|a: int, b: int|
                #![trigger order@[a], order@[b]]
                0 <= a < b < order@.len() ==> precedes(info.members@, order@[a], order@[b]),
        decreases n - i,
    {
        let k = info.members[i].value as u32;
        let mut p: usize = 0;
        while p < order.len() && info.members[order[p]].value as u32 <= k
            invariant
                p <= order@.len(),
                forall|j: int| 0 <= j < order@.len() ==> #[trigger] order@[j] < i,
                i < n == info.members@.len(),
                k == key(info.members@[i as int]),
                forall|j: int| 0 <= j < p ==> key(info.members@[#[trigger] order@[j] as int]) <= k,
            decreases order@.len() - p,
        {
            p += 1;
        }
        let ghost old_order = order@;
        order.insert(p, i);
        proof {
            assert forall|a: int, b: int|
                #![trigger order@[a], order@[b]]
                0 <= a < b < order@.len() implies precedes(info.members@, order@[a], order@[b]) by {
                if b < p {
                    assert(order@[a] == old_order[a] && order@[b] == old_order[b]);
                } else if b == p {
                    assert(order@[a] == old_order[a]);
                    assert(key(info.members@[old_order[a] as int]) <= k);
                } else if a == p {
                    assert(order@[b] == old_order[b - 1]);
                    assert(p < old_order.len());
                    assert(key(info.members@[old_order[p as int] as int]) > k);
                    if b - 1 > p {
                        assert(precedes(info.members@, old_order[p as int], old_order[b - 1]));
                    }
                } else if a < p {
                    assert(order@[a] == old_order[a] && order@[b] == old_order[b - 1]);
                } else {
                    assert(order@[a] == old_order[a - 1] && order@[b] == old_order[b - 1]);
                }
            }
        }
        i += 1;
    }
    order
}

/// Shared unsigned-value ordering for names and values. Stable sorting preserves
/// metadata order for aliases, without promising .NET's unspecified alias choice.
pub fn members(info: &EnumInfo) -> (result: Vec<&EnumMember>)
    ensures
        exists|order: Seq<usize>|
            stable_order(info.members@, order) && result@.len() == order.len() && forall|i: int|
                0 <= i < order.len() ==> *#[trigger] result@[i] == info.members@[order[i] as int],
{
    let order = member_order(info);
    let mut result: Vec<&EnumMember> = Vec::new();
    let mut i: usize = 0;
    while i < order.len()
        invariant
            stable_order(info.members@, order@),
            i <= order@.len(),
            result@.len() == i,
            forall|j: int| 0 <= j < i ==> *#[trigger] result@[j] == info.members@[order@[j] as int],
        decreases order@.len() - i,
    {
        result.push(&info.members[order[i]]);
        i += 1;
    }
    result
}

/// The members kept for flag decomposition: the first-ordered member of each
/// distinct value, ascending by unsigned value.
pub open spec fn distinct_in_order(members: Seq<EnumMember>, order: Seq<usize>) -> Seq<usize>
    decreases order.len(),
{
    if order.len() == 0 {
        Seq::empty()
    } else {
        let rest = distinct_in_order(members, order.drop_last());
        if order.len() >= 2 && members[order[order.len() - 2] as int].value == members[order.last() as int].value {
            rest
        } else {
            rest.push(order.last())
        }
    }
}

/// Greedy flag decomposition over `unique` from its highest value down:
/// the names taken (highest first) and the bits left over.
pub open spec fn decompose(members: Seq<EnumMember>, unique: Seq<usize>, remaining: u32) -> (Seq<Seq<char>>, u32)
    decreases unique.len(),
{
    if unique.len() == 0 {
        (Seq::empty(), remaining)
    } else {
        let m = members[unique.last() as int];
        let bits = m.value as u32;
        if bits != 0 && remaining & bits == bits {
            let (names, left) = decompose(members, unique.drop_last(), remaining & !bits);
            (seq![m.name@] + names, left)
        } else {
            decompose(members, unique.drop_last(), remaining)
        }
    }
}

/// Names joined by ", ".
pub open spec fn join(names: Seq<Seq<char>>) -> Seq<char>
    decreases names.len(),
{
    if names.len() == 0 {
        Seq::empty()
    } else if names.len() == 1 {
        names[0]
    } else {
        join(names.drop_last()) + ", "@ + names.last()
    }
}

/// The first declared member with a given value, if any.
pub open spec fn first_with_value(members: Seq<EnumMember>, value: i32) -> Option<int> {
    if exists|i: int| 0 <= i < members.len() && #[trigger] members[i].value == value {
        Some(choose|i: int| 0 <= i < members.len() && #[trigger] members[i].value == value && forall|j: int| 0 <= j < i ==> #[trigger] members[j].value != value)
    } else {
        None
    }
}

/// The text of an enum value: the first declared name for an exact match;
/// for flags enums a ", "-joined greedy decomposition into distinct member
/// values (lowest value first) when it accounts for every bit; otherwise the
/// decimal value.
pub open spec fn spec_format(members: Seq<EnumMember>, flags: bool, order: Seq<usize>, value: i32) -> Seq<char> {
    match first_with_value(members, value) {
        Some(i) => members[i].name@,
        None => {
            let (names, left) = decompose(members, distinct_in_order(members, order), value as u32);
            if flags && value != 0 && left == 0 {
                join(names.reverse())
            } else {
                signed_decimal(value as int)
            }
        },
    }
}

pub proof fn lemma_first_with_value(members: Seq<EnumMember>, value: i32, k: int)
    requires
        0 <= k < members.len(),
        members[k].value == value,
        forall|j: int| 0 <= j < k ==> #[trigger] members[j].value != value,
    ensures
        first_with_value(members, value) == Some(k),
{
    let c = choose|i: int| 0 <= i < members.len() && #[trigger] members[i].value == value && forall|j: int| 0 <= j < i ==> #[trigger] members[j].value != value;
    assert(exists|i: int| 0 <= i < members.len() && #[trigger] members[i].value == value && forall|j: int| 0 <= j < i ==> #[trigger] members[j].value != value) by {
        assert(members[k].value == value);
    }
    if c < k {
        assert(members[c].value != value);
    } else if c > k {
        assert(members[k].value != value);
    }
}

/// Joins names with ", ", appending to `s`.
fn push_joined(s: &mut String, names: &Vec<&String>)
    ensures
        final(s)@ == old(s)@ + join(names@.map_values(|n: &String| n@)),
{
    let ghost views = names@.map_values(|n: &String| n@);
    let mut i: usize = 0;
    while i < names.len()
        invariant
            i <= names@.len(),
            views == names@.map_values(|n: &String| n@),
            s@ == old(s)@ + join(views.subrange(0, i as int)),
        decreases names@.len() - i,
    {
        let ghost before = s@;
        if i > 0 {
            push_str(s, ", ");
        }
        push_str(s, names[i].as_str());
        proof {
            let t = views.subrange(0, i + 1);
            assert(t.drop_last() =~= views.subrange(0, i as int));
            assert(t.last() == names@[i as int]@);
            if i == 0 {
                assert(join(t) == t[0]);
            }
            assert(s@ =~= old(s)@ + join(t));
        }
        i += 1;
    }
    assert(views.subrange(0, i as int) =~= views);
}

/// The text of an enum value, as `System.Enum.ToString` renders it.
pub fn format(info: &EnumInfo, value: i32) -> (text: String)
    ensures
        exists|order: Seq<usize>|
            stable_order(info.members@, order) && text@ == spec_format(
                info.members@,
                info.flags,
                order,
                value,
            ),
{
    let n = info.members.len();
    let mut i: usize = 0;
    while i < n
        invariant
            i <= n == info.members@.len(),
            forall|j: int| 0 <= j < i ==> #[trigger] info.members@[j].value != value,
        decreases n - i,
    {
        if info.members[i].value == value {
            let order = member_order(info);
            proof {
                lemma_first_with_value(info.members@, value, i as int);
            }
            return info.members[i].name.clone();
        }
        i += 1;
    }
    proof {
        assert(first_with_value(info.members@, value) is None);
    }
    let order = member_order(info);
    // Prefer the first declared alias for a given mask.
    let mut unique: Vec<usize> = Vec::new();
    let mut j: usize = 0;
    while j < order.len()
        invariant
            stable_order(info.members@, order@),
            j <= order@.len(),
            unique@ == distinct_in_order(info.members@, order@.subrange(0, j as int)),
            forall|x: int| 0 <= x < unique@.len() ==> #[trigger] unique@[x] < info.members@.len(),
        decreases order@.len() - j,
    {
        proof {
            let t = order@.subrange(0, j + 1);
            assert(t.drop_last() =~= order@.subrange(0, j as int));
        }
        if j == 0 || info.members[order[j - 1]].value != info.members[order[j]].value {
            unique.push(order[j]);
        }
        j += 1;
    }
    proof {
        assert(order@.subrange(0, j as int) =~= order@);
    }
    let ghost all_unique = unique@;
    if info.flags && value != 0 {
        let mut remaining: u32 = value as u32;
        let mut names: Vec<&String> = Vec::new();
        let mut u = unique.len();
        proof {
            assert(all_unique.subrange(0, u as int) =~= all_unique);
            assert(names@.map_values(|n: &String| n@) =~= Seq::<Seq<char>>::empty());
        }
        while u > 0
            invariant
                u <= unique@.len(),
                unique@ == all_unique,
                forall|x: int| 0 <= x < unique@.len() ==> #[trigger] unique@[x] < info.members@.len(),
                decompose(info.members@, all_unique, value as u32) == {
                    let (rest, left) = decompose(info.members@, all_unique.subrange(0, u as int), remaining);
                    (names@.map_values(|n: &String| n@) + rest, left)
                },
            decreases u,
        {
            proof {
                let t = all_unique.subrange(0, u as int);
                assert(t.drop_last() =~= all_unique.subrange(0, u - 1));
                assert(t.last() == unique@[u - 1]);
            }
            let member = &info.members[unique[u - 1]];
            let bits = member.value as u32;
            if bits != 0 && remaining & bits == bits {
                remaining = remaining & !bits;
                let ghost before = names@.map_values(|n: &String| n@);
                names.push(&member.name);
                proof {
                    assert(names@.map_values(|n: &String| n@) =~= before.push(member.name@));
                    let (rest, left) = decompose(info.members@, all_unique.subrange(0, u - 1), remaining);
                    assert(before + (seq![member.name@] + rest) =~= before.push(member.name@) + rest);
                }
            }
            u -= 1;
        }
        proof {
            assert(all_unique.subrange(0, 0) =~= Seq::<usize>::empty());
        }
        if remaining == 0 {
            let mut reversed: Vec<&String> = Vec::new();
            let mut r = names.len();
            while r > 0
                invariant
                    r <= names@.len(),
                    reversed@.map_values(|n: &String| n@) =~= names@.map_values(|n: &String| n@).subrange(r as int, names@.len() as int).reverse(),
                decreases r,
            {
                let ghost before = reversed@.map_values(|n: &String| n@);
                reversed.push(names[r - 1]);
                proof {
                    let all = names@.map_values(|n: &String| n@);
                    assert(reversed@.map_values(|n: &String| n@) =~= before.push(all[r - 1]));
                    assert(all.subrange(r - 1, all.len() as int).reverse() =~= all.subrange(r as int, all.len() as int).reverse().push(all[r - 1]));
                }
                r -= 1;
            }
            let mut text = String::new();
            push_joined(&mut text, &reversed);
            proof {
                let all = names@.map_values(|n: &String| n@);
                assert(all.subrange(0, all.len() as int) =~= all);
                assert(text@ =~= spec_format(info.members@, info.flags, order@, value));
            }
            return text;
        }
    }
    i32_text(value)
}

/// Whether a member name is a plain identifier: ASCII letters, digits and
/// '_', not starting with a digit.
pub open spec fn valid_member_name(name: Seq<char>) -> bool {
    &&& name.len() > 0
    &&& forall|i: int| 0 <= i < name.len() ==> {
        let c = #[trigger] name[i];
        ('a' <= c <= 'z') || ('A' <= c <= 'Z') || ('0' <= c <= '9') || c == '_'
    }
    &&& !('0' <= name[0] <= '9')
}

fn member_name_ok(name: &String) -> (b: bool)
    ensures
        b == valid_member_name(name@),
{
    let chars = crate::text::chars_of(name.as_str());
    if chars.len() == 0 {
        return false;
    }
    let mut i: usize = 0;
    while i < chars.len()
        invariant
            i <= chars@.len(),
            chars@ == name@,
            forall|j: int| 0 <= j < i ==> {
                let c = #[trigger] chars@[j];
                ('a' <= c <= 'z') || ('A' <= c <= 'Z') || ('0' <= c <= '9') || c == '_'
            },
        decreases chars@.len() - i,
    {
        let c = chars[i];
        if !(('a' <= c && c <= 'z') || ('A' <= c && c <= 'Z') || ('0' <= c && c <= '9') || c == '_') {
            return false;
        }
        i += 1;
    }
    !('0' <= chars[0] && chars[0] <= '9')
}

/// Validates the literal names of an enum: each a plain identifier, none repeated.
pub fn validate_members(info: &EnumInfo) -> (r: Result<(), Fault>)
    ensures
        r is Ok <==> (forall|i: int| 0 <= i < info.members@.len() ==> valid_member_name(#[trigger] info.members@[i].name@))
            && (forall|i: int, j: int| 0 <= i < j < info.members@.len() ==> #[trigger] info.members@[i].name@ != #[trigger] info.members@[j].name@),
{
    let n = info.members.len();
    let mut i: usize = 0;
    while i < n
        invariant
            i <= n == info.members@.len(),
            forall|a: int| 0 <= a < i ==> valid_member_name(#[trigger] info.members@[a].name@),
            forall|a: int, b: int| 0 <= a < b < i ==> #[trigger] info.members@[a].name@ != #[trigger] info.members@[b].name@,
        decreases n - i,
    {
        if !member_name_ok(&info.members[i].name) {
            return Err(Fault::new("invalid or duplicate enum member name"));
        }
        let mut j: usize = 0;
        while j < i
            invariant
                j <= i < n == info.members@.len(),
                forall|a: int| 0 <= a < j ==> info.members@[a].name@ != info.members@[i as int].name@,
            decreases i - j,
        {
            if info.members[j].name == info.members[i].name {
                return Err(Fault::new("invalid or duplicate enum member name"));
            }
            j += 1;
        }
        i += 1;
    }
    Ok(())
}


/// The `.literal` lines of the first `n` members.
pub open spec fn literal_lines(members: Seq<EnumMember>, n: nat) -> Seq<char>
    decreases n,
{
    if n == 0 || n > members.len() {
        Seq::empty()
    } else {
        literal_lines(members, (n - 1) as nat) + ".literal "@ + members[n - 1].name@ + " "@
            + signed_decimal(members[n - 1].value as int) + "\n"@
    }
}

/// The static accessor methods of the first `n` members.
pub open spec fn accessor_methods(name: Seq<char>, members: Seq<EnumMember>, n: nat) -> Seq<char>
    decreases n,
{
    if n == 0 || n > members.len() {
        Seq::empty()
    } else {
        accessor_methods(name, members, (n - 1) as nat) + ".method static "@ + members[n
            - 1].name@ + "() -> "@ + name + "\nldc.i4 "@ + signed_decimal(
            members[n - 1].value as int,
        ) + "\nnewobj "@ + name + "\nret\n.end\n"@
    }
}

/// A bitwise instance method combining this value with another.
pub open spec fn binary_method(name: Seq<char>, method: Seq<char>, opcode: Seq<char>) -> Seq<char> {
    ".method instance "@ + method + "("@ + name + " other) -> "@ + name
        + "\nldarg this\nldfld 0\nldarg other\nldfld 0\n"@ + opcode + "\nnewobj "@ + name
        + "\nret\n.end\n"@
}

/// The IL type an enum lowers to: its literals, conversions, bitwise
/// operations, comparisons and one accessor per member.
pub open spec fn enum_il(name: Seq<char>, info: EnumInfo) -> Seq<char> {
    let members = info.members@;
    ".type "@ + name + "\n.enum Int32"@ + (if info.flags { " flags"@ } else { ""@ })
        + "\n.field private Bits Int32\n"@ + literal_lines(members, members.len())
        + ".method static FromValue(Int32 value) -> "@ + name + "\nldarg value\nnewobj "@ + name
        + "\nret\n.end\n.method instance get_Value() -> Int32\nldarg this\nldfld 0\nret\n.end\n"@
        + binary_method(name, "Or"@, "or"@) + binary_method(name, "And"@, "and"@) + binary_method(
        name,
        "Xor"@,
        "xor"@,
    ) + ".method instance Not() -> "@ + name + "\nldarg this\nldfld 0\nnot\nnewobj "@ + name
        + "\nret\n.end\n.method instance HasFlag("@ + name + " other) -> Boolean\nldarg this\nldfld 0\nldarg other\nldfld 0\nand\nldarg other\nldfld 0\nceq\nret\n.end\n.method instance Equals("@
        + name + " other) -> Boolean\nldarg this\nldfld 0\nldarg other\nldfld 0\nceq\nret\n.end\n"@
        + accessor_methods(name, members, members.len()) + ".end\n"@
}

fn push_binary_method(il: &mut String, name: &str, method: &str, opcode: &str)
    ensures
        final(il)@ == old(il)@ + binary_method(name@, method@, opcode@),
{
    push_str(il, ".method instance ");
    push_str(il, method);
    push_str(il, "(");
    push_str(il, name);
    push_str(il, " other) -> ");
    push_str(il, name);
    push_str(il, "\nldarg this\nldfld 0\nldarg other\nldfld 0\n");
    push_str(il, opcode);
    push_str(il, "\nnewobj ");
    push_str(il, name);
    push_str(il, "\nret\n.end\n");
    assert(il@ =~= old(il)@ + binary_method(name@, method@, opcode@));
}

/// Emits the IL type of an enum (see `enum_il`).
pub fn emit(name: &str, info: &EnumInfo) -> (il: String)
    ensures
        il@ == enum_il(name@, *info),
{
    let ghost members = info.members@;
    let mut il = String::from_str(".type ");
    push_str(&mut il, name);
    push_str(&mut il, "\n.enum Int32");
    if info.flags {
        push_str(&mut il, " flags");
    } else {
        push_str(&mut il, "");
    }
    push_str(&mut il, "\n.field private Bits Int32\n");
    let ghost head = il@;
    let mut i: usize = 0;
    while i < info.members.len()
        invariant
            i <= members.len(),
            members == info.members@,
            il@ == head + literal_lines(members, i as nat),
        decreases members.len() - i,
    {
        let member = &info.members[i];
        push_str(&mut il, ".literal ");
        push_str(&mut il, member.name.as_str());
        push_str(&mut il, " ");
        let value = i32_text(member.value);
        push_str(&mut il, value.as_str());
        push_str(&mut il, "\n");
        i += 1;
        assert(il@ =~= head + literal_lines(members, i as nat));
    }
    let ghost literals = il@;
    push_str(&mut il, ".method static FromValue(Int32 value) -> ");
    push_str(&mut il, name);
    push_str(&mut il, "\nldarg value\nnewobj ");
    push_str(&mut il, name);
    push_str(
        &mut il,
        "\nret\n.end\n.method instance get_Value() -> Int32\nldarg this\nldfld 0\nret\n.end\n",
    );
    push_binary_method(&mut il, name, "Or", "or");
    push_binary_method(&mut il, name, "And", "and");
    push_binary_method(&mut il, name, "Xor", "xor");
    push_str(&mut il, ".method instance Not() -> ");
    push_str(&mut il, name);
    push_str(&mut il, "\nldarg this\nldfld 0\nnot\nnewobj ");
    push_str(&mut il, name);
    push_str(&mut il, "\nret\n.end\n.method instance HasFlag(");
    push_str(&mut il, name);
    push_str(
        &mut il,
        " other) -> Boolean\nldarg this\nldfld 0\nldarg other\nldfld 0\nand\nldarg other\nldfld 0\nceq\nret\n.end\n.method instance Equals(",
    );
    push_str(&mut il, name);
    push_str(
        &mut il,
        " other) -> Boolean\nldarg this\nldfld 0\nldarg other\nldfld 0\nceq\nret\n.end\n",
    );
    let ghost fixed = il@;
    let mut j: usize = 0;
    while j < info.members.len()
        invariant
            j <= members.len(),
            members == info.members@,
            il@ == fixed + accessor_methods(name@, members, j as nat),
        decreases members.len() - j,
    {
        let member = &info.members[j];
        push_str(&mut il, ".method static ");
        push_str(&mut il, member.name.as_str());
        push_str(&mut il, "() -> ");
        push_str(&mut il, name);
        push_str(&mut il, "\nldc.i4 ");
        let value = i32_text(member.value);
        push_str(&mut il, value.as_str());
        push_str(&mut il, "\nnewobj ");
        push_str(&mut il, name);
        push_str(&mut il, "\nret\n.end\n");
        j += 1;
        assert(il@ =~= fixed + accessor_methods(name@, members, j as nat));
    }
    push_str(&mut il, ".end\n");
    assert(il@ =~= enum_il(name@, *info));
    il
}

} // verus!
