//! Whether a source type conforms to another: reached through interface bases,
//! the interfaces a record implements and its base.
use crate::document::{interface_view, record_view, source_view, types_view, InterfaceView, RecordView, Source, SourceView};
use crate::frontend::{clone_ty, il, Ty, TyView};
use crate::lookup::{record_named, ty_equal};
use vstd::prelude::*;

verus! {

/// The first interface from position `i` on whose name is `name`.
pub open spec fn interface_named(interfaces: Seq<InterfaceView>, name: Seq<char>, i: int) -> Option<int>
    decreases interfaces.len() - i,
{
    if i < 0 || i >= interfaces.len() {
        None
    } else if interfaces[i].name.0 == name {
        Some(i)
    } else {
        interface_named(interfaces, name, i + 1)
    }
}

/// A record's base as a list of at most one type.
pub open spec fn base_list(base: Option<TyView>) -> Seq<TyView> {
    match base {
        Some(b) => seq![b],
        None => Seq::empty(),
    }
}

/// The types one step above `ty`: the bases of the interface it names, else
/// the interfaces and the base of the record it names.
pub open spec fn supertypes(s: SourceView, ty: TyView) -> Seq<TyView> {
    match interface_named(s.interfaces, il(ty), 0) {
        Some(i) => s.interfaces[i].bases,
        None => match record_named(s.records, il(ty), 0) {
            Some(r) => s.records[r].implements + base_list(s.records[r].base),
            None => Seq::empty(),
        },
    }
}

/// A chain of types, each a supertype of the one before.
pub open spec fn is_chain(s: SourceView, p: Seq<TyView>) -> bool {
    &&& p.len() > 0
    &&& forall|i: int|
        #![trigger supertypes(s, p[i])]
        0 <= i < p.len() - 1 ==> supertypes(s, p[i]).contains(p[i + 1])
}

/// `from` reaches `to` by a chain of supertypes (of length zero or more).
pub open spec fn conforms_to(s: SourceView, from: TyView, to: TyView) -> bool {
    exists|p: Seq<TyView>| #[trigger] is_chain(s, p) && p[0] == from && p.last() == to
}

/// All interface bases among the first `n` interfaces.
pub open spec fn all_bases(ifs: Seq<InterfaceView>, n: nat) -> Seq<TyView>
    decreases n,
{
    if n == 0 || n > ifs.len() {
        Seq::empty()
    } else {
        all_bases(ifs, (n - 1) as nat) + ifs[n - 1].bases
    }
}

/// All implemented interfaces and bases among the first `n` records.
pub open spec fn all_supers(rs: Seq<RecordView>, n: nat) -> Seq<TyView>
    decreases n,
{
    if n == 0 || n > rs.len() {
        Seq::empty()
    } else {
        all_supers(rs, (n - 1) as nat) + rs[n - 1].implements + base_list(rs[n - 1].base)
    }
}

/// Every type a walk from `from` can meet.
pub open spec fn universe(s: SourceView, from: TyView) -> Set<TyView> {
    (seq![from] + all_bases(s.interfaces, s.interfaces.len()) + all_supers(
        s.records,
        s.records.len(),
    )).to_set()
}

proof fn lemma_all_bases(ifs: Seq<InterfaceView>, n: nat, i: int, t: TyView)
    requires
        0 <= i < n <= ifs.len(),
        ifs[i].bases.contains(t),
    ensures
        all_bases(ifs, n).contains(t),
    decreases n,
{
    let prev = all_bases(ifs, (n - 1) as nat);
    let last = ifs[n - 1].bases;
    if i < n - 1 {
        lemma_all_bases(ifs, (n - 1) as nat, i, t);
        let k = choose|k: int| 0 <= k < prev.len() && prev[k] == t;
        assert((prev + last)[k] == t);
    } else {
        let k = choose|k: int| 0 <= k < last.len() && last[k] == t;
        assert((prev + last)[prev.len() + k] == t);
    }
}

proof fn lemma_all_supers(rs: Seq<RecordView>, n: nat, i: int, t: TyView)
    requires
        0 <= i < n <= rs.len(),
        (rs[i].implements + base_list(rs[i].base)).contains(t),
    ensures
        all_supers(rs, n).contains(t),
    decreases n,
{
    let prev = all_supers(rs, (n - 1) as nat);
    let last = rs[n - 1].implements + base_list(rs[n - 1].base);
    assert(all_supers(rs, n) == prev + last) by {
        assert(prev + rs[n - 1].implements + base_list(rs[n - 1].base) =~= prev + last);
    }
    if i < n - 1 {
        lemma_all_supers(rs, (n - 1) as nat, i, t);
        let k = choose|k: int| 0 <= k < prev.len() && prev[k] == t;
        assert((prev + last)[k] == t);
    } else {
        let k = choose|k: int| 0 <= k < last.len() && last[k] == t;
        assert((prev + last)[prev.len() + k] == t);
    }
}

proof fn lemma_in_universe(s: SourceView, from: TyView, ty: TyView, t: TyView)
    requires
        supertypes(s, ty).contains(t),
    ensures
        universe(s, from).contains(t),
{
    let a = seq![from];
    let b = all_bases(s.interfaces, s.interfaces.len());
    let c = all_supers(s.records, s.records.len());
    let whole = a + b + c;
    match interface_named(s.interfaces, il(ty), 0) {
        Some(i) => {
            lemma_interface_named(s.interfaces, il(ty), 0);
            lemma_all_bases(s.interfaces, s.interfaces.len(), i, t);
            let k = choose|k: int| 0 <= k < b.len() && b[k] == t;
            assert(whole[1 + k] == t);
        },
        None => match record_named(s.records, il(ty), 0) {
            Some(r) => {
                lemma_record_named(s.records, il(ty), 0);
                lemma_all_supers(s.records, s.records.len(), r, t);
                let k = choose|k: int| 0 <= k < c.len() && c[k] == t;
                assert(whole[1 + b.len() + k] == t);
            },
            None => {},
        },
    }
    assert(whole.contains(t));
}

proof fn lemma_interface_named(ifs: Seq<InterfaceView>, name: Seq<char>, i: int)
    requires
        0 <= i,
    ensures
        interface_named(ifs, name, i) matches Some(k) ==> i <= k < ifs.len() && ifs[k].name.0 == name,
    decreases ifs.len() - i,
{
    if i < ifs.len() && ifs[i].name.0 != name {
        lemma_interface_named(ifs, name, i + 1);
    }
}

proof fn lemma_record_named(rs: Seq<RecordView>, name: Seq<char>, i: int)
    requires
        0 <= i,
    ensures
        record_named(rs, name, i) matches Some(k) ==> i <= k < rs.len() && rs[k].name.0 == name,
    decreases rs.len() - i,
{
    if i < rs.len() && rs[i].name.0 != name {
        lemma_record_named(rs, name, i + 1);
    }
}

/// A set that holds the start of a chain and every supertype of its members
/// holds the whole chain.
proof fn lemma_closed_chain(s: SourceView, closed: Set<TyView>, p: Seq<TyView>, n: int)
    requires
        is_chain(s, p),
        0 <= n < p.len(),
        closed.contains(p[0]),
        forall|t: TyView, x: TyView| closed.contains(t) && #[trigger] supertypes(s, t).contains(x) ==> closed.contains(x),
    ensures
        closed.contains(p[n]),
    decreases n,
{
    if n > 0 {
        lemma_closed_chain(s, closed, p, n - 1);
        assert(supertypes(s, p[n - 1]).contains(p[n]));
    }
}

/// Whether some element of `v` has view `t`.
pub open spec fn holds(v: Seq<Ty>, t: TyView) -> bool {
    exists|i: int| 0 <= i < v.len() && #[trigger] v[i]@ == t
}

fn contains_ty(v: &Vec<Ty>, t: &Ty) -> (b: bool)
    ensures
        b == holds(v@, t@),
{
    let mut i: usize = 0;
    while i < v.len()
        invariant
            i <= v@.len(),
            forall|j: int| 0 <= j < i ==> #[trigger] v@[j]@ != t@,
        decreases v.len() - i,
    {
        if ty_equal(&v[i], t) {
            return true;
        }
        i += 1;
    }
    false
}

fn push_all(pending: &mut Vec<Ty>, types: &Vec<Ty>)
    ensures
        final(pending)@.len() == old(pending)@.len() + types@.len(),
        forall|i: int| 0 <= i < old(pending)@.len() ==> #[trigger] final(pending)@[i] == old(pending)@[i],
        forall|i: int| 0 <= i < types@.len() ==> #[trigger] final(pending)@[old(pending)@.len() + i]@ == types@[i]@,
{
    let mut i: usize = 0;
    while i < types.len()
        invariant
            i <= types@.len(),
            pending@.len() == old(pending)@.len() + i,
            forall|k: int| 0 <= k < old(pending)@.len() ==> #[trigger] pending@[k] == old(pending)@[k],
            forall|k: int| 0 <= k < i ==> #[trigger] pending@[old(pending)@.len() + k]@ == types@[k]@,
        decreases types.len() - i,
    {
        pending.push(clone_ty(&types[i]));
        i += 1;
    }
}

impl Source {
    /// The position of the first interface named `name`.
    fn find_interface(&self, name: &String) -> (r: Option<usize>)
        ensures
            match r {
                Some(i) => i < self.interfaces@.len() && interface_named(
                    source_view(*self).interfaces,
                    name@,
                    0,
                ) == Some(i as int),
                None => interface_named(source_view(*self).interfaces, name@, 0) is None,
            },
    {
        let ghost ifs = source_view(*self).interfaces;
        let mut i: usize = 0;
        while i < self.interfaces.len()
            invariant
                i <= self.interfaces@.len(),
                ifs == source_view(*self).interfaces,
                ifs.len() == self.interfaces@.len(),
                interface_named(ifs, name@, 0) == interface_named(ifs, name@, i as int),
            decreases self.interfaces.len() - i,
        {
            assert(ifs[i as int] == interface_view(self.interfaces@[i as int]));
            if self.interfaces[i].name.text == *name {
                return Some(i);
            }
            i += 1;
        }
        None
    }

    /// Whether `from` conforms to `to`: `to` is `from` itself or is reached
    /// through interface bases, the interfaces records implement and record
    /// bases (see `conforms_to`).
    pub fn interface_reachable(&self, from: &Ty, to: &Ty) -> (b: bool)
        ensures
            b == conforms_to(source_view(*self), from@, to@),
    {
        let ghost s = source_view(*self);
        let ghost u = universe(s, from@);
        let mut pending: Vec<Ty> = Vec::new();
        pending.push(clone_ty(from));
        let mut seen: Vec<Ty> = Vec::new();
        let ghost mut seen_set: Set<TyView> = Set::empty();
        proof {
            assert((seq![from@] + all_bases(s.interfaces, s.interfaces.len()) + all_supers(
                s.records,
                s.records.len(),
            ))[0] == from@);
            assert(u.contains(from@));
            assert(u.finite());
            let p = seq![from@];
            assert(is_chain(s, p));
            assert(conforms_to(s, from@, from@));
            assert(pending@[0]@ == from@);
            assert(holds(pending@, from@));
        }
        while pending.len() > 0
            invariant
                s == source_view(*self),
                u == universe(s, from@),
                u.finite(),
                seen_set.subset_of(u),
                forall|t: TyView| #[trigger] seen_set.contains(t) <==> holds(seen@, t),
                forall|i: int| 0 <= i < pending@.len() ==> u.contains(#[trigger] pending@[i]@),
                forall|i: int| 0 <= i < pending@.len() ==> conforms_to(s, from@, #[trigger] pending@[i]@),
                forall|t: TyView| #[trigger] seen_set.contains(t) ==> conforms_to(s, from@, t),
                !seen_set.contains(to@),
                seen_set.contains(from@) || holds(pending@, from@),
                forall|t: TyView, x: TyView|
                    seen_set.contains(t) && #[trigger] supertypes(s, t).contains(x) ==> seen_set.contains(x)
                        || holds(pending@, x),
            decreases u.len() - seen_set.len(), pending@.len(),
        {
            proof {
                vstd::set_lib::lemma_len_subset(seen_set, u);
            }
            let ghost before = pending@;
            let ty = pending.pop().unwrap();
            proof {
                assert(before.last() == ty);
                assert(pending@ =~= before.drop_last());
                assert(u.contains(before[before.len() - 1]@));
                assert(conforms_to(s, from@, before[before.len() - 1]@));
                assert forall|x: TyView| holds(before, x) implies holds(pending@, x) || x == ty@ by {
                    let i = choose|i: int| 0 <= i < before.len() && #[trigger] before[i]@ == x;
                    if i < before.len() - 1 {
                        assert(pending@[i] == before[i]);
                    }
                }
            }
            if contains_ty(&seen, &ty) {
                proof {
                    assert(seen_set.contains(ty@));
                }
                continue;
            }
            if ty_equal(&ty, to) {
                return true;
            }
            let ghost old_seen = seen@;
            let ghost old_set = seen_set;
            let ghost popped = pending@;
            seen.push(clone_ty(&ty));
            proof {
                seen_set = seen_set.insert(ty@);
                vstd::set_lib::lemma_len_subset(old_set, u);
                assert(seen_set.len() == old_set.len() + 1);
                assert(u.contains(ty@));
                vstd::set_lib::lemma_len_subset(seen_set, u);
                assert forall|t: TyView| #[trigger] seen_set.contains(t) <==> holds(seen@, t) by {
                    if holds(seen@, t) && t != ty@ {
                        let i = choose|i: int| 0 <= i < seen@.len() && #[trigger] seen@[i]@ == t;
                        assert(i < old_seen.len());
                        assert(old_seen[i]@ == t);
                    }
                    if old_set.contains(t) {
                        let i = choose|i: int| 0 <= i < old_seen.len() && #[trigger] old_seen[i]@ == t;
                        assert(seen@[i]@ == t);
                    }
                    if t == ty@ {
                        assert(seen@[old_seen.len() as int]@ == t);
                    }
                }
            }
            let name = ty.il();
            match self.find_interface(&name) {
                Some(i) => {
                    proof {
                        assert(s.interfaces[i as int] == interface_view(self.interfaces@[i as int]));
                        assert(supertypes(s, ty@) == types_view(self.interfaces@[i as int].bases@));
                    }
                    push_all(&mut pending, &self.interfaces[i].bases);
                },
                None => match self.find_record(&name) {
                    Some(r) => {
                        proof {
                            assert(s.records[r as int] == record_view(self.records@[r as int]));
                        }
                        push_all(&mut pending, &self.records[r].implements);
                        match &self.records[r].base {
                            Some(base) => {
                                pending.push(clone_ty(base));
                            },
                            None => {},
                        }
                    },
                    None => {},
                },
            }
            proof {
                let sup = supertypes(s, ty@);
                let p0 = popped.len() as int;
                assert(pending@.len() == p0 + sup.len());
                assert forall|k: int| 0 <= k < p0 implies #[trigger] pending@[k] == popped[k] by {}
                assert forall|k: int| 0 <= k < sup.len() implies #[trigger] pending@[p0 + k]@ == sup[k] by {}
                assert forall|i: int| 0 <= i < pending@.len() implies u.contains(#[trigger] pending@[i]@)
                    && conforms_to(s, from@, pending@[i]@) by {
                    if i < p0 {
                        assert(pending@[i] == popped[i]);
                        assert(popped[i] == before[i]);
                    } else {
                        let k = i - p0;
                        let x = sup[k];
                        assert(pending@[p0 + k]@ == sup[k]);
                        assert(p0 + k == i);
                        assert(pending@[i]@ == x);
                        assert(sup.contains(x));
                        lemma_in_universe(s, from@, ty@, x);
                        let p = choose|p: Seq<TyView>| #[trigger] is_chain(s, p) && p[0] == from@ && p.last() == ty@;
                        let q = p.push(x);
                        assert forall|j: int| #![trigger supertypes(s, q[j])] 0 <= j < q.len() - 1 implies supertypes(s, q[j]).contains(q[j + 1]) by {
                            if j < p.len() - 1 {
                                assert(q[j] == p[j] && q[j + 1] == p[j + 1]);
                            } else {
                                assert(q[j] == ty@ && q[j + 1] == x);
                            }
                        }
                        assert(is_chain(s, q) && q[0] == from@ && q.last() == x);
                    }
                }
                assert forall|x: TyView| holds(popped, x) implies holds(pending@, x) by {
                    let i = choose|i: int| 0 <= i < popped.len() && #[trigger] popped[i]@ == x;
                    assert(pending@[i] == popped[i]);
                }
                assert forall|x: TyView| sup.contains(x) implies holds(pending@, x) by {
                    let k = choose|k: int| 0 <= k < sup.len() && sup[k] == x;
                    assert(pending@[p0 + k]@ == x);
                }
                assert forall|t: TyView, x: TyView|
                    seen_set.contains(t) && #[trigger] supertypes(s, t).contains(x) implies seen_set.contains(x)
                        || holds(pending@, x) by {
                    if t == ty@ {
                    } else {
                        assert(old_set.contains(t));
                        if holds(before, x) {
                            if x == ty@ {
                            } else {
                                assert(holds(popped, x));
                            }
                        }
                    }
                }
                if !old_set.contains(from@) && from@ != ty@ {
                    assert(holds(popped, from@));
                }
            }
        }
        proof {
            assert(seen_set.contains(from@));
            assert forall|t: TyView, x: TyView|
                seen_set.contains(t) && #[trigger] supertypes(s, t).contains(x) implies seen_set.contains(x) by {
                assert(!holds(pending@, x));
            }
            if conforms_to(s, from@, to@) {
                let p = choose|p: Seq<TyView>| #[trigger] is_chain(s, p) && p[0] == from@ && p.last() == to@;
                lemma_closed_chain(s, seen_set, p, p.len() - 1);
            }
        }
        false
    }
}

} // verus!
