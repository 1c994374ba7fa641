//! Lookups in a source document: a record's base chain and the methods it
//! inherits.
use crate::tree::Function;
use crate::document::{record_view, source_view, RecordView, Source};
use crate::frontend::{clone_ty, il, Ty, TyView};
use vstd::prelude::*;

verus! {

/// How many records a walk up a base chain visits at most.
pub const BASE_WALK_LIMIT: usize = 64;

/// The first record from position `i` on whose name is `name`.
pub open spec fn record_named(records: Seq<RecordView>, name: Seq<char>, i: int) -> Option<int>
    decreases records.len() - i,
{
    if i < 0 || i >= records.len() {
        None
    } else if records[i].name.0 == name {
        Some(i)
    } else {
        record_named(records, name, i + 1)
    }
}

/// The base of the record that `ty` names, if it names one.
pub open spec fn base_of(records: Seq<RecordView>, ty: TyView) -> Option<TyView> {
    match record_named(records, il(ty), 0) {
        Some(r) => records[r].base,
        None => None,
    }
}

/// Whether `to` lies on the base chain that starts at `current`, within
/// `steps` records.
pub open spec fn base_walk(records: Seq<RecordView>, current: Option<TyView>, to: TyView, steps: nat) -> bool
    decreases steps,
{
    if steps == 0 {
        false
    } else {
        match current {
            None => false,
            Some(ty) => ty == to || base_walk(records, base_of(records, ty), to, (steps - 1) as nat),
        }
    }
}

/// The first instance method named `name` from position `i` on.
pub open spec fn instance_method_named(methods: Seq<crate::declarations::FunctionView>, name: Seq<char>, i: int) -> Option<int>
    decreases methods.len() - i,
{
    if i < 0 || i >= methods.len() {
        None
    } else if methods[i].name.0 == name && !methods[i].is_static {
        Some(i)
    } else {
        instance_method_named(methods, name, i + 1)
    }
}

/// The first record on the base chain from `current`, within `steps`
/// records, that declares an instance method named `name`: the record's IL
/// name, its position and the method's position.
pub open spec fn method_walk(records: Seq<RecordView>, current: Option<TyView>, name: Seq<char>, steps: nat) -> Option<
    (Seq<char>, int, int),
>
    decreases steps,
{
    if steps == 0 {
        None
    } else {
        match current {
            None => None,
            Some(ty) => match record_named(records, il(ty), 0) {
                None => None,
                Some(r) => match instance_method_named(records[r].methods, name, 0) {
                    Some(m) => Some((il(ty), r, m)),
                    None => method_walk(records, records[r].base, name, (steps - 1) as nat),
                },
            },
        }
    }
}

/// Whether two source types are the same.
pub fn ty_equal(a: &Ty, b: &Ty) -> (r: bool)
    ensures
        r == (a@ == b@),
    decreases a,
{
    match (a, b) {
        (Ty::Int, Ty::Int) | (Ty::String, Ty::String) | (Ty::Bool, Ty::Bool) | (Ty::Void, Ty::Void) => true,
        (Ty::Record(x), Ty::Record(y)) => *x == *y,
        (Ty::Ref(x), Ty::Ref(y)) => ty_equal(x, y),
        (Ty::ReadOnlyRef(x), Ty::ReadOnlyRef(y)) => ty_equal(x, y),
        (Ty::Array(x), Ty::Array(y)) => ty_equal(x, y),
        _ => false,
    }
}

impl Source {
    /// The position of the first record named `name`.
    pub(crate) fn find_record(&self, name: &String) -> (r: Option<usize>)
        ensures
            match r {
                Some(i) => i < self.records@.len() && record_named(source_view(*self).records, name@, 0)
                    == Some(i as int),
                None => record_named(source_view(*self).records, name@, 0) is None,
            },
    {
        let ghost records = source_view(*self).records;
        let mut i: usize = 0;
        while i < self.records.len()
            invariant
                i <= self.records@.len(),
                records == source_view(*self).records,
                records.len() == self.records@.len(),
                record_named(records, name@, 0) == record_named(records, name@, i as int),
            decreases self.records.len() - i,
        {
            assert(records[i as int] == record_view(self.records@[i as int]));
            if self.records[i].name.text == *name {
                return Some(i);
            }
            i += 1;
        }
        None
    }

    /// Whether `to` lies on the base chain of `from`, `from` itself included,
    /// within `BASE_WALK_LIMIT` records.
    pub fn base_reachable(&self, from: &Ty, to: &Ty) -> (b: bool)
        ensures
            b == base_walk(source_view(*self).records, Some(from@), to@, BASE_WALK_LIMIT as nat),
    {
        let ghost records = source_view(*self).records;
        let mut current: Option<Ty> = Some(clone_ty(from));
        let mut steps: usize = 0;
        while steps < BASE_WALK_LIMIT
            invariant
                steps <= BASE_WALK_LIMIT,
                records == source_view(*self).records,
                records.len() == self.records@.len(),
                base_walk(records, Some(from@), to@, BASE_WALK_LIMIT as nat) == base_walk(
                    records,
                    match current {
                        Some(t) => Some(t@),
                        None => None,
                    },
                    to@,
                    (BASE_WALK_LIMIT - steps) as nat,
                ),
            decreases BASE_WALK_LIMIT - steps,
        {
            let ty = match current {
                Some(ty) => ty,
                None => return false,
            };
            if ty_equal(&ty, to) {
                return true;
            }
            let ghost n = (BASE_WALK_LIMIT - steps) as nat;
            assert(base_walk(records, Some(ty@), to@, n) == base_walk(
                records,
                base_of(records, ty@),
                to@,
                (n - 1) as nat,
            ));
            let name = ty.il();
            current = match self.find_record(&name) {
                Some(i) => {
                    assert(records[i as int] == record_view(self.records@[i as int]));
                    match &self.records[i].base {
                        Some(base) => Some(clone_ty(base)),
                        None => None,
                    }
                },
                None => None,
            };
            assert(match current {
                Some(t) => Some(t@),
                None => None,
            } == base_of(records, ty@));
            steps += 1;
        }
        false
    }

    /// The first record on the base chain of `target`, within
    /// `BASE_WALK_LIMIT` records, that declares an instance method named
    /// `name`: that record's IL name and the method.
    pub fn record_method(&self, target: &Ty, name: &str) -> (r: Option<(String, &Function)>)
        ensures
            match method_walk(source_view(*self).records, Some(target@), name@, BASE_WALK_LIMIT as nat) {
                Some((owner, ri, mi)) => r matches Some((o, f)) && o@ == owner && 0 <= ri
                    < self.records@.len() && 0 <= mi < self.records@[ri].methods@.len() && *f
                    == self.records@[ri].methods@[mi],
                None => r is None,
            },
    {
        let ghost records = source_view(*self).records;
        let mut current: Option<Ty> = Some(clone_ty(target));
        let mut steps: usize = 0;
        while steps < BASE_WALK_LIMIT
            invariant
                steps <= BASE_WALK_LIMIT,
                records == source_view(*self).records,
                records.len() == self.records@.len(),
                method_walk(records, Some(target@), name@, BASE_WALK_LIMIT as nat) == method_walk(
                    records,
                    match current {
                        Some(t) => Some(t@),
                        None => None,
                    },
                    name@,
                    (BASE_WALK_LIMIT - steps) as nat,
                ),
            decreases BASE_WALK_LIMIT - steps,
        {
            let ty = match current {
                Some(ty) => ty,
                None => return None,
            };
            let owner = ty.il();
            let i = match self.find_record(&owner) {
                Some(i) => i,
                None => return None,
            };
            assert(records[i as int] == record_view(self.records@[i as int]));
            let record = &self.records[i];
            let ghost methods = records[i as int].methods;
            let mut m: usize = 0;
            while m < record.methods.len()
                invariant
                    m <= record.methods@.len(),
                    methods == records[i as int].methods,
                    records[i as int] == record_view(*record),
                    methods.len() == record.methods@.len(),
                    instance_method_named(methods, name@, 0) == instance_method_named(methods, name@, m as int),
                    records == source_view(*self).records,
                    records.len() == self.records@.len(),
                    i < self.records@.len(),
                    *record == self.records@[i as int],
                    owner@ == il(ty@),
                    record_named(records, il(ty@), 0) == Some(i as int),
                    steps < BASE_WALK_LIMIT,
                    method_walk(records, Some(target@), name@, BASE_WALK_LIMIT as nat) == method_walk(
                        records,
                        Some(ty@),
                        name@,
                        (BASE_WALK_LIMIT - steps) as nat,
                    ),
                decreases record.methods.len() - m,
            {
                assert(methods[m as int] == crate::declarations::function_view(record.methods@[m as int]));
                if !record.methods[m].is_static && crate::text::str_eq(record.methods[m].name.text.as_str(), name) {
                    assert(instance_method_named(methods, name@, 0) == Some(m as int));
                    assert(method_walk(records, Some(ty@), name@, (BASE_WALK_LIMIT - steps) as nat) == Some(
                        (il(ty@), i as int, m as int),
                    ));
                    return Some((owner, &record.methods[m]));
                }
                m += 1;
            }
            assert(instance_method_named(methods, name@, 0) is None);
            assert(method_walk(records, Some(ty@), name@, (BASE_WALK_LIMIT - steps) as nat) == method_walk(
                records,
                records[i as int].base,
                name@,
                (BASE_WALK_LIMIT - steps - 1) as nat,
            ));
            current = match &record.base {
                Some(base) => Some(clone_ty(base)),
                None => None,
            };
            assert(match current {
                Some(t) => Some(t@),
                None => None,
            } == records[i as int].base);
            steps += 1;
        }
        None
    }
}

} // verus!
