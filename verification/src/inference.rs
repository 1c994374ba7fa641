//! Inference of a generic function's type arguments from the types of the
//! arguments of one call.
use crate::fault::Fault;
use crate::types::{clone_type, lemma_type_views, list_view, types_equal, Type, TypeView};
use vstd::prelude::*;

verus! {

/// The view of the inferred type arguments, slot by slot.
pub open spec fn found_view(found: Seq<Option<Type>>) -> Seq<Option<TypeView>> {
    Seq::new(
        found.len(),
        |i: int|
            match found[i] {
                Some(t) => Some(t@),
                None => None,
            },
    )
}

/// Matches a formal parameter type against the actual argument type,
/// recording what each method type parameter stands for. A parameter already
/// bound to another type is a conflict: the result is then the slots as they
/// were at that point, with `false`. The result is `None` where a method type
/// parameter indexes past the slots.
pub open spec fn infer(formal: TypeView, actual: TypeView, found: Seq<Option<TypeView>>) -> Option<
    (Seq<Option<TypeView>>, bool),
>
    decreases formal, 0nat,
{
    match formal {
        TypeView::MethodTypeParameter(i) => if i >= found.len() {
            None
        } else if found[i as int] matches Some(previous) && previous != actual {
            Some((found, false))
        } else {
            Some((found.update(i as int, Some(actual)), true))
        },
        TypeView::ByRef(f) | TypeView::ReadOnlyByRef(f) => match actual {
            TypeView::ByRef(a) | TypeView::ReadOnlyByRef(a) => infer(*f, *a, found),
            _ => Some((found, true)),
        },
        TypeView::Array(f) => match actual {
            TypeView::Array(a) => infer(*f, *a, found),
            _ => Some((found, true)),
        },
        TypeView::Constructed { definition: d, arguments: fs } => match actual {
            TypeView::Constructed { definition: e, arguments: args } => if d == e && fs.len()
                == args.len() {
                infer_all(fs, args, 0, found)
            } else {
                Some((found, true))
            },
            _ => Some((found, true)),
        },
        _ => Some((found, true)),
    }
}

/// `infer` over paired argument lists from position `i` on, left to right,
/// stopping at the first conflict.
pub open spec fn infer_all(
    fs: Seq<TypeView>,
    args: Seq<TypeView>,
    i: nat,
    found: Seq<Option<TypeView>>,
) -> Option<(Seq<Option<TypeView>>, bool)>
    decreases fs, fs.len() - i,
{
    if i >= fs.len() || i >= args.len() {
        Some((found, true))
    } else {
        match infer(fs[i as int], args[i as int], found) {
            None => None,
            Some((next, ok)) => if !ok {
                Some((next, false))
            } else {
                infer_all(fs, args, i + 1, next)
            },
        }
    }
}

/// What `infer_parameters` promises for one outcome of `infer`.
pub open spec fn inferred(
    outcome: Option<(Seq<Option<TypeView>>, bool)>,
    after: Seq<Option<Type>>,
    r: Result<(), Fault>,
) -> bool {
    match outcome {
        Some((slots, ok)) => {
            &&& found_view(after) == slots
            &&& match r {
                Ok(()) => ok,
                Err(f) => !ok && f.message@
                    == "conflicting inferred type arguments; supply explicit type arguments"@,
            }
        },
        None => false,
    }
}

fn infer_list(fs: &Vec<Type>, args: &Vec<Type>, found: &mut Vec<Option<Type>>) -> (r: Result<
    (),
    Fault,
>)
    requires
        fs@.len() == args@.len(),
        infer_all(list_view(fs@), list_view(args@), 0, found_view(old(found)@)) is Some,
    ensures
        inferred(infer_all(list_view(fs@), list_view(args@), 0, found_view(old(found)@)), final(found)@, r),
    decreases fs@, 1nat,
{
    let ghost fv = list_view(fs@);
    let ghost av = list_view(args@);
    let ghost whole = infer_all(fv, av, 0, found_view(found@));
    proof {
        lemma_type_views(fs@, fs@.len());
        lemma_type_views(args@, args@.len());
    }
    let mut i: usize = 0;
    while i < fs.len()
        invariant
            i <= fs@.len(),
            fs@.len() == args@.len(),
            fv == list_view(fs@),
            av == list_view(args@),
            fv.len() == fs@.len(),
            av.len() == args@.len(),
            forall|j: int| 0 <= j < fs@.len() ==> #[trigger] fv[j] == fs@[j]@,
            forall|j: int| 0 <= j < args@.len() ==> #[trigger] av[j] == args@[j]@,
            whole is Some,
            whole == infer_all(fv, av, 0, found_view(old(found)@)),
            whole == infer_all(fv, av, i as nat, found_view(found@)),
        decreases fs.len() - i,
    {
        assert(decreases_to!(fs@ => fs@[i as int]));
        proof {
            assert(fv[i as int] == fs@[i as int]@);
            assert(av[i as int] == args@[i as int]@);
        }
        let ghost cur = found_view(found@);
        let step = infer_parameters(&fs[i], &args[i], found);
        proof {
            assert(infer(fv[i as int], av[i as int], cur) is Some);
            let (next, ok) = infer(fv[i as int], av[i as int], cur)->0;
            assert(found_view(found@) == next);
            assert(step is Ok <==> ok);
            if !ok {
                assert(whole == Some((next, false)));
            }
        }
        if step.is_err() {
            return step;
        }
        i += 1;
    }
    Ok(())
}

/// Infers the method type arguments of one call from one formal parameter
/// type and the actual argument type (see `infer`). A method type parameter
/// that indexes past `found` is outside what this accepts.
pub fn infer_parameters(formal: &Type, actual: &Type, found: &mut Vec<Option<Type>>) -> (r: Result<
    (),
    Fault,
>)
    requires
        infer(formal@, actual@, found_view(old(found)@)) is Some,
    ensures
        inferred(infer(formal@, actual@, found_view(old(found)@)), final(found)@, r),
    decreases formal, 0nat,
{
    match formal {
        Type::MethodTypeParameter(index) => {
            let i = *index as usize;
            let conflict = match &found[i] {
                Some(previous) => !types_equal(previous, actual),
                None => false,
            };
            if conflict {
                return Err(
                    Fault::new("conflicting inferred type arguments; supply explicit type arguments"),
                );
            }
            let ghost before = found@;
            found.set(i, Some(clone_type(actual)));
            proof {
                assert(found_view(found@) =~= found_view(before).update(i as int, Some(actual@)));
            }
            Ok(())
        },
        Type::ByRef(f) | Type::ReadOnlyByRef(f) => match actual {
            Type::ByRef(a) | Type::ReadOnlyByRef(a) => infer_parameters(f, a, found),
            _ => Ok(()),
        },
        Type::Array(f) => match actual {
            Type::Array(a) => infer_parameters(f, a, found),
            _ => Ok(()),
        },
        Type::Constructed { definition: d, arguments: fs } => match actual {
            Type::Constructed { definition: e, arguments: args } => {
                proof {
                    lemma_type_views(fs@, fs@.len());
                    lemma_type_views(args@, args@.len());
                }
                if *d == *e && fs.len() == args.len() {
                    infer_list(fs, args, found)
                } else {
                    Ok(())
                }
            },
            _ => Ok(()),
        },
        _ => Ok(()),
    }
}

} // verus!
