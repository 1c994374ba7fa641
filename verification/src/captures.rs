//! Lexical capture analysis: which bindings a lambda captures, told apart by
//! where they are declared, and which names a lambda leaves free.
use crate::lexer::Token;
use crate::parser::{Field, Pattern};
use crate::tree::{Arm, ArmBody, Expr, ExprKind, Function, Stmt};
use crate::text::str_eq;
use vstd::prelude::*;
use vstd::string::StringExecFns;

verus! {

/// A binding's identity: the line and column of its declaring token.
pub type Key = (usize, usize);

pub open spec fn key_of(t: Token) -> Key {
    (t.line, t.column)
}

/// A binding in scope: its name, identity, and the lambda depth it was
/// declared at. Later bindings shadow earlier ones.
pub type Binding = (Seq<char>, Key, nat);

/// The innermost of the first `n` bindings of `name`.
pub open spec fn innermost(scope: Seq<Binding>, name: Seq<char>, n: nat) -> Option<(Key, nat)>
    decreases n,
{
    if n == 0 || n > scope.len() {
        None
    } else if scope[n - 1].0 == name {
        Some((scope[n - 1].1, scope[n - 1].2))
    } else {
        innermost(scope, name, (n - 1) as nat)
    }
}

/// What a part of a tree uses: the captured bindings, the free names, and
/// the deepest lambda depth reached.
pub type Uses = (Set<Key>, Set<Seq<char>>, nat);

pub open spec fn none_at(depth: nat) -> Uses {
    (Set::empty(), Set::empty(), depth)
}

pub open spec fn join(a: Uses, b: Uses) -> Uses {
    (a.0 + b.0, a.1 + b.1, if a.2 >= b.2 {
        a.2
    } else {
        b.2
    })
}

/// A use of `name` at lambda depth `depth`: a binding declared at a lesser
/// depth is captured; an unbound name is free.
pub open spec fn name_use(scope: Seq<Binding>, name: Seq<char>, depth: nat) -> Uses {
    match innermost(scope, name, scope.len()) {
        Some((key, declared)) => if declared < depth {
            (set![key], Set::empty(), depth)
        } else {
            none_at(depth)
        },
        None => (Set::empty(), set![name], depth),
    }
}

/// The scope with lambda parameters bound at `depth`.
pub open spec fn with_parameters(scope: Seq<Binding>, ps: Seq<(Token, Option<crate::frontend::Ty>)>, depth: nat) -> Seq<
    Binding,
> {
    scope + Seq::new(ps.len(), |i: int| (ps[i].0.text@, key_of(ps[i].0), depth))
}

/// What an expression uses in `scope` at lambda depth `depth`.
pub open spec fn expr_uses(e: Expr, scope: Seq<Binding>, depth: nat) -> Uses
    decreases e, 0int,
{
    match e.kind {
        ExprKind::Name(name) => name_use(scope, name@, depth),
        ExprKind::Lambda(ps, body) => {
            let u = arm_uses(*body, with_parameters(scope, ps@, depth + 1), depth + 1);
            (u.0, u.1, if u.2 >= depth + 1 {
                u.2
            } else {
                depth + 1
            })
        },
        ExprKind::Field(inner, _) => expr_uses(*inner, scope, depth),
        ExprKind::Unary(_, inner) => expr_uses(*inner, scope, depth),
        ExprKind::Generic(inner, _) => expr_uses(*inner, scope, depth),
        ExprKind::Out(inner) => expr_uses(*inner, scope, depth),
        ExprKind::InterfaceCast(inner, _) => expr_uses(*inner, scope, depth),
        ExprKind::Call(callee, args) => join(
            expr_uses(*callee, scope, depth),
            exprs_uses(args@, scope, depth, args@.len() as int),
        ),
        ExprKind::Binary(_, a, b) => join(expr_uses(*a, scope, depth), expr_uses(*b, scope, depth)),
        ExprKind::Index(a, b) => join(expr_uses(*a, scope, depth), expr_uses(*b, scope, depth)),
        ExprKind::ArrayLiteral(items) => exprs_uses(items@, scope, depth, items@.len() as int),
        ExprKind::NewArray(_, n, items) => join(
            expr_uses(*n, scope, depth),
            exprs_uses(items@, scope, depth, items@.len() as int),
        ),
        ExprKind::Match(value, arms) => join(
            expr_uses(*value, scope, depth),
            arms_uses(arms@, scope, depth, arms@.len() as int),
        ),
        _ => none_at(depth),
    }
}

/// What the first `n` expressions use.
pub open spec fn exprs_uses(es: Seq<Expr>, scope: Seq<Binding>, depth: nat, n: int) -> Uses
    decreases es, n,
{
    if n <= 0 || n > es.len() {
        none_at(depth)
    } else {
        join(exprs_uses(es, scope, depth, n - 1), expr_uses(es[n - 1], scope, depth))
    }
}

/// The scope of an arm's body: a payload binding is declared at `depth`.
pub open spec fn arm_scope(scope: Seq<Binding>, p: Pattern, depth: nat) -> Seq<Binding> {
    match p {
        Pattern::Case(_, Some(Some(name))) => scope.push((name.text@, key_of(name), depth)),
        _ => scope,
    }
}

/// What the first `n` arms use.
pub open spec fn arms_uses(arms: Seq<Arm>, scope: Seq<Binding>, depth: nat, n: int) -> Uses
    decreases arms, n,
{
    if n <= 0 || n > arms.len() {
        none_at(depth)
    } else {
        join(
            arms_uses(arms, scope, depth, n - 1),
            arm_uses(arms[n - 1].body, arm_scope(scope, arms[n - 1].pattern, depth), depth),
        )
    }
}

/// What an arm or lambda body uses.
pub open spec fn arm_uses(body: ArmBody, scope: Seq<Binding>, depth: nat) -> Uses
    decreases body, 0int,
{
    match body {
        ArmBody::Expression(e) => expr_uses(e, scope, depth),
        ArmBody::Block(b) => block_uses(b@, 0, scope, depth),
    }
}

/// The scope after a statement: a declaration binds its name at `depth`.
pub open spec fn after(s: Stmt, scope: Seq<Binding>, depth: nat) -> Seq<Binding> {
    match s {
        Stmt::Bind { name, .. } => scope.push((name.text@, key_of(name), depth)),
        _ => scope,
    }
}

/// What the statements from `i` on use, each in the scope its predecessors
/// leave.
pub open spec fn block_uses(stmts: Seq<Stmt>, i: int, scope: Seq<Binding>, depth: nat) -> Uses
    decreases stmts, stmts.len() - i,
{
    if i < 0 || i >= stmts.len() {
        none_at(depth)
    } else {
        join(
            stmt_uses(stmts[i], scope, depth),
            block_uses(stmts, i + 1, after(stmts[i], scope, depth), depth),
        )
    }
}

/// What an optional expression uses.
pub open spec fn option_uses(e: Option<Expr>, scope: Seq<Binding>, depth: nat) -> Uses
    decreases e, 0int,
{
    match e {
        Some(x) => expr_uses(x, scope, depth),
        None => none_at(depth),
    }
}

/// What a statement uses; a declaration's value is read before its name is
/// bound, and a loop variable is bound in the loop body only.
pub open spec fn stmt_uses(s: Stmt, scope: Seq<Binding>, depth: nat) -> Uses
    decreases s, 0int,
{
    match s {
        Stmt::Bind { value, .. } => option_uses(value, scope, depth),
        Stmt::Assign(a, b) => join(expr_uses(a, scope, depth), expr_uses(b, scope, depth)),
        Stmt::Return(_, value) => option_uses(value, scope, depth),
        Stmt::Expression(e) => expr_uses(e, scope, depth),
        Stmt::If(c, yes, no) => join(
            expr_uses(c, scope, depth),
            join(block_uses(yes@, 0, scope, depth), block_uses(no@, 0, scope, depth)),
        ),
        Stmt::While(c, body) => join(expr_uses(c, scope, depth), block_uses(body@, 0, scope, depth)),
        Stmt::Loop(_, body) => block_uses(body@, 0, scope, depth),
        Stmt::For(name, start, end, _, body) => join(
            expr_uses(start, scope, depth),
            join(
                expr_uses(end, scope, depth),
                block_uses(body@, 0, scope.push((name.text@, key_of(name), depth)), depth),
            ),
        ),
        _ => none_at(depth),
    }
}


/// The names of a list of strings, as a set.
pub open spec fn names_set(v: Seq<String>) -> Set<Seq<char>> {
    Set::new(|s: Seq<char>| exists|i: int| 0 <= i < v.len() && (#[trigger] v[i])@ == s)
}

/// Whether no two of the strings spell the same name.
pub open spec fn distinct_names(v: Seq<String>) -> bool {
    forall|i: int, j: int| 0 <= i < j < v.len() ==> (#[trigger] v[i])@ != (#[trigger] v[j])@
}

/// What an analysis has found so far: captured bindings and free names,
/// each listed once.
pub struct Analysis {
    pub captured: Vec<Key>,
    pub free: Vec<String>,
}

impl Analysis {
    pub open spec fn wf(&self) -> bool {
        self.captured@.no_duplicates() && distinct_names(self.free@)
    }

    pub open spec fn keys(&self) -> Set<Key> {
        self.captured@.to_set()
    }

    pub open spec fn names(&self) -> Set<Seq<char>> {
        names_set(self.free@)
    }
}

/// A scope entry during the analysis: name, identity and lambda depth.
pub type Entry = (String, Key, usize);

pub open spec fn scope_view(v: Seq<Entry>) -> Seq<Binding> {
    Seq::new(v.len(), |i: int| (v[i].0@, v[i].1, v[i].2 as nat))
}

fn note_key(a: &mut Analysis, key: Key)
    requires
        old(a).wf(),
    ensures
        final(a).wf(),
        final(a).keys() == old(a).keys().insert(key),
        final(a).names() == old(a).names(),
        final(a).free@ == old(a).free@,
{
    let mut i: usize = 0;
    while i < a.captured.len()
        invariant
            i <= a.captured@.len(),
            a.wf(),
            forall|k: int| 0 <= k < i ==> a.captured@[k] != key,
        decreases a.captured.len() - i,
    {
        if a.captured[i].0 == key.0 && a.captured[i].1 == key.1 {
            assert(a.keys() =~= a.keys().insert(key));
            return;
        }
        i += 1;
    }
    let ghost before = a.captured@;
    a.captured.push(key);
    proof {
        assert(a.captured@ == before.push(key));
        before.lemma_push_to_set_commute(key);
        assert(a.captured@.no_duplicates());
    }
}

fn note_free(a: &mut Analysis, name: &String)
    requires
        old(a).wf(),
    ensures
        final(a).wf(),
        final(a).names() == old(a).names().insert(name@),
        final(a).keys() == old(a).keys(),
        final(a).captured@ == old(a).captured@,
{
    let mut i: usize = 0;
    while i < a.free.len()
        invariant
            i <= a.free@.len(),
            a.wf(),
            forall|k: int| 0 <= k < i ==> (#[trigger] a.free@[k])@ != name@,
        decreases a.free.len() - i,
    {
        if str_eq(a.free[i].as_str(), name.as_str()) {
            assert(a.names().contains(name@)) by {
                assert(a.free@[i as int]@ == name@);
            }
            assert(a.names() =~= a.names().insert(name@));
            return;
        }
        i += 1;
    }
    let ghost before = a.free@;
    a.free.push(name.clone());
    proof {
        assert(a.free@ == before.push(a.free@.last()));
        assert(a.names() =~= names_set(before).insert(name@)) by {
            assert forall|s: Seq<char>| a.names().contains(s) implies names_set(before).insert(
                name@,
            ).contains(s) by {
                let i = choose|i: int| 0 <= i < a.free@.len() && (#[trigger] a.free@[i])@ == s;
                if i < before.len() {
                    assert(before[i] == a.free@[i]);
                }
            }
            assert forall|s: Seq<char>| names_set(before).insert(name@).contains(s) implies a.names().contains(
                s,
            ) by {
                if s == name@ {
                    assert(a.free@[before.len() as int]@ == s);
                } else {
                    let i = choose|i: int| 0 <= i < before.len() && (#[trigger] before[i])@ == s;
                    assert(a.free@[i] == before[i]);
                }
            }
        }
    }
}

/// The innermost binding of `name` (see `innermost`).
fn lookup(scope: &Vec<Entry>, name: &str) -> (r: Option<(Key, usize)>)
    ensures
        match innermost(scope_view(scope@), name@, scope@.len()) {
            Some((key, declared)) => r matches Some((k, d)) && k == key && d as nat == declared,
            None => r is None,
        },
{
    let mut n = scope.len();
    while n > 0
        invariant
            n <= scope@.len(),
            innermost(scope_view(scope@), name@, scope@.len()) == innermost(
                scope_view(scope@),
                name@,
                n as nat,
            ),
        decreases n,
    {
        if str_eq(scope[n - 1].0.as_str(), name) {
            return Some((scope[n - 1].1, scope[n - 1].2));
        }
        n -= 1;
    }
    None
}


proof fn lemma_exprs_bound(es: Seq<Expr>, scope: Seq<Binding>, depth: nat, n: int)
    ensures
        forall|k: int|
            0 <= k < n <= es.len() ==> expr_uses(#[trigger] es[k], scope, depth).2 <= exprs_uses(
                es,
                scope,
                depth,
                n,
            ).2,
    decreases n,
{
    if n > 0 {
        lemma_exprs_bound(es, scope, depth, n - 1);
    }
}

proof fn lemma_arms_bound(arms: Seq<Arm>, scope: Seq<Binding>, depth: nat, n: int)
    ensures
        forall|k: int|
            0 <= k < n <= arms.len() ==> arm_uses(
                (#[trigger] arms[k]).body,
                arm_scope(scope, arms[k].pattern, depth),
                depth,
            ).2 <= arms_uses(arms, scope, depth, n).2,
    decreases n,
{
    if n > 0 {
        lemma_arms_bound(arms, scope, depth, n - 1);
    }
}

fn bind(scope: &mut Vec<Entry>, name: &Token, depth: usize)
    ensures
        scope_view(final(scope)@) == scope_view(old(scope)@).push((name.text@, key_of(*name), depth as nat)),
        final(scope)@.len() == old(scope)@.len() + 1,
        final(scope)@.subrange(0, old(scope)@.len() as int) == old(scope)@,
{
    scope.push((name.text.clone(), (name.line, name.column), depth));
    proof {
        assert(scope_view(scope@) =~= scope_view(old(scope)@).push((name.text@, key_of(*name), depth as nat)));
        assert(scope@.subrange(0, old(scope)@.len() as int) =~= old(scope)@);
    }
}

fn expression(a: &mut Analysis, e: &Expr, scope: &mut Vec<Entry>, depth: usize)
    requires
        old(a).wf(),
        expr_uses(*e, scope_view(old(scope)@), depth as nat).2 <= usize::MAX,
    ensures
        final(a).wf(),
        final(scope)@ == old(scope)@,
        final(a).keys() == old(a).keys() + expr_uses(*e, scope_view(old(scope)@), depth as nat).0,
        final(a).names() == old(a).names() + expr_uses(*e, scope_view(old(scope)@), depth as nat).1,
    decreases e, 0int,
{
    let ghost view = scope_view(scope@);
    match &e.kind {
        ExprKind::Name(name) => {
            match lookup(scope, name.as_str()) {
                Some((key, declared)) => {
                    if declared < depth {
                        note_key(a, key);
                    }
                },
                None => note_free(a, name),
            }
            proof {
                assert(a.keys() =~= old(a).keys() + expr_uses(*e, view, depth as nat).0);
                assert(a.names() =~= old(a).names() + expr_uses(*e, view, depth as nat).1);
            }
        },
        ExprKind::Lambda(ps, body) => {
            let inner = depth + 1;
            let len = scope.len();
            let mut i: usize = 0;
            while i < ps.len()
                invariant
                    i <= ps@.len(),
                    len == old(scope)@.len(),
                    view == scope_view(old(scope)@),
                    scope@.len() >= len,
                    scope@.subrange(0, len as int) == old(scope)@,
                    scope_view(scope@) == with_parameters(view, ps@.take(i as int), inner as nat),
                decreases ps.len() - i,
            {
                let ghost before = scope@;
                bind(scope, &ps[i].0, inner);
                i += 1;
                proof {
                    assert(scope@.subrange(0, len as int) =~= before.subrange(0, len as int));
                    assert(with_parameters(view, ps@.take(i as int), inner as nat) =~= with_parameters(
                        view,
                        ps@.take(i - 1),
                        inner as nat,
                    ).push((ps@[i - 1].0.text@, key_of(ps@[i - 1].0), inner as nat)));
                }
            }
            proof {
                assert(ps@.take(ps@.len() as int) =~= ps@);
            }
            arm(a, body, scope, inner);
            scope.truncate(len);
            proof {
                assert(a.keys() =~= old(a).keys() + expr_uses(*e, view, depth as nat).0);
                assert(a.names() =~= old(a).names() + expr_uses(*e, view, depth as nat).1);
            }
        },
        ExprKind::Field(inner, _) => expression(a, inner, scope, depth),
        ExprKind::Unary(_, inner) => expression(a, inner, scope, depth),
        ExprKind::Generic(inner, _) => expression(a, inner, scope, depth),
        ExprKind::Out(inner) => expression(a, inner, scope, depth),
        ExprKind::InterfaceCast(inner, _) => expression(a, inner, scope, depth),
        ExprKind::Call(callee, args) => {
            expression(a, callee, scope, depth);
            expressions(a, args, scope, depth);
            proof {
                assert(a.keys() =~= old(a).keys() + expr_uses(*e, view, depth as nat).0);
                assert(a.names() =~= old(a).names() + expr_uses(*e, view, depth as nat).1);
            }
        },
        ExprKind::Binary(_, x, y) => {
            expression(a, x, scope, depth);
            expression(a, y, scope, depth);
            proof {
                assert(a.keys() =~= old(a).keys() + expr_uses(*e, view, depth as nat).0);
                assert(a.names() =~= old(a).names() + expr_uses(*e, view, depth as nat).1);
            }
        },
        ExprKind::Index(x, y) => {
            expression(a, x, scope, depth);
            expression(a, y, scope, depth);
            proof {
                assert(a.keys() =~= old(a).keys() + expr_uses(*e, view, depth as nat).0);
                assert(a.names() =~= old(a).names() + expr_uses(*e, view, depth as nat).1);
            }
        },
        ExprKind::ArrayLiteral(items) => expressions(a, items, scope, depth),
        ExprKind::NewArray(_, n, items) => {
            expression(a, n, scope, depth);
            expressions(a, items, scope, depth);
            proof {
                assert(a.keys() =~= old(a).keys() + expr_uses(*e, view, depth as nat).0);
                assert(a.names() =~= old(a).names() + expr_uses(*e, view, depth as nat).1);
            }
        },
        ExprKind::Match(value, arms) => {
            expression(a, value, scope, depth);
            match_arms(a, arms, scope, depth);
            proof {
                assert(a.keys() =~= old(a).keys() + expr_uses(*e, view, depth as nat).0);
                assert(a.names() =~= old(a).names() + expr_uses(*e, view, depth as nat).1);
            }
        },
        _ => {
            proof {
                assert(a.keys() =~= old(a).keys() + expr_uses(*e, view, depth as nat).0);
                assert(a.names() =~= old(a).names() + expr_uses(*e, view, depth as nat).1);
            }
        },
    }
}

fn expressions(a: &mut Analysis, es: &Vec<Expr>, scope: &mut Vec<Entry>, depth: usize)
    requires
        old(a).wf(),
        exprs_uses(es@, scope_view(old(scope)@), depth as nat, es@.len() as int).2 <= usize::MAX,
    ensures
        final(a).wf(),
        final(scope)@ == old(scope)@,
        final(a).keys() == old(a).keys() + exprs_uses(
            es@,
            scope_view(old(scope)@),
            depth as nat,
            es@.len() as int,
        ).0,
        final(a).names() == old(a).names() + exprs_uses(
            es@,
            scope_view(old(scope)@),
            depth as nat,
            es@.len() as int,
        ).1,
    decreases es@, 0int,
{
    let ghost view = scope_view(scope@);
    proof {
        lemma_exprs_bound(es@, view, depth as nat, es@.len() as int);
        assert(a.keys() =~= old(a).keys() + exprs_uses(es@, view, depth as nat, 0).0);
        assert(a.names() =~= old(a).names() + exprs_uses(es@, view, depth as nat, 0).1);
    }
    let mut i: usize = 0;
    while i < es.len()
        invariant
            i <= es@.len(),
            a.wf(),
            scope@ == old(scope)@,
            view == scope_view(old(scope)@),
            forall|k: int|
                0 <= k < es@.len() ==> expr_uses(#[trigger] es@[k], view, depth as nat).2
                    <= usize::MAX,
            a.keys() == old(a).keys() + exprs_uses(es@, view, depth as nat, i as int).0,
            a.names() == old(a).names() + exprs_uses(es@, view, depth as nat, i as int).1,
        decreases es.len() - i,
    {
        expression(a, &es[i], scope, depth);
        i += 1;
        proof {
            assert(a.keys() =~= old(a).keys() + exprs_uses(es@, view, depth as nat, i as int).0);
            assert(a.names() =~= old(a).names() + exprs_uses(es@, view, depth as nat, i as int).1);
        }
    }
}

fn match_arms(a: &mut Analysis, arms: &Vec<Arm>, scope: &mut Vec<Entry>, depth: usize)
    requires
        old(a).wf(),
        arms_uses(arms@, scope_view(old(scope)@), depth as nat, arms@.len() as int).2 <= usize::MAX,
    ensures
        final(a).wf(),
        final(scope)@ == old(scope)@,
        final(a).keys() == old(a).keys() + arms_uses(
            arms@,
            scope_view(old(scope)@),
            depth as nat,
            arms@.len() as int,
        ).0,
        final(a).names() == old(a).names() + arms_uses(
            arms@,
            scope_view(old(scope)@),
            depth as nat,
            arms@.len() as int,
        ).1,
    decreases arms@, 0int,
{
    let ghost view = scope_view(scope@);
    proof {
        lemma_arms_bound(arms@, view, depth as nat, arms@.len() as int);
        assert(a.keys() =~= old(a).keys() + arms_uses(arms@, view, depth as nat, 0).0);
        assert(a.names() =~= old(a).names() + arms_uses(arms@, view, depth as nat, 0).1);
    }
    let len = scope.len();
    let mut i: usize = 0;
    while i < arms.len()
        invariant
            i <= arms@.len(),
            a.wf(),
            scope@ == old(scope)@,
            len == old(scope)@.len(),
            view == scope_view(old(scope)@),
            forall|k: int|
                0 <= k < arms@.len() ==> arm_uses(
                    (#[trigger] arms@[k]).body,
                    arm_scope(view, arms@[k].pattern, depth as nat),
                    depth as nat,
                ).2 <= usize::MAX,
            a.keys() == old(a).keys() + arms_uses(arms@, view, depth as nat, i as int).0,
            a.names() == old(a).names() + arms_uses(arms@, view, depth as nat, i as int).1,
        decreases arms.len() - i,
    {
        let arm_i = &arms[i];
        if let Pattern::Case(_, Some(Some(name))) = &arm_i.pattern {
            bind(scope, name, depth);
        }
        proof {
            assert(scope_view(scope@) == arm_scope(view, arms@[i as int].pattern, depth as nat));
        }
        arm(a, &arm_i.body, scope, depth);
        scope.truncate(len);
        proof {
            assert(scope@ =~= old(scope)@);
        }
        i += 1;
        proof {
            assert(a.keys() =~= old(a).keys() + arms_uses(arms@, view, depth as nat, i as int).0);
            assert(a.names() =~= old(a).names() + arms_uses(arms@, view, depth as nat, i as int).1);
        }
    }
}

fn arm(a: &mut Analysis, body: &ArmBody, scope: &mut Vec<Entry>, depth: usize)
    requires
        old(a).wf(),
        arm_uses(*body, scope_view(old(scope)@), depth as nat).2 <= usize::MAX,
    ensures
        final(a).wf(),
        final(scope)@ == old(scope)@,
        final(a).keys() == old(a).keys() + arm_uses(*body, scope_view(old(scope)@), depth as nat).0,
        final(a).names() == old(a).names() + arm_uses(*body, scope_view(old(scope)@), depth as nat).1,
    decreases body, 0int,
{
    match body {
        ArmBody::Expression(e) => expression(a, e, scope, depth),
        ArmBody::Block(b) => block(a, b, scope, depth),
    }
}

fn block(a: &mut Analysis, stmts: &Vec<Stmt>, scope: &mut Vec<Entry>, depth: usize)
    requires
        old(a).wf(),
        block_uses(stmts@, 0, scope_view(old(scope)@), depth as nat).2 <= usize::MAX,
    ensures
        final(a).wf(),
        final(scope)@ == old(scope)@,
        final(a).keys() == old(a).keys() + block_uses(stmts@, 0, scope_view(old(scope)@), depth as nat).0,
        final(a).names() == old(a).names() + block_uses(stmts@, 0, scope_view(old(scope)@), depth as nat).1,
    decreases stmts@, 0int,
{
    let ghost view = scope_view(scope@);
    let ghost total = block_uses(stmts@, 0, view, depth as nat);
    let len = scope.len();
    let mut i: usize = 0;
    proof {
        assert(old(a).keys() + total.0 =~= a.keys() + block_uses(stmts@, 0, view, depth as nat).0);
        assert(old(a).names() + total.1 =~= a.names() + block_uses(stmts@, 0, view, depth as nat).1);
    }
    while i < stmts.len()
        invariant
            i <= stmts@.len(),
            a.wf(),
            len == old(scope)@.len(),
            scope@.len() >= len,
            scope@.subrange(0, len as int) == old(scope)@,
            view == scope_view(old(scope)@),
            total == block_uses(stmts@, 0, view, depth as nat),
            block_uses(stmts@, i as int, scope_view(scope@), depth as nat).2 <= usize::MAX,
            old(a).keys() + total.0 == a.keys() + block_uses(stmts@, i as int, scope_view(scope@), depth as nat).0,
            old(a).names() + total.1 == a.names() + block_uses(stmts@, i as int, scope_view(scope@), depth as nat).1,
        decreases stmts.len() - i,
    {
        let ghost here = scope_view(scope@);
        let ghost before = scope@;
        let ghost keys = a.keys();
        let ghost names = a.names();
        statement(a, &stmts[i], scope, depth);
        if let Stmt::Bind { name, .. } = &stmts[i] {
            bind(scope, name, depth);
            proof {
                assert(scope@.subrange(0, len as int) =~= before.subrange(0, len as int));
            }
        }
        proof {
            assert(scope_view(scope@) == after(stmts@[i as int], here, depth as nat));
            let rest = block_uses(stmts@, i + 1, scope_view(scope@), depth as nat);
            let step = stmt_uses(stmts@[i as int], here, depth as nat);
            assert(a.keys() == keys + step.0);
            assert(old(a).keys() + total.0 =~= a.keys() + rest.0);
            assert(old(a).names() + total.1 =~= a.names() + rest.1);
        }
        i += 1;
    }
    scope.truncate(len);
    proof {
        assert(block_uses(stmts@, i as int, scope_view(scope@), depth as nat).0 =~= Set::<Key>::empty());
        assert(a.keys() =~= old(a).keys() + total.0);
        assert(a.names() =~= old(a).names() + total.1);
    }
}

fn optional(a: &mut Analysis, e: &Option<Expr>, scope: &mut Vec<Entry>, depth: usize)
    requires
        old(a).wf(),
        option_uses(*e, scope_view(old(scope)@), depth as nat).2 <= usize::MAX,
    ensures
        final(a).wf(),
        final(scope)@ == old(scope)@,
        final(a).keys() == old(a).keys() + option_uses(*e, scope_view(old(scope)@), depth as nat).0,
        final(a).names() == old(a).names() + option_uses(*e, scope_view(old(scope)@), depth as nat).1,
    decreases e, 0int,
{
    match e {
        Some(x) => expression(a, x, scope, depth),
        None => {
            assert(a.keys() =~= old(a).keys() + option_uses(*e, scope_view(old(scope)@), depth as nat).0);
            assert(a.names() =~= old(a).names() + option_uses(*e, scope_view(old(scope)@), depth as nat).1);
        },
    }
}

fn statement(a: &mut Analysis, s: &Stmt, scope: &mut Vec<Entry>, depth: usize)
    requires
        old(a).wf(),
        stmt_uses(*s, scope_view(old(scope)@), depth as nat).2 <= usize::MAX,
    ensures
        final(a).wf(),
        final(scope)@ == old(scope)@,
        final(a).keys() == old(a).keys() + stmt_uses(*s, scope_view(old(scope)@), depth as nat).0,
        final(a).names() == old(a).names() + stmt_uses(*s, scope_view(old(scope)@), depth as nat).1,
    decreases s, 0int,
{
    let ghost view = scope_view(scope@);
    match s {
        Stmt::Bind { value, .. } => optional(a, value, scope, depth),
        Stmt::Return(_, value) => optional(a, value, scope, depth),
        Stmt::Expression(e) => expression(a, e, scope, depth),
        Stmt::Assign(x, y) => {
            expression(a, x, scope, depth);
            expression(a, y, scope, depth);
            proof {
                assert(a.keys() =~= old(a).keys() + stmt_uses(*s, view, depth as nat).0);
                assert(a.names() =~= old(a).names() + stmt_uses(*s, view, depth as nat).1);
            }
        },
        Stmt::If(c, yes, no) => {
            expression(a, c, scope, depth);
            block(a, yes, scope, depth);
            block(a, no, scope, depth);
            proof {
                assert(a.keys() =~= old(a).keys() + stmt_uses(*s, view, depth as nat).0);
                assert(a.names() =~= old(a).names() + stmt_uses(*s, view, depth as nat).1);
            }
        },
        Stmt::While(c, body) => {
            expression(a, c, scope, depth);
            block(a, body, scope, depth);
            proof {
                assert(a.keys() =~= old(a).keys() + stmt_uses(*s, view, depth as nat).0);
                assert(a.names() =~= old(a).names() + stmt_uses(*s, view, depth as nat).1);
            }
        },
        Stmt::Loop(_, body) => block(a, body, scope, depth),
        Stmt::For(name, start, end, _, body) => {
            expression(a, start, scope, depth);
            expression(a, end, scope, depth);
            let len = scope.len();
            let ghost outer = scope@;
            bind(scope, name, depth);
            let ghost bound = scope@;
            block(a, body, scope, depth);
            assert(scope@ == bound);
            scope.truncate(len);
            proof {
                assert(scope@ =~= bound.subrange(0, len as int));
                assert(outer == old(scope)@);
                assert(scope@ =~= old(scope)@);
                assert(a.keys() =~= old(a).keys() + stmt_uses(*s, view, depth as nat).0);
                assert(a.names() =~= old(a).names() + stmt_uses(*s, view, depth as nat).1);
            }
        },
        _ => {
            proof {
                assert(a.keys() =~= old(a).keys() + stmt_uses(*s, view, depth as nat).0);
                assert(a.names() =~= old(a).names() + stmt_uses(*s, view, depth as nat).1);
            }
        },
    }
}


/// The scope of a function body: `this` and the parameters, all at depth
/// zero and identified by their declaring tokens (`this` by the function's
/// name).
pub open spec fn function_scope(f: Function) -> Seq<Binding> {
    seq![("this"@, key_of(f.name), 0nat)] + Seq::new(
        f.parameters@.len(),
        |i: int| (f.parameters@[i].name.text@, key_of(f.parameters@[i].name), 0nat),
    )
}

/// The bindings that the lambdas of a function body capture from outside
/// themselves.
pub open spec fn spec_captured(f: Function) -> Set<Key> {
    block_uses(f.body@, 0, function_scope(f), 0).0
}

/// The names a lambda body uses that nothing binds, its parameters bound.
pub open spec fn spec_free(parameters: Seq<(Token, Option<crate::frontend::Ty>)>, body: ArmBody) -> Set<
    Seq<char>,
> {
    arm_uses(body, with_parameters(Seq::empty(), parameters, 0), 0).1
}

/// The bindings that the lambdas of a function body capture, each once (see
/// `spec_captured`). The lambda nesting must fit in a `usize`.
pub fn captured(function: &Function) -> (keys: Vec<Key>)
    requires
        block_uses(function.body@, 0, function_scope(*function), 0).2 <= usize::MAX,
    ensures
        keys@.no_duplicates(),
        keys@.to_set() == spec_captured(*function),
{
    let mut scope: Vec<Entry> = Vec::new();
    scope.push((String::from_str("this"), (function.name.line, function.name.column), 0));
    let mut i: usize = 0;
    while i < function.parameters.len()
        invariant
            i <= function.parameters@.len(),
            scope_view(scope@) == function_scope(*function).take(i + 1),
        decreases function.parameters.len() - i,
    {
        let ghost before = scope_view(scope@);
        bind(&mut scope, &function.parameters[i].name, 0);
        i += 1;
        proof {
            assert(scope_view(scope@) =~= function_scope(*function).take(i + 1));
        }
    }
    proof {
        reveal_strlit("this");
        assert(function_scope(*function).take(i + 1) =~= function_scope(*function));
    }
    let mut a = Analysis { captured: Vec::new(), free: Vec::new() };
    proof {
        assert(a.keys() =~= Set::<Key>::empty());
        assert(a.names() =~= Set::<Seq<char>>::empty());
    }
    block(&mut a, &function.body, &mut scope, 0);
    proof {
        assert(a.keys() =~= spec_captured(*function));
    }
    a.captured
}

/// The names a lambda body uses that nothing binds, each once (see
/// `spec_free`). The lambda nesting must fit in a `usize`.
pub fn free(parameters: &Vec<(Token, Option<crate::frontend::Ty>)>, body: &ArmBody) -> (names: Vec<String>)
    requires
        arm_uses(*body, with_parameters(Seq::empty(), parameters@, 0), 0).2 <= usize::MAX,
    ensures
        distinct_names(names@),
        names_set(names@) == spec_free(parameters@, *body),
{
    let mut scope: Vec<Entry> = Vec::new();
    let mut i: usize = 0;
    while i < parameters.len()
        invariant
            i <= parameters@.len(),
            scope_view(scope@) == with_parameters(Seq::empty(), parameters@.take(i as int), 0),
        decreases parameters.len() - i,
    {
        bind(&mut scope, &parameters[i].0, 0);
        i += 1;
        proof {
            assert(scope_view(scope@) =~= with_parameters(Seq::empty(), parameters@.take(i as int), 0));
        }
    }
    proof {
        assert(parameters@.take(i as int) =~= parameters@);
    }
    let mut a = Analysis { captured: Vec::new(), free: Vec::new() };
    proof {
        assert(a.keys() =~= Set::<Key>::empty());
        assert(a.names() =~= Set::<Seq<char>>::empty());
    }
    arm(&mut a, body, &mut scope, 0);
    proof {
        assert(a.names() =~= spec_free(parameters@, *body));
    }
    a.free
}

} // verus!
