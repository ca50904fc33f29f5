//! What holds of the policy and of programs, whatever the store and whatever
//! the text that is submitted.

use crate::grammar::{program_of, readable, MAX_PROGRAM};
use crate::policy::{
    edge, lemma_admin_holds, lemma_edges_of_ok, lemma_holds_step, lemma_with_edges, DatabaseView,
    EdgeView, Right, Status, TargetView,
};
use crate::semantics::{
    abort_log, append_to, assign, declare_local, eval_each, eval_expr, fresh_state, has_local,
    list_of, local_names, local_value, next_store, outcome, outcome_of_text, replace_each, right_of,
    run_commands, step, success_log, success_status, target_of, with_local, LocalView, StateView,
};
use crate::status::{is_abort, plain_entry, Status as Reported};
use crate::transitions::{
    appended, lemma_add_user, lemma_add_variable, lemma_append_frame, lemma_change_password_frame,
    lemma_create_principal_frame, lemma_default_delegator_frame, lemma_delegate_frame,
    lemma_granted_ok, lemma_kept_none_revoked, lemma_kept_ok, lemma_set_frame,
    lemma_set_member_frame, lemma_undelegate_frame, owner_edges,
};
use crate::types::{
    AppendSyntax, AssignmentSyntax, ForEachSyntax, PrimitiveSyntax, ProgramSyntax, VariableSyntax,
};
use crate::util::{admin_name, anyone_name, lemma_builtin_names_differ};
use crate::value::{field_names, first_index, lemma_first_index, lemma_first_index_push, ValueView};
use vstd::prelude::*;

verus! {

/// A right that is held stays held where every delegation stays in place.
pub proof fn lemma_holds_monotone(
    before: DatabaseView,
    after: DatabaseView,
    v: Seq<char>,
    r: Right,
    p: Seq<char>,
)
    requires
        forall|a: Seq<char>, b: Seq<char>|
            before.grants(v, r, a, b) ==> #[trigger] after.grants(v, r, a, b),
        before.holds(v, r, p),
    ensures
        after.holds(v, r, p),
{
    let path = choose|path: Seq<Seq<char>>| #[trigger] before.is_chain(v, r, path) && path[0] == p;
    assert forall|i: int| 0 <= i < path.len() - 1 implies after.grants(
        v,
        r,
        #[trigger] path[i],
        path[i + 1],
    ) by {
        assert(before.grants(v, r, path[i], path[i + 1]));
    }
    assert(after.is_chain(v, r, path) && path[0] == p);
}

/// Where `anyone` holds an edge by which `x` passes `r` on `v`, and `x` holds
/// that right, every principal holds it, whatever its name and whenever it
/// was created.
pub proof fn law_anyone_edge_serves_all(
    db: DatabaseView,
    v: Seq<char>,
    x: Seq<char>,
    r: Right,
    p: Seq<char>,
)
    requires
        db.anyone.contains(edge(v, x, r)),
        db.holds(v, r, x),
    ensures
        db.holds(v, r, p),
{
    assert(db.grants(v, r, p, x));
    lemma_holds_step(db, v, r, p, x);
}

/// Whoever `anyone` holds a right for holds it: where `anyone` holds `r` on
/// `v`, every principal does.
pub proof fn law_anyone_holds_for_all(db: DatabaseView, v: Seq<char>, r: Right, p: Seq<char>)
    requires
        db.holds(v, r, anyone_name()),
    ensures
        db.holds(v, r, p),
{
    lemma_builtin_names_differ();
    crate::policy::law_holds_needs_grant(db, v, r, anyone_name());
    let q = choose|q: Seq<char>| #[trigger]
        db.grants(v, r, anyone_name(), q) && db.holds(v, r, q);
    assert(db.grants(v, r, p, q));
    lemma_holds_step(db, v, r, p, q);
}

/// After a successful delegation of `r` on `v` from `x` to `anyone`, every
/// principal holds that right, provided that `x` holds it, or `anyone` held
/// it already.
pub proof fn law_anyone_propagation(
    db: DatabaseView,
    actor: Seq<char>,
    v: Seq<char>,
    x: Seq<char>,
    r: Right,
    p: Seq<char>,
)
    requires
        db.wf(),
        db.delegate_status(actor, TargetView::Variable(v), x, anyone_name()) == Status::SUCCESS,
        db.holds(v, r, x) || db.holds(v, r, anyone_name()),
    ensures
        db.delegate(actor, TargetView::Variable(v), x, r, anyone_name()).anyone.contains(
            edge(v, x, r),
        ),
        db.delegate(actor, TargetView::Variable(v), x, r, anyone_name()).holds(v, r, p),
{
    let e = edge(v, x, r);
    let edges = db.anyone + seq![e];
    let after = db.delegate(actor, TargetView::Variable(v), x, r, anyone_name());
    assert(after.anyone == edges);
    assert(edges[db.anyone.len() as int] == e);
    assert forall|i: int| 0 <= i < edges.len() implies db.edge_ok(#[trigger] edges[i]) by {
        if i < db.anyone.len() {
            assert(db.edge_ok(db.anyone[i]));
        }
    }
    lemma_with_edges(db, anyone_name(), edges);
    assert forall|a: Seq<char>, b: Seq<char>| db.grants(v, r, a, b) implies #[trigger] after.grants(
        v,
        r,
        a,
        b,
    ) by {
        let g = edge(v, b, r);
        if db.anyone.contains(g) {
            let i = choose|i: int| 0 <= i < db.anyone.len() && db.anyone[i] == g;
            assert(edges[i] == g);
        } else {
            assert(a != anyone_name());
            assert(after.edges_of(a) == db.edges_of(a));
        }
    }
    if db.holds(v, r, x) {
        lemma_holds_monotone(db, after, v, r, x);
        law_anyone_edge_serves_all(after, v, x, r, p);
    } else {
        lemma_holds_monotone(db, after, v, r, anyone_name());
        law_anyone_holds_for_all(after, v, r, p);
    }
}

/// `anyone` serves future principals too: where `anyone` holds an edge by
/// which `x` passes `r` on `v`, and `x` holds that right, a principal that
/// is created holds it from its creation on.
pub proof fn law_anyone_serves_new_principal(
    db: DatabaseView,
    actor: Seq<char>,
    name: Seq<char>,
    hash: Seq<u8>,
    v: Seq<char>,
    x: Seq<char>,
    r: Right,
)
    requires
        db.wf(),
        db.anyone.contains(edge(v, x, r)),
        db.holds(v, r, x),
        db.create_principal_status(actor, name) == Status::SUCCESS,
    ensures
        db.create_principal(actor, name, hash).holds(v, r, name),
{
    let after = db.create_principal(actor, name, hash);
    lemma_create_principal_frame(db, actor, name, hash);
    lemma_builtin_names_differ();
    assert(after.edges_of(anyone_name()) == db.edges_of(anyone_name()));
    assert forall|a: Seq<char>, b: Seq<char>| db.grants(v, r, a, b) implies #[trigger] after.grants(
        v,
        r,
        a,
        b,
    ) by {
        if a != name {
            assert(after.edges_of(a) == db.edges_of(a));
        }
    }
    lemma_holds_monotone(db, after, v, r, x);
    law_anyone_edge_serves_all(after, v, x, r, name);
}

/// A new variable belongs to its creator: whoever creates a variable holds
/// each of the four rights on it.
pub proof fn law_creator_owns(
    db: DatabaseView,
    actor: Seq<char>,
    var: Seq<char>,
    value: ValueView,
    r: Right,
)
    requires
        db.wf(),
        db.is_principal(actor),
        !db.contains(var),
    ensures
        db.set_status(actor, var) == Status::SUCCESS,
        db.set(actor, var, value).contains(var),
        db.set(actor, var, value).holds(var, r, actor),
{
    let after = db.set(actor, var, value);
    lemma_set_frame(db, actor, var, value);
    lemma_admin_holds(after, var, r);
    if actor != admin_name() {
        let created = db.add_variable(var, value);
        lemma_add_variable(db, var, value);
        let old_edges = created.edges_of(actor);
        let edges = old_edges + owner_edges(var);
        lemma_edges_of_ok(created, actor);
        assert forall|i: int| 0 <= i < edges.len() implies created.edge_ok(#[trigger] edges[i]) by {
            if i < old_edges.len() {
                assert(edges[i] == old_edges[i]);
            } else {
                assert(edges[i] == owner_edges(var)[i - old_edges.len()]);
            }
        }
        lemma_with_edges(created, actor, edges);
        let k: int = match r {
            Right::Read => 0,
            Right::Write => 1,
            Right::Append => 2,
            Right::Delegate => 3,
        };
        let e = edge(var, admin_name(), r);
        assert(owner_edges(var)[k] == e);
        assert(edges[old_edges.len() + k] == e);
        assert(after.edges_of(actor) == edges);
        assert(after.grants(var, r, actor, admin_name()));
        lemma_holds_step(after, var, r, actor, admin_name());
    }
}

/// Each variable has its edge among those that a delegation on every
/// variable by `admin` adds.
proof fn lemma_granted_all_holds(
    db: DatabaseView,
    delegator: Seq<char>,
    right: Right,
    n: int,
    j: int,
)
    requires
        0 <= j < n <= db.variables.len(),
    ensures
        db.granted_all(admin_name(), delegator, right, n).contains(
            edge(db.variables[j].name, delegator, right),
        ),
    decreases n,
{
    let e = edge(db.variables[j].name, delegator, right);
    let all = db.granted_all(admin_name(), delegator, right, n);
    let rest = db.granted_all(admin_name(), delegator, right, n - 1);
    if j < n - 1 {
        lemma_granted_all_holds(db, delegator, right, n - 1, j);
        let i = choose|i: int| 0 <= i < rest.len() && rest[i] == e;
        assert(all[i] == e);
    } else {
        assert(all[rest.len() as int] == e);
    }
}

/// A delegation adds what it grants behind the edges that the delegatee
/// holds: each edge granted is held afterwards.
proof fn lemma_delegate_adds(
    db: DatabaseView,
    actor: Seq<char>,
    target: TargetView,
    delegator: Seq<char>,
    right: Right,
    delegatee: Seq<char>,
    e: EdgeView,
)
    requires
        db.wf(),
        db.delegate_status(actor, target, delegator, delegatee) == Status::SUCCESS,
        delegatee == anyone_name() || db.has_user(delegatee),
        db.granted(actor, target, delegator, right).contains(e) || db.edges_of(delegatee).contains(
            e,
        ),
    ensures
        db.delegate(actor, target, delegator, right, delegatee).edges_of(delegatee).contains(e),
{
    let old_edges = db.edges_of(delegatee);
    let more = db.granted(actor, target, delegator, right);
    let edges = old_edges + more;
    lemma_delegate_frame(db, actor, target, delegator, right, delegatee);
    lemma_edges_of_ok(db, delegatee);
    if target is All {
        lemma_granted_ok(db, actor, delegator, right, db.variables.len() as int);
    }
    assert forall|i: int| 0 <= i < edges.len() implies db.edge_ok(#[trigger] edges[i]) by {
        if i < old_edges.len() {
            assert(edges[i] == old_edges[i]);
        } else {
            assert(edges[i] == more[i - old_edges.len()]);
        }
    }
    lemma_with_edges(db, delegatee, edges);
    if old_edges.contains(e) {
        let i = choose|i: int| 0 <= i < old_edges.len() && old_edges[i] == e;
        assert(edges[i] == e);
    } else {
        let i = choose|i: int| 0 <= i < more.len() && more[i] == e;
        assert(edges[old_edges.len() + i] == e);
    }
}

/// One of the four delegations that make a new principal: it adds the
/// edge for its own right, and keeps the edges that are there.
proof fn lemma_default_grant(
    db: DatabaseView,
    d: Seq<char>,
    name: Seq<char>,
    granted: Right,
    j: int,
    e: EdgeView,
)
    requires
        db.wf(),
        db.is_principal(d),
        db.has_user(name),
        0 <= j < db.variables.len(),
        e.target == db.variables[j].name,
        e.delegator == d,
        e.right == granted || db.edges_of(name).contains(e),
    ensures
        db.delegate(admin_name(), TargetView::All, d, granted, name).edges_of(name).contains(e),
{
    if e.right == granted {
        lemma_granted_all_holds(db, d, granted, db.variables.len() as int, j);
    }
    lemma_delegate_adds(db, admin_name(), TargetView::All, d, granted, name, e);
}

/// A new principal receives what the default delegator holds at that
/// moment: on each variable that exists, each right that the default
/// delegator holds.
pub proof fn law_new_principal_inherits(
    db: DatabaseView,
    actor: Seq<char>,
    name: Seq<char>,
    hash: Seq<u8>,
    v: Seq<char>,
    r: Right,
)
    requires
        db.wf(),
        db.create_principal_status(actor, name) == Status::SUCCESS,
        db.contains(v),
        db.holds(v, r, db.default_delegator),
    ensures
        db.create_principal(actor, name, hash).holds(v, r, name),
{
    let d = db.default_delegator;
    let a = admin_name();
    let all = TargetView::All;
    let e = edge(v, d, r);
    let after = db.create_principal(actor, name, hash);
    lemma_create_principal_frame(db, actor, name, hash);
    lemma_builtin_names_differ();
    lemma_first_index(db.var_names(), v);
    let j = db.var_index(v);
    let db0 = db.add_user(name, hash);
    lemma_add_user(db, name, hash);
    assert(db0.is_principal(d) && db0.has_user(name));
    let db1 = db0.delegate(a, all, d, Right::Read, name);
    lemma_delegate_frame(db0, a, all, d, Right::Read, name);
    let db2 = db1.delegate(a, all, d, Right::Write, name);
    lemma_delegate_frame(db1, a, all, d, Right::Write, name);
    let db3 = db2.delegate(a, all, d, Right::Append, name);
    lemma_delegate_frame(db2, a, all, d, Right::Append, name);
    if r == Right::Read {
        lemma_default_grant(db0, d, name, Right::Read, j, e);
    }
    if r == Right::Read || r == Right::Write {
        lemma_default_grant(db1, d, name, Right::Write, j, e);
    }
    if r != Right::Delegate {
        lemma_default_grant(db2, d, name, Right::Append, j, e);
    }
    lemma_default_grant(db3, d, name, Right::Delegate, j, e);
    assert(after.grants(v, r, name, d));
    assert(after.edges_of(anyone_name()) == db.edges_of(anyone_name()));
    assert forall|x: Seq<char>, y: Seq<char>| db.grants(v, r, x, y) implies #[trigger] after.grants(
        v,
        r,
        x,
        y,
    ) by {
        if x != name {
            assert(after.edges_of(x) == db.edges_of(x));
        }
    }
    lemma_holds_monotone(db, after, v, r, d);
    lemma_holds_step(after, v, r, name, d);
}

/// Delegation is transitive: where `b` has the right from `a` and `c` has it
/// from `b`, and `a` holds it, `c` holds it.
pub proof fn law_delegation_transitivity(
    db: DatabaseView,
    v: Seq<char>,
    r: Right,
    a: Seq<char>,
    b: Seq<char>,
    c: Seq<char>,
)
    requires
        db.grants(v, r, b, a),
        db.grants(v, r, c, b),
        db.holds(v, r, a),
    ensures
        db.holds(v, r, b),
        db.holds(v, r, c),
{
    lemma_holds_step(db, v, r, b, a);
    lemma_holds_step(db, v, r, c, b);
}

/// Taking back a delegation on one variable removes exactly the edges equal
/// to it: what is kept does not depend on who asks.
proof fn lemma_kept_exact(
    db: DatabaseView,
    actor: Seq<char>,
    v: Seq<char>,
    q: Seq<char>,
    r: Right,
    p: Seq<char>,
    edges: Seq<EdgeView>,
    n: int,
)
    requires
        0 <= n <= edges.len(),
    ensures
        db.kept_edges(actor, TargetView::Variable(v), q, r, p, edges, n) == edges.take(n).filter(
            |e: EdgeView| e != edge(v, q, r),
        ),
    decreases n,
{
    let pred = |e: EdgeView| e != edge(v, q, r);
    reveal(Seq::filter);
    if n > 0 {
        lemma_kept_exact(db, actor, v, q, r, p, edges, n - 1);
        assert(edges.take(n).drop_last() =~= edges.take(n - 1));
        assert(edges.take(n).last() == edges[n - 1]);
    } else {
        assert(edges.take(0) =~= Seq::<EdgeView>::empty());
    }
}

/// Undelegate exactness: a delegation on one variable followed by taking it
/// back leaves the delegatee with its earlier edges less those equal to the
/// delegation, and everything else as it was. Where the delegatee held no
/// equal edge before, the whole state is as before.
pub proof fn law_undelegate_exactness(
    db: DatabaseView,
    setter: Seq<char>,
    remover: Seq<char>,
    v: Seq<char>,
    q: Seq<char>,
    r: Right,
    p: Seq<char>,
)
    requires
        db.wf(),
        db.delegate_status(setter, TargetView::Variable(v), q, p) == Status::SUCCESS,
        db.delegate(setter, TargetView::Variable(v), q, r, p).undelegate_status(
            remover,
            TargetView::Variable(v),
            q,
            p,
        ) == Status::SUCCESS,
    ensures
        db.delegate(setter, TargetView::Variable(v), q, r, p).undelegate(
            remover,
            TargetView::Variable(v),
            q,
            r,
            p,
        ) == db.with_edges(
            p,
            db.edges_of(p).filter(|e: EdgeView| e != edge(v, q, r)),
        ),
        !db.edges_of(p).contains(edge(v, q, r)) ==> db.delegate(
            setter,
            TargetView::Variable(v),
            q,
            r,
            p,
        ).undelegate(remover, TargetView::Variable(v), q, r, p) == db,
{
    let e = edge(v, q, r);
    let pred = |x: EdgeView| x != edge(v, q, r);
    let target = TargetView::Variable(v);
    let old_edges = db.edges_of(p);
    let new_edges = old_edges + seq![e];
    let mid = db.delegate(setter, target, q, r, p);
    let last = mid.undelegate(remover, target, q, r, p);
    lemma_edges_of_ok(db, p);
    assert forall|i: int| 0 <= i < new_edges.len() implies db.edge_ok(#[trigger] new_edges[i]) by {
        if i < old_edges.len() {
            assert(new_edges[i] == old_edges[i]);
        }
    }
    lemma_with_edges(db, p, new_edges);
    lemma_first_index(db.user_names(), p);
    lemma_builtin_names_differ();
    let stored = mid.edges_of(p);
    lemma_kept_exact(mid, remover, v, q, r, p, stored, stored.len() as int);
    assert(stored.take(stored.len() as int) =~= stored);
    if p == anyone_name() || db.has_user(p) {
        assert(stored == new_edges);
        reveal(Seq::filter);
        assert(new_edges.drop_last() =~= old_edges);
        assert(new_edges.last() == e);
        assert(new_edges.filter(pred) == old_edges.filter(pred));
        if p == anyone_name() {
            assert(last == db.with_edges(p, old_edges.filter(pred)));
        } else {
            let i = db.user_index(p);
            assert(mid.users[i].name == db.users[i].name);
            assert(last.users =~= db.with_edges(p, old_edges.filter(pred)).users);
            assert(last == db.with_edges(p, old_edges.filter(pred)));
        }
    } else {
        assert(mid == db);
        assert(last == db);
    }
    if !old_edges.contains(e) {
        lemma_filter_all(old_edges, pred);
        if p == anyone_name() {
        } else if db.has_user(p) {
            let i = db.user_index(p);
            assert(db.with_edges(p, old_edges).users =~= db.users);
        }
    }
}

/// Taking a delegation back removes every edge equal to it: after a
/// successful `delete delegation v q r -> p`, `p` stores no edge by which
/// `q` passes `r` on `v`, however often it was set.
pub proof fn law_undelegate_removes_all(
    db: DatabaseView,
    actor: Seq<char>,
    v: Seq<char>,
    q: Seq<char>,
    r: Right,
    p: Seq<char>,
)
    requires
        db.wf(),
        db.undelegate_status(actor, TargetView::Variable(v), q, p) == Status::SUCCESS,
    ensures
        !db.undelegate(actor, TargetView::Variable(v), q, r, p).stores_grant(v, r, p, q),
{
    let target = TargetView::Variable(v);
    let after = db.undelegate(actor, target, q, r, p);
    let old_edges = db.edges_of(p);
    let kept = db.kept_edges(actor, target, q, r, p, old_edges, old_edges.len() as int);
    lemma_kept_none_revoked(db, actor, target, q, r, p, old_edges, old_edges.len() as int);
    lemma_kept_ok(db, actor, target, q, r, p, old_edges, old_edges.len() as int);
    lemma_edges_of_ok(db, p);
    assert forall|i: int| 0 <= i < kept.len() implies db.edge_ok(#[trigger] kept[i]) by {
        assert(old_edges.contains(kept[i]));
    }
    lemma_with_edges(db, p, kept);
    lemma_first_index(db.user_names(), p);
    if after.edges_of(p).contains(edge(v, q, r)) {
        let stored = after.edges_of(p);
        let i = choose|i: int| 0 <= i < stored.len() && stored[i] == edge(v, q, r);
        if p == anyone_name() || db.has_user(p) {
            assert(stored == kept);
            assert(!db.revokes(actor, target, q, r, p, kept[i]));
        }
    }
}

/// A filter that every item passes keeps the sequence.
proof fn lemma_filter_all<A>(s: Seq<A>, pred: spec_fn(A) -> bool)
    requires
        forall|i: int| 0 <= i < s.len() ==> pred(#[trigger] s[i]),
    ensures
        s.filter(pred) == s,
    decreases s.len(),
{
    reveal(Seq::filter);
    if s.len() > 0 {
        lemma_filter_all(s.drop_last(), pred);
        assert(s.drop_last().push(s.last()) =~= s);
    }
}

/// Whether no local variable has the name of a global one.
pub open spec fn locals_apart(st: StateView) -> bool {
    forall|name: Seq<char>| has_local(st.locals, name) ==> !st.db.contains(name)
}

/// Replacing the value of a local variable keeps the names of the locals.
proof fn lemma_with_local_names(locals: Seq<LocalView>, name: Seq<char>, value: ValueView)
    requires
        has_local(locals, name),
    ensures
        local_names(with_local(locals, name, value)) == local_names(locals),
{
    lemma_first_index(local_names(locals), name);
    assert(local_names(with_local(locals, name, value)) =~= local_names(locals));
}

/// Whether a state can be run on: the store keeps its invariant, the
/// principal that runs the program exists, and no local variable has the
/// name of a global one.
pub open spec fn sound(st: StateView, actor: Seq<char>) -> bool {
    st.db.wf() && st.db.is_principal(actor) && locals_apart(st)
}

/// Writing a local variable keeps a state sound.
proof fn lemma_local_write(st: StateView, actor: Seq<char>, name: Seq<char>, value: ValueView)
    requires
        sound(st, actor),
        has_local(st.locals, name),
    ensures
        sound(StateView { locals: with_local(st.locals, name, value), ..st }, actor),
{
    lemma_with_local_names(st.locals, name, value);
}

/// Writing a global variable that is no local one keeps a state sound.
proof fn lemma_global_write(st: StateView, actor: Seq<char>, name: Seq<char>, value: ValueView)
    requires
        sound(st, actor),
        !has_local(st.locals, name),
    ensures
        sound(StateView { db: st.db.set(actor, name, value), ..st }, actor),
{
    lemma_set_frame(st.db, actor, name, value);
    let after = st.db.set(actor, name, value);
    assert forall|x: Seq<char>| has_local(st.locals, x) implies !after.contains(x) by {
        assert(after.contains(x) <==> st.db.contains(x) || x == name);
    }
}

/// `set` keeps a state sound.
proof fn lemma_assign_keeps(st: StateView, actor: Seq<char>, a: AssignmentSyntax)
    requires
        sound(st, actor),
    ensures
        sound(assign(st, actor, a).1, actor),
{
    match eval_expr(st.db, st.locals, actor, a.expr) {
        Err(_) => {},
        Ok(value) => match a.variable {
            VariableSyntax::Variable(name) => {
                if has_local(st.locals, name) {
                    lemma_local_write(st, actor, name, value);
                } else {
                    lemma_global_write(st, actor, name, value);
                }
            },
            VariableSyntax::Member(name, rest) => match (*rest, value) {
                (VariableSyntax::Variable(field), ValueView::Immediate(text)) => {
                    if has_local(st.locals, name) {
                        match local_value(st.locals, name) {
                            ValueView::FieldVals(fields) => {
                                lemma_local_write(
                                    st,
                                    actor,
                                    name,
                                    ValueView::FieldVals(
                                        fields.update(
                                            first_index(field_names(fields), field),
                                            (field, text),
                                        ),
                                    ),
                                );
                            },
                            _ => {},
                        }
                    } else {
                        lemma_set_member_frame(st.db, actor, name, field, text);
                    }
                },
                _ => {},
            },
        },
    }
}

/// `append` keeps a state sound.
proof fn lemma_append_keeps(st: StateView, actor: Seq<char>, a: AppendSyntax)
    requires
        sound(st, actor),
    ensures
        sound(append_to(st, actor, a).1, actor),
{
    match a.variable {
        VariableSyntax::Member(_, _) => {},
        VariableSyntax::Variable(name) => match eval_expr(st.db, st.locals, actor, a.expr) {
            Err(_) => {},
            Ok(value) => {
                if has_local(st.locals, name) {
                    match local_value(st.locals, name) {
                        ValueView::List(items) => {
                            lemma_local_write(
                                st,
                                actor,
                                name,
                                ValueView::List(appended(items, value)),
                            );
                        },
                        _ => {},
                    }
                } else {
                    lemma_append_frame(st.db, actor, name, value);
                }
            },
        },
    }
}

/// `local` keeps a state sound.
proof fn lemma_declare_keeps(st: StateView, actor: Seq<char>, a: AssignmentSyntax)
    requires
        sound(st, actor),
    ensures
        sound(declare_local(st, actor, a).1, actor),
{
    match a.variable {
        VariableSyntax::Member(_, _) => {},
        VariableSyntax::Variable(name) => {
            if !st.db.contains(name) && !has_local(st.locals, name) {
                match eval_expr(st.db, st.locals, actor, a.expr) {
                    Err(_) => {},
                    Ok(value) => {
                        let after = st.locals.push(LocalView { name: name, value: value });
                        assert(local_names(after) =~= local_names(st.locals).push(name));
                        assert forall|x: Seq<char>| has_local(after, x) implies !st.db.contains(
                            x,
                        ) by {
                            lemma_first_index_push(local_names(st.locals), name, x);
                        }
                    },
                }
            }
        },
    }
}

/// `foreach` keeps a state sound.
proof fn lemma_foreach_keeps(st: StateView, actor: Seq<char>, f: ForEachSyntax)
    requires
        sound(st, actor),
    ensures
        sound(replace_each(st, actor, f).1, actor),
{
    match (f.value, f.list) {
        (VariableSyntax::Variable(y), VariableSyntax::Variable(x)) => {
            if !has_local(st.locals, y) && !st.db.contains(y) {
                match list_of(st.db, st.locals, actor, x) {
                    Err(_) => {},
                    Ok(items) => match eval_each(
                        st.db,
                        st.locals,
                        actor,
                        y,
                        items,
                        f.expr,
                        items.len() as int,
                    ) {
                        Err(_) => {},
                        Ok(results) => {
                            if has_local(st.locals, x) {
                                lemma_local_write(st, actor, x, ValueView::List(results));
                            } else {
                                lemma_global_write(st, actor, x, ValueView::List(results));
                            }
                        },
                    },
                }
            }
        },
        _ => {},
    }
}

/// One command keeps the invariant of the store and the principal that runs
/// the program, and keeps the local variables apart from the global ones. A
/// command that does not succeed changes nothing.
pub proof fn law_step_keeps(st: StateView, actor: Seq<char>, cmd: PrimitiveSyntax)
    requires
        sound(st, actor),
    ensures
        sound(step(st, actor, cmd).1, actor),
        step(st, actor, cmd).0 != Status::SUCCESS ==> step(st, actor, cmd).1 == st,
{
    reveal(step);
    match cmd {
        PrimitiveSyntax::CreatePrincipal(c) => {
            lemma_create_principal_frame(st.db, actor, c.principal, c.password);
        },
        PrimitiveSyntax::ChangePassword(c) => {
            lemma_change_password_frame(st.db, actor, c.principal, c.password);
        },
        PrimitiveSyntax::Assignment(a) => {
            lemma_assign_keeps(st, actor, a);
        },
        PrimitiveSyntax::Append(a) => {
            lemma_append_keeps(st, actor, a);
        },
        PrimitiveSyntax::LocalAssignment(a) => {
            lemma_declare_keeps(st, actor, a);
        },
        PrimitiveSyntax::ForEach(f) => {
            lemma_foreach_keeps(st, actor, f);
        },
        PrimitiveSyntax::SetDelegation(d) => {
            lemma_delegate_frame(
                st.db,
                actor,
                target_of(d.target),
                d.delegator,
                right_of(d.right),
                d.delegated,
            );
        },
        PrimitiveSyntax::DeleteDelegation(d) => {
            lemma_undelegate_frame(
                st.db,
                actor,
                target_of(d.target),
                d.delegator,
                right_of(d.right),
                d.delegated,
            );
        },
        PrimitiveSyntax::DefaultDelegator(p) => {
            lemma_default_delegator_frame(st.db, actor, p);
        },
    }
}

/// Locals never persist: whatever commands a program runs, its local
/// variables stay apart from the global ones, so that the store it leaves
/// holds none of them; and the store keeps its invariant.
pub proof fn law_locals_never_persist(
    db: DatabaseView,
    actor: Seq<char>,
    cmds: Seq<PrimitiveSyntax>,
    n: int,
)
    requires
        db.wf(),
        db.is_principal(actor),
    ensures
        sound(run_commands(fresh_state(db), actor, cmds, n).1, actor),
    decreases n,
{
    let start = fresh_state(db);
    if n <= 0 {
        assert(local_names(start.locals) =~= Seq::empty());
    } else {
        law_locals_never_persist(db, actor, cmds, n - 1);
        let (status, mid) = run_commands(start, actor, cmds, n - 1);
        if status == Status::SUCCESS {
            law_step_keeps(mid, actor, cmds[n - 1]);
        }
    }
}

/// The store that a program leaves to commit keeps the invariant.
pub proof fn law_commit_keeps_invariant(db: DatabaseView, program: ProgramSyntax)
    requires
        db.wf(),
    ensures
        outcome(db, program).1 matches Some(after) ==> after.wf(),
{
    if db.password_status(program.principal, program.password) == Status::SUCCESS {
        law_locals_never_persist(
            db,
            program.principal,
            program.commands,
            program.commands.len() as int,
        );
    }
}

/// At most one outcome: a program leaves either one entry that reports
/// `DENIED` or `FAILED` and nothing to commit, or a store to commit with
/// one entry for each command, none of which reports `DENIED` or `FAILED`,
/// and one last entry for the terminator, `EXITING` or `RETURNING`.
pub proof fn law_one_outcome(db: DatabaseView, program: ProgramSyntax)
    ensures
        ({
            let (log, commit) = outcome(db, program);
            let n = program.commands.len() as int;
            ||| (commit is None && log.len() == 1 && is_abort(log[0]))
            ||| (commit is Some && log.len() == n + 1 && (forall|i: int|
                0 <= i < n ==> log[i] == plain_entry(success_status(program.commands[i])))
                && (log[n].status == Reported::EXITING || log[n].status == Reported::RETURNING)
                && (forall|i: int| 0 <= i <= n ==> !is_abort(#[trigger] log[i])))
        }),
{
    let (log, commit) = outcome(db, program);
    let n = program.commands.len() as int;
    if commit is Some {
        let first = success_log(program.commands, n);
        assert forall|i: int| 0 <= i <= n implies !is_abort(#[trigger] log[i]) by {
            if i < n {
                assert(log[i] == first[i]);
            }
        }
        assert forall|i: int| 0 <= i < n implies log[i] == plain_entry(
            success_status(program.commands[i]),
        ) by {
            assert(log[i] == first[i]);
        }
    }
}

/// At most one outcome for any text: one entry that reports `DENIED` or
/// `FAILED` and nothing to commit, or a store to commit and a log that
/// holds no such entry.
pub proof fn law_one_outcome_of_text(db: DatabaseView, text: Seq<char>)
    ensures
        ({
            let (log, commit) = outcome_of_text(db, text);
            ||| (commit is None && log.len() == 1 && is_abort(log[0]))
            ||| (commit is Some && log.len() >= 1 && (forall|i: int|
                0 <= i < log.len() ==> !is_abort(#[trigger] log[i])))
        }),
{
    if readable(text) && program_of(text) is Some {
        law_one_outcome(db, program_of(text)->Some_0);
    }
}

/// Only `RETURNING` carries an output: in the log of any submission, an
/// entry has an output exactly where it reports `RETURNING`.
pub proof fn law_only_returning_has_output(db: DatabaseView, text: Seq<char>, i: int)
    requires
        0 <= i < outcome_of_text(db, text).0.len(),
    ensures
        outcome_of_text(db, text).0[i].output is Some <==> outcome_of_text(db, text).0[i].status
            == Reported::RETURNING,
{
    if readable(text) && program_of(text) is Some {
        let program = program_of(text)->Some_0;
        let (log, commit) = outcome(db, program);
        let n = program.commands.len() as int;
        law_one_outcome(db, program);
        if commit is Some && i < n {
            assert(log[i] == plain_entry(success_status(program.commands[i])));
        }
    }
}

/// Transactional atomicity: where the log of a submission holds an entry
/// that reports `DENIED` or `FAILED`, the store that stands afterwards is
/// the store as it was.
pub proof fn law_atomicity(db: DatabaseView, text: Seq<char>, i: int)
    requires
        0 <= i < outcome_of_text(db, text).0.len(),
        is_abort(outcome_of_text(db, text).0[i]),
    ensures
        outcome_of_text(db, text).1 is None,
        next_store(db, text) == db,
{
    law_one_outcome_of_text(db, text);
}

/// A text of more than 1,000,000 characters, or one that holds a character
/// that is not ASCII, is not read: it leaves one `FAILED` entry and nothing
/// to commit.
pub proof fn law_unreadable_text_fails(db: DatabaseView, text: Seq<char>)
    requires
        text.len() > MAX_PROGRAM || exists|i: int| 0 <= i < text.len() && text[i] > '\u{7f}',
    ensures
        !readable(text),
        outcome_of_text(db, text) == (abort_log(Status::FAILED), None::<DatabaseView>),
        next_store(db, text) == db,
{
}

/// A text that the grammar does not read as a program leaves one `FAILED`
/// entry and nothing to commit, whatever principal and password it names.
pub proof fn law_no_program_fails(db: DatabaseView, text: Seq<char>)
    requires
        program_of(text) is None,
    ensures
        outcome_of_text(db, text) == (abort_log(Status::FAILED), None::<DatabaseView>),
        next_store(db, text) == db,
{
}

} // verus!
