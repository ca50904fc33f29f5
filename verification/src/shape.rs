//! The shape of stored values: lists hold strings and records, never
//! lists, and no record names a field twice. Programs keep it.

use crate::grammar::{program_of, readable};
use crate::laws::law_locals_never_persist;
use crate::policy::{DatabaseView, Right, Status};
use crate::semantics::{
    append_to, assign, declare_local, eval_each, eval_expr, eval_field, eval_fields, eval_value,
    fresh_state, has_local, list_of, local_names, local_value, lookup, next_store, replace_each,
    right_of, run_commands, step, target_of, with_local, LocalView, StateView,
};
use crate::transitions::{
    appended, lemma_create_principal_frame, lemma_delegate_frame, lemma_undelegate_frame,
};
use crate::types::{
    AppendSyntax, AssignmentSyntax, ExprSyntax, ForEachSyntax, PrimitiveSyntax, ValueSyntax,
    VariableSyntax,
};
use crate::value::{
    distinct_names, field_names, first_index, has_name, lemma_first_index, ValueView,
};
use vstd::prelude::*;

verus! {

/// Whether a value can be an item of a list: a string, or a record that
/// names no field twice.
pub open spec fn flat(v: ValueView) -> bool {
    match v {
        ValueView::Immediate(_) => true,
        ValueView::FieldVals(fields) => distinct_names(field_names(fields)),
        ValueView::List(_) => false,
    }
}

/// Whether each of `items` can be an item of a list.
pub open spec fn flat_items(items: Seq<ValueView>) -> bool {
    forall|i: int| 0 <= i < items.len() ==> flat(#[trigger] items[i])
}

/// Whether a value has the shape of stored values: a string, a record that
/// names no field twice, or a list of such strings and records.
pub open spec fn shaped(v: ValueView) -> bool {
    match v {
        ValueView::List(items) => flat_items(items),
        _ => flat(v),
    }
}

/// Whether every global variable holds a value of that shape.
pub open spec fn store_shaped(db: DatabaseView) -> bool {
    forall|i: int| 0 <= i < db.variables.len() ==> shaped(#[trigger] db.variables[i].value)
}

/// Whether every local variable holds a value of that shape.
pub open spec fn locals_shaped(locals: Seq<LocalView>) -> bool {
    forall|i: int| 0 <= i < locals.len() ==> shaped(#[trigger] locals[i].value)
}

/// Whether every variable of a state holds a value of that shape.
pub open spec fn state_shaped(st: StateView) -> bool {
    store_shaped(st.db) && locals_shaped(st.locals)
}

/// A value added to a list of strings and records gives such a list.
pub proof fn lemma_appended_shaped(items: Seq<ValueView>, value: ValueView)
    requires
        shaped(ValueView::List(items)),
        shaped(value),
    ensures
        shaped(ValueView::List(appended(items, value))),
{
    let all = appended(items, value);
    assert forall|i: int| 0 <= i < all.len() implies flat(#[trigger] all[i]) by {
        if i < items.len() {
            assert(all[i] == items[i]);
            assert(flat(items[i]));
        } else {
            match value {
                ValueView::List(more) => {
                    assert(all[i] == more[i - items.len()]);
                    assert(flat(more[i - items.len()]));
                },
                _ => {
                    assert(all[i] == value);
                },
            }
        }
    }
}

/// Writing an existing field of a record keeps its field names.
pub proof fn lemma_field_update_shaped(
    fields: Seq<(Seq<char>, Seq<char>)>,
    field: Seq<char>,
    text: Seq<char>,
)
    requires
        distinct_names(field_names(fields)),
        has_name(field_names(fields), field),
    ensures
        distinct_names(
            field_names(fields.update(first_index(field_names(fields), field), (field, text))),
        ),
{
    lemma_first_index(field_names(fields), field);
    assert(field_names(fields.update(first_index(field_names(fields), field), (field, text)))
        =~= field_names(fields));
}

/// Replacing the value of a variable by a value of the shape keeps the store
/// in shape.
pub proof fn lemma_with_value_shaped(db: DatabaseView, name: Seq<char>, value: ValueView)
    requires
        store_shaped(db),
        db.contains(name),
        shaped(value),
    ensures
        store_shaped(db.with_value(name, value)),
{
    let after = db.with_value(name, value);
    lemma_first_index(db.var_names(), name);
    assert forall|i: int| 0 <= i < after.variables.len() implies shaped(
        #[trigger] after.variables[i].value,
    ) by {
        if i != db.var_index(name) {
            assert(after.variables[i] == db.variables[i]);
        }
    }
}

/// A variable that exists holds a value of the shape.
pub proof fn lemma_value_of_shaped(db: DatabaseView, name: Seq<char>)
    requires
        store_shaped(db),
        db.contains(name),
    ensures
        shaped(db.value_of(name)),
{
    lemma_first_index(db.var_names(), name);
}

/// Writing a variable with a value of the shape keeps the store in shape.
pub proof fn law_set_keeps_shape(db: DatabaseView, actor: Seq<char>, var: Seq<char>, value: ValueView)
    requires
        store_shaped(db),
        shaped(value),
    ensures
        store_shaped(db.set(actor, var, value)),
{
    let after = db.set(actor, var, value);
    if !db.contains(var) {
        let created = db.add_variable(var, value);
        assert forall|i: int| 0 <= i < created.variables.len() implies shaped(
            #[trigger] created.variables[i].value,
        ) by {
            if i < db.variables.len() {
                assert(created.variables[i] == db.variables[i]);
            }
        }
        assert(after.variables == created.variables);
    } else if db.holds(var, Right::Write, actor) {
        lemma_with_value_shaped(db, var, value);
    }
}

/// Writing a field of a record keeps the store in shape.
pub proof fn law_set_member_keeps_shape(
    db: DatabaseView,
    actor: Seq<char>,
    var: Seq<char>,
    field: Seq<char>,
    text: Seq<char>,
)
    requires
        store_shaped(db),
    ensures
        store_shaped(db.set_member(actor, var, field, text)),
{
    if db.set_member_status(actor, var, field) == Status::SUCCESS {
        lemma_value_of_shaped(db, var);
        let fields = db.value_of(var)->FieldVals_0;
        lemma_field_update_shaped(fields, field, text);
        lemma_with_value_shaped(
            db,
            var,
            ValueView::FieldVals(
                fields.update(first_index(field_names(fields), field), (field, text)),
            ),
        );
    }
}

/// Appending a value of the shape to a list keeps the store in shape.
pub proof fn law_append_keeps_shape(
    db: DatabaseView,
    actor: Seq<char>,
    var: Seq<char>,
    value: ValueView,
)
    requires
        store_shaped(db),
        shaped(value),
    ensures
        store_shaped(db.append(actor, var, value)),
{
    if db.append_status(actor, var) == Status::SUCCESS {
        lemma_value_of_shaped(db, var);
        let items = db.value_of(var)->List_0;
        lemma_appended_shaped(items, value);
        lemma_with_value_shaped(db, var, ValueView::List(appended(items, value)));
    }
}

/// Reading a name in a state in shape gives a value of the shape.
pub proof fn lemma_lookup_shaped(
    db: DatabaseView,
    locals: Seq<LocalView>,
    actor: Seq<char>,
    name: Seq<char>,
)
    requires
        store_shaped(db),
        locals_shaped(locals),
    ensures
        lookup(db, locals, actor, name) matches Ok(v) ==> shaped(v),
{
    if has_local(locals, name) {
        lemma_first_index(local_names(locals), name);
    } else if db.contains(name) {
        lemma_value_of_shaped(db, name);
    }
}

/// Evaluating a value in a state in shape gives a value of the shape.
pub proof fn lemma_eval_value_shaped(
    db: DatabaseView,
    locals: Seq<LocalView>,
    actor: Seq<char>,
    v: ValueSyntax,
)
    requires
        store_shaped(db),
        locals_shaped(locals),
    ensures
        eval_value(db, locals, actor, v) matches Ok(value) ==> shaped(value),
{
    match v {
        ValueSyntax::String(_) => {},
        ValueSyntax::Variable(VariableSyntax::Variable(name)) => {
            lemma_lookup_shaped(db, locals, actor, name);
        },
        ValueSyntax::Variable(VariableSyntax::Member(name, _)) => {},
    }
}

/// A record literal gives a record that names no field twice.
pub proof fn lemma_eval_fields_shaped(
    db: DatabaseView,
    locals: Seq<LocalView>,
    actor: Seq<char>,
    fields: Seq<AssignmentSyntax>,
    n: int,
)
    ensures
        eval_fields(db, locals, actor, fields, n) matches Ok(record) ==> distinct_names(
            field_names(record),
        ),
    decreases n,
{
    if n > 0 {
        lemma_eval_fields_shaped(db, locals, actor, fields, n - 1);
        if let Ok(record) = eval_fields(db, locals, actor, fields, n - 1) {
            if let VariableSyntax::Variable(name) = fields[n - 1].variable {
                if !has_name(field_names(record), name) {
                    if let Ok(text) = eval_field(db, locals, actor, fields[n - 1]) {
                        let longer = record.push((name, text));
                        lemma_first_index(field_names(record), name);
                        assert(field_names(longer) =~= field_names(record).push(name));
                    }
                }
            }
        }
    }
}

/// Evaluating an expression in a state in shape gives a value of the shape.
pub proof fn law_eval_expr_shaped(
    db: DatabaseView,
    locals: Seq<LocalView>,
    actor: Seq<char>,
    e: ExprSyntax,
)
    requires
        store_shaped(db),
        locals_shaped(locals),
    ensures
        eval_expr(db, locals, actor, e) matches Ok(value) ==> shaped(value),
{
    match e {
        ExprSyntax::Value(v) => {
            lemma_eval_value_shaped(db, locals, actor, v);
        },
        ExprSyntax::EmptyList => {},
        ExprSyntax::FieldVals(fields) => {
            lemma_eval_fields_shaped(db, locals, actor, fields, fields.len() as int);
        },
    }
}

/// What the body of a `foreach` gives is a list of strings and records.
pub proof fn lemma_eval_each_shaped(
    db: DatabaseView,
    locals: Seq<LocalView>,
    actor: Seq<char>,
    y: Seq<char>,
    items: Seq<ValueView>,
    body: ExprSyntax,
    n: int,
)
    requires
        store_shaped(db),
        locals_shaped(locals),
        shaped(ValueView::List(items)),
        n <= items.len(),
    ensures
        eval_each(db, locals, actor, y, items, body, n) matches Ok(results) ==> shaped(
            ValueView::List(results),
        ),
    decreases n,
{
    if n > 0 {
        lemma_eval_each_shaped(db, locals, actor, y, items, body, n - 1);
        if let Ok(results) = eval_each(db, locals, actor, y, items, body, n - 1) {
            let bound = locals.push(LocalView { name: y, value: items[n - 1] });
            let item = items[n - 1];
            assert(flat(item));
            assert forall|i: int| 0 <= i < bound.len() implies shaped(#[trigger] bound[i].value) by {
                if i < locals.len() {
                    assert(bound[i] == locals[i]);
                } else {
                    assert(bound[i].value == item);
                }
            }
            law_eval_expr_shaped(db, bound, actor, body);
            if let Ok(value) = eval_expr(db, bound, actor, body) {
                if !value.is_list() {
                    let longer = results.push(value);
                    assert forall|i: int| 0 <= i < longer.len() implies flat(
                        #[trigger] longer[i],
                    ) by {
                        if i < results.len() {
                            assert(longer[i] == results[i]);
                            assert(flat(results[i]));
                        } else {
                            assert(longer[i] == value);
                        }
                    }
                }
            }
        }
    }
}

/// Replacing the value of a local variable by a value of the shape keeps
/// the locals in shape.
pub proof fn lemma_with_local_shaped(locals: Seq<LocalView>, name: Seq<char>, value: ValueView)
    requires
        locals_shaped(locals),
        has_local(locals, name),
        shaped(value),
    ensures
        locals_shaped(with_local(locals, name, value)),
{
    let after = with_local(locals, name, value);
    lemma_first_index(local_names(locals), name);
    assert forall|i: int| 0 <= i < after.len() implies shaped(#[trigger] after[i].value) by {
        if i != first_index(local_names(locals), name) {
            assert(after[i] == locals[i]);
        }
    }
}

/// A local variable that exists holds a value of the shape.
pub proof fn lemma_local_value_shaped(locals: Seq<LocalView>, name: Seq<char>)
    requires
        locals_shaped(locals),
        has_local(locals, name),
    ensures
        shaped(local_value(locals, name)),
{
    lemma_first_index(local_names(locals), name);
}

/// `set` keeps a state in shape.
proof fn lemma_assign_shaped(st: StateView, actor: Seq<char>, a: AssignmentSyntax)
    requires
        state_shaped(st),
    ensures
        state_shaped(assign(st, actor, a).1),
{
    law_eval_expr_shaped(st.db, st.locals, actor, a.expr);
    match eval_expr(st.db, st.locals, actor, a.expr) {
        Err(_) => {},
        Ok(value) => match a.variable {
            VariableSyntax::Variable(name) => {
                if has_local(st.locals, name) {
                    lemma_with_local_shaped(st.locals, name, value);
                } else {
                    law_set_keeps_shape(st.db, actor, name, value);
                }
            },
            VariableSyntax::Member(name, rest) => match (*rest, value) {
                (VariableSyntax::Variable(field), ValueView::Immediate(text)) => {
                    if has_local(st.locals, name) {
                        lemma_local_value_shaped(st.locals, name);
                        match local_value(st.locals, name) {
                            ValueView::FieldVals(fields) => {
                                if has_name(field_names(fields), field) {
                                    lemma_field_update_shaped(fields, field, text);
                                    lemma_with_local_shaped(
                                        st.locals,
                                        name,
                                        ValueView::FieldVals(
                                            fields.update(
                                                first_index(field_names(fields), field),
                                                (field, text),
                                            ),
                                        ),
                                    );
                                }
                            },
                            _ => {},
                        }
                    } else {
                        law_set_member_keeps_shape(st.db, actor, name, field, text);
                    }
                },
                _ => {},
            },
        },
    }
}

/// `append` keeps a state in shape.
proof fn lemma_append_shaped(st: StateView, actor: Seq<char>, a: AppendSyntax)
    requires
        state_shaped(st),
    ensures
        state_shaped(append_to(st, actor, a).1),
{
    law_eval_expr_shaped(st.db, st.locals, actor, a.expr);
    match a.variable {
        VariableSyntax::Member(_, _) => {},
        VariableSyntax::Variable(name) => match eval_expr(st.db, st.locals, actor, a.expr) {
            Err(_) => {},
            Ok(value) => {
                if has_local(st.locals, name) {
                    lemma_local_value_shaped(st.locals, name);
                    match local_value(st.locals, name) {
                        ValueView::List(items) => {
                            lemma_appended_shaped(items, value);
                            lemma_with_local_shaped(
                                st.locals,
                                name,
                                ValueView::List(appended(items, value)),
                            );
                        },
                        _ => {},
                    }
                } else {
                    law_append_keeps_shape(st.db, actor, name, value);
                }
            },
        },
    }
}

/// `local` keeps a state in shape.
proof fn lemma_declare_shaped(st: StateView, actor: Seq<char>, a: AssignmentSyntax)
    requires
        state_shaped(st),
    ensures
        state_shaped(declare_local(st, actor, a).1),
{
    law_eval_expr_shaped(st.db, st.locals, actor, a.expr);
    let after = declare_local(st, actor, a).1;
    if after != st {
        assert forall|i: int| 0 <= i < after.locals.len() implies shaped(
            #[trigger] after.locals[i].value,
        ) by {
            if i < st.locals.len() {
                assert(after.locals[i] == st.locals[i]);
            }
        }
    }
}

/// `foreach` keeps a state in shape.
proof fn lemma_foreach_shaped(st: StateView, actor: Seq<char>, f: ForEachSyntax)
    requires
        state_shaped(st),
    ensures
        state_shaped(replace_each(st, actor, f).1),
{
    match (f.value, f.list) {
        (VariableSyntax::Variable(y), VariableSyntax::Variable(x)) => {
            lemma_lookup_shaped(st.db, st.locals, actor, x);
            match list_of(st.db, st.locals, actor, x) {
                Err(_) => {},
                Ok(items) => {
                    lemma_eval_each_shaped(
                        st.db,
                        st.locals,
                        actor,
                        y,
                        items,
                        f.expr,
                        items.len() as int,
                    );
                    match eval_each(st.db, st.locals, actor, y, items, f.expr, items.len() as int) {
                        Err(_) => {},
                        Ok(results) => {
                            if has_local(st.locals, x) {
                                lemma_with_local_shaped(st.locals, x, ValueView::List(results));
                            } else {
                                law_set_keeps_shape(st.db, actor, x, ValueView::List(results));
                            }
                        },
                    }
                },
            }
        },
        _ => {},
    }
}

/// One command keeps a state in shape.
pub proof fn law_step_keeps_shape(st: StateView, actor: Seq<char>, cmd: PrimitiveSyntax)
    requires
        st.db.wf(),
        state_shaped(st),
    ensures
        state_shaped(step(st, actor, cmd).1),
{
    reveal(step);
    match cmd {
        PrimitiveSyntax::CreatePrincipal(c) => {
            lemma_create_principal_frame(st.db, actor, c.principal, c.password);
        },
        PrimitiveSyntax::ChangePassword(_) => {},
        PrimitiveSyntax::Assignment(a) => {
            lemma_assign_shaped(st, actor, a);
        },
        PrimitiveSyntax::Append(a) => {
            lemma_append_shaped(st, actor, a);
        },
        PrimitiveSyntax::LocalAssignment(a) => {
            lemma_declare_shaped(st, actor, a);
        },
        PrimitiveSyntax::ForEach(f) => {
            lemma_foreach_shaped(st, actor, f);
        },
        PrimitiveSyntax::SetDelegation(d) => {
            lemma_delegate_frame(
                st.db,
                actor,
                target_of(d.target),
                d.delegator,
                right_of(d.right),
                d.delegated,
            );
        },
        PrimitiveSyntax::DeleteDelegation(d) => {
            lemma_undelegate_frame(
                st.db,
                actor,
                target_of(d.target),
                d.delegator,
                right_of(d.right),
                d.delegated,
            );
        },
        PrimitiveSyntax::DefaultDelegator(_) => {},
    }
}

/// Programs keep values in shape: whatever commands a program runs on a
/// store in shape, every variable, global or local, holds a string, a
/// record that names no field twice, or a list of such strings and records.
pub proof fn law_values_keep_shape(
    db: DatabaseView,
    actor: Seq<char>,
    cmds: Seq<PrimitiveSyntax>,
    n: int,
)
    requires
        db.wf(),
        db.is_principal(actor),
        store_shaped(db),
    ensures
        state_shaped(run_commands(fresh_state(db), actor, cmds, n).1),
    decreases n,
{
    let start = fresh_state(db);
    if n > 0 {
        law_values_keep_shape(db, actor, cmds, n - 1);
        law_locals_never_persist(db, actor, cmds, n - 1);
        let (status, mid) = run_commands(start, actor, cmds, n - 1);
        if status == Status::SUCCESS {
            law_step_keeps_shape(mid, actor, cmds[n - 1]);
        }
    }
}

/// The store that stands after the first `n` of the submissions `texts`,
/// served one by one from `db`.
pub open spec fn served(db: DatabaseView, texts: Seq<Seq<char>>, n: int) -> DatabaseView
    decreases n,
{
    if n <= 0 {
        db
    } else {
        next_store(served(db, texts, n - 1), texts[n - 1])
    }
}

/// One submission keeps the invariant of the store and the shape of its
/// values.
pub proof fn law_submission_keeps_store(db: DatabaseView, text: Seq<char>)
    requires
        db.wf(),
        store_shaped(db),
    ensures
        next_store(db, text).wf(),
        store_shaped(next_store(db, text)),
{
    if readable(text) && program_of(text) is Some {
        let program = program_of(text)->Some_0;
        if db.password_status(program.principal, program.password) == Status::SUCCESS {
            let n = program.commands.len() as int;
            law_locals_never_persist(db, program.principal, program.commands, n);
            law_values_keep_shape(db, program.principal, program.commands, n);
        }
    }
}

/// Every state keeps the invariant: whatever texts are submitted, in
/// whatever number, to a store that starts with `admin` and `anyone` alone,
/// the store that stands keeps its invariant and the shape of its values.
pub proof fn law_every_state_keeps_store(admin_hash: Seq<u8>, texts: Seq<Seq<char>>, n: int)
    ensures
        served(DatabaseView::initial(admin_hash), texts, n).wf(),
        store_shaped(served(DatabaseView::initial(admin_hash), texts, n)),
    decreases n,
{
    let start = DatabaseView::initial(admin_hash);
    if n <= 0 {
        assert(start.user_names() =~= Seq::empty());
        assert(start.var_names() =~= Seq::empty());
    } else {
        law_every_state_keeps_store(admin_hash, texts, n - 1);
        law_submission_keeps_store(served(start, texts, n - 1), texts[n - 1]);
    }
}

} // verus!
