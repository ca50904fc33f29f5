//! The interpreter: runs a parsed program on a private copy of the store and
//! gives the status log, with the store to commit where the program ended
//! well.

use crate::database::{append_value, find_field, Database};
use crate::parser::parse;
use crate::policy::{DatabaseView, Right, Status as Outcome, Target};
use crate::semantics::{
    abort_log, append_to, assign, declare_local, eval_each, eval_expr, eval_fields, eval_value,
    fresh_state, has_local, list_of, local_index, local_names, lookup, next_store, outcome,
    outcome_of_text, replace_each, right_of, run_commands, step, success_log, success_status,
    target_of, with_local, LocalView, StateView,
};
use crate::status::{log_view, plain_entry, Entry, EntryView, Status};
use crate::transitions::{
    lemma_append_frame, lemma_change_password_frame, lemma_create_principal_frame,
    lemma_default_delegator_frame, lemma_delegate_frame, lemma_set_frame, lemma_set_member_frame,
    lemma_undelegate_frame,
};
use crate::types::{
    assignments_syntax, commands_syntax, expr_syntax, lemma_fieldvals_syntax, variable_syntax,
    Append, Assignment, AssignmentSyntax, ChangePassword, CreatePrincipal, Delegation, Expr,
    ExprSyntax, ForEach, PrimitiveCommand, PrimitiveSyntax, Principal, Program,
    Right as ParserRight, Target as ParserTarget, TerminatorCommand, Value as ParserValue, Variable,
    VariableSyntax,
};
use crate::util::{is_admin, same_name};
use crate::value::{
    clone_fields, clone_value, fields_view, lemma_first_index, lemma_first_index_is,
    lemma_list_view, values_view, Value, ValueView,
};
use vstd::prelude::*;

verus! {

/// A local variable of a running program.
#[derive(Debug, PartialEq, Eq)]
pub struct Local {
    pub name: String,
    pub value: Value,
}

impl View for Local {
    type V = LocalView;

    open spec fn view(&self) -> LocalView {
        LocalView { name: self.name@, value: self.value@ }
    }
}

/// The contents of the local variables.
pub open spec fn locals_view(locals: Seq<Local>) -> Seq<LocalView> {
    Seq::new(locals.len(), |i: int| locals[i]@)
}

/// The content of what an evaluation gives.
pub open spec fn value_result(r: Result<Value, Outcome>) -> Result<ValueView, Outcome> {
    match r {
        Ok(v) => Ok(v@),
        Err(e) => Err(e),
    }
}

/// The state that a store and local variables stand for.
pub open spec fn state_view(db: DatabaseView, locals: Seq<Local>) -> StateView {
    StateView { db: db, locals: locals_view(locals) }
}

/// Finds the position of the local variable called `name`.
pub fn find_local(locals: &Vec<Local>, name: &String) -> (res: Option<usize>)
    ensures
        (match res {
            Some(i) => i < locals.len() && has_local(locals_view(locals@), name@) && local_index(
                locals_view(locals@),
                name@,
            ) == i,
            None => !has_local(locals_view(locals@), name@),
        }),
{
    let ghost names = local_names(locals_view(locals@));
    let mut i: usize = 0;
    while i < locals.len()
        invariant
            i <= locals.len(),
            names == local_names(locals_view(locals@)),
            forall|j: int| 0 <= j < i ==> names[j] != name@,
        decreases locals.len() - i,
    {
        if same_name(&locals[i].name, name) {
            proof {
                lemma_first_index_is(names, name@, i as int);
            }
            return Some(i);
        }
        i += 1;
    }
    proof {
        lemma_first_index_is(names, name@, i as int);
    }
    None
}

/// Replaces the value of the local variable at position `k`.
fn store_local(locals: &mut Vec<Local>, k: usize, value: Value)
    requires
        k < old(locals).len(),
        local_index(locals_view(old(locals)@), old(locals)@[k as int].name@) == k,
    ensures
        locals_view(final(locals)@) == with_local(
            locals_view(old(locals)@),
            old(locals)@[k as int].name@,
            value@,
        ),
{
    locals[k].value = value;
    assert(locals_view(locals@) =~= with_local(
        locals_view(old(locals)@),
        old(locals)@[k as int].name@,
        value@,
    ));
}

/// Reads a name: a local variable first, else the global one.
pub fn get_variable(database: &Database, locals: &Vec<Local>, actor: &String, variable: &String) -> (res:
    Result<Value, Outcome>)
    requires
        database.wf(),
        database@.is_principal(actor@),
    ensures
        value_result(res) == lookup(database@, locals_view(locals@), actor@, variable@),
{
    match find_local(locals, variable) {
        Some(i) => Ok(clone_value(&locals[i].value)),
        None => match database.get(actor, variable) {
            Ok(value) => Ok(clone_value(value)),
            Err(e) => Err(e),
        },
    }
}

/// Evaluates a string literal, a variable or a field of a record.
pub fn evaluate_value(
    database: &Database,
    locals: &Vec<Local>,
    actor: &String,
    value: &ParserValue,
) -> (res: Result<Value, Outcome>)
    requires
        database.wf(),
        database@.is_principal(actor@),
    ensures
        value_result(res) == eval_value(database@, locals_view(locals@), actor@, value@),
{
    proof {
        reveal_with_fuel(variable_syntax, 3);
    }
    match value {
        ParserValue::String(s) => Ok(Value::Immediate(s.clone())),
        ParserValue::Variable(v) => match v {
            Variable::Variable(i) => get_variable(database, locals, actor, &i.name),
            Variable::Member(i1, rest) => match &**rest {
                Variable::Variable(i2) => match get_variable(database, locals, actor, &i1.name) {
                    Ok(Value::FieldVals(fields)) => match find_field(&fields, &i2.name) {
                        Some(k) => Ok(Value::Immediate(fields[k].1.clone())),
                        None => Err(Outcome::FAILED),
                    },
                    Ok(_) => Err(Outcome::FAILED),
                    Err(e) => Err(e),
                },
                Variable::Member(_, _) => Err(Outcome::FAILED),
            },
        },
    }
}

/// A record literal that fails at one field fails as a whole.
proof fn lemma_eval_fields_err(
    db: DatabaseView,
    locals: Seq<LocalView>,
    actor: Seq<char>,
    fields: Seq<AssignmentSyntax>,
    m: int,
    n: int,
)
    requires
        eval_fields(db, locals, actor, fields, m) is Err,
        m <= n,
    ensures
        eval_fields(db, locals, actor, fields, n) == eval_fields(db, locals, actor, fields, m),
    decreases n - m,
{
    if m < n {
        lemma_eval_fields_err(db, locals, actor, fields, m, n - 1);
    }
}

/// Evaluates a record literal.
pub fn evaluate_fieldvals(
    database: &Database,
    locals: &Vec<Local>,
    actor: &String,
    value: &Vec<Assignment>,
) -> (res: Result<Value, Outcome>)
    requires
        database.wf(),
        database@.is_principal(actor@),
    ensures
        value_result(res) == eval_expr(
            database@,
            locals_view(locals@),
            actor@,
            ExprSyntax::FieldVals(assignments_syntax(value@)),
        ),
{
    let ghost db = database@;
    let ghost lv = locals_view(locals@);
    let ghost fs = assignments_syntax(value@);
    let mut record: Vec<(String, String)> = Vec::new();
    let mut i: usize = 0;
    assert(fields_view(record@) =~= Seq::empty());
    while i < value.len()
        invariant
            database.wf(),
            database@.is_principal(actor@),
            db == database@,
            lv == locals_view(locals@),
            fs == assignments_syntax(value@),
            i <= value.len(),
            eval_fields(db, lv, actor@, fs, i as int) == Ok::<
                Seq<(Seq<char>, Seq<char>)>,
                Outcome,
            >(fields_view(record@)),
        decreases value.len() - i,
    {
        let a = &value[i];
        proof {
            reveal_with_fuel(expr_syntax, 2);
            reveal_with_fuel(variable_syntax, 2);
            assert(fs[i as int] == a@);
        }
        let name = match &a.variable {
            Variable::Variable(id) => &id.name,
            Variable::Member(_, _) => {
                proof {
                    lemma_eval_fields_err(db, lv, actor@, fs, i + 1, value.len() as int);
                }
                return Err(Outcome::FAILED);
            },
        };
        if find_field(&record, name).is_some() {
            proof {
                lemma_eval_fields_err(db, lv, actor@, fs, i + 1, value.len() as int);
            }
            return Err(Outcome::FAILED);
        }
        let text = match &a.expr {
            Expr::Value(v) => match evaluate_value(database, locals, actor, v) {
                Ok(Value::Immediate(s)) => s,
                Ok(_) => {
                    proof {
                        lemma_eval_fields_err(db, lv, actor@, fs, i + 1, value.len() as int);
                    }
                    return Err(Outcome::FAILED);
                },
                Err(e) => {
                    proof {
                        lemma_eval_fields_err(db, lv, actor@, fs, i + 1, value.len() as int);
                    }
                    return Err(e);
                },
            },
            _ => {
                proof {
                    lemma_eval_fields_err(db, lv, actor@, fs, i + 1, value.len() as int);
                }
                return Err(Outcome::FAILED);
            },
        };
        let ghost before = fields_view(record@);
        record.push((name.clone(), text));
        assert(fields_view(record@) =~= before.push((name@, text@)));
        i += 1;
    }
    Ok(Value::FieldVals(record))
}

/// Evaluates an expression.
pub fn evaluate(database: &Database, locals: &Vec<Local>, actor: &String, expr: &Expr) -> (res:
    Result<Value, Outcome>)
    requires
        database.wf(),
        database@.is_principal(actor@),
    ensures
        value_result(res) == eval_expr(database@, locals_view(locals@), actor@, expr@),
{
    match expr {
        Expr::Value(v) => evaluate_value(database, locals, actor, v),
        Expr::EmptyList => {
            let items: Vec<Value> = Vec::new();
            proof {
                lemma_list_view(items);
                assert(values_view(items@) =~= Seq::empty());
            }
            Ok(Value::List(items))
        },
        Expr::FieldVals(fields) => {
            proof {
                lemma_fieldvals_syntax(*fields);
            }
            evaluate_fieldvals(database, locals, actor, fields)
        },
    }
}

/// The right that the store knows for a right written in a program.
pub fn convert_right(right: &ParserRight) -> (res: Right)
    ensures
        res == right_of(*right),
{
    match right {
        ParserRight::Read => Right::Read,
        ParserRight::Write => Right::Write,
        ParserRight::Append => Right::Append,
        ParserRight::Delegate => Right::Delegate,
    }
}

/// The target that the store knows for a target written in a program.
pub fn convert_target(target: &ParserTarget) -> (res: Target)
    ensures
        res@ == target_of(target@),
{
    match target {
        ParserTarget::All => Target::All,
        ParserTarget::Variable(i) => Target::Variable(i.name.clone()),
    }
}

/// Runs `create principal p s`.
pub fn create_principal(database: &mut Database, actor: &String, cp: &CreatePrincipal) -> (res:
    Outcome)
    requires
        old(database).wf(),
        old(database)@.is_principal(actor@),
    ensures
        final(database).wf(),
        final(database)@.is_principal(actor@),
        res == old(database)@.create_principal_status(actor@, cp.principal@),
        final(database)@ == old(database)@.create_principal(
            actor@,
            cp.principal@,
            cp.password@,
        ),
{
    proof {
        lemma_create_principal_frame(database@, actor@, cp.principal@, cp.password@);
    }
    database.create_principal(actor, &cp.principal.ident.name, &cp.password)
}

/// Runs `change password p s`.
pub fn change_password(database: &mut Database, actor: &String, cp: &ChangePassword) -> (res:
    Outcome)
    requires
        old(database).wf(),
        old(database)@.is_principal(actor@),
    ensures
        final(database).wf(),
        final(database)@.is_principal(actor@),
        res == old(database)@.change_password_status(actor@, cp.principal@),
        final(database)@ == old(database)@.change_password(actor@, cp.principal@, cp.password@),
{
    proof {
        lemma_change_password_frame(database@, actor@, cp.principal@, cp.password@);
    }
    database.change_password(actor, &cp.principal.ident.name, &cp.password)
}

/// Runs `set delegation t q r -> p`.
pub fn set_delegation(database: &mut Database, actor: &String, d: &Delegation) -> (res: Outcome)
    requires
        old(database).wf(),
        old(database)@.is_principal(actor@),
    ensures
        final(database).wf(),
        final(database)@.is_principal(actor@),
        res == old(database)@.delegate_status(
            actor@,
            target_of(d.target@),
            d.delegator@,
            d.delegated@,
        ),
        final(database)@ == old(database)@.delegate(
            actor@,
            target_of(d.target@),
            d.delegator@,
            right_of(d.right),
            d.delegated@,
        ),
{
    proof {
        lemma_delegate_frame(
            database@,
            actor@,
            target_of(d.target@),
            d.delegator@,
            right_of(d.right),
            d.delegated@,
        );
    }
    let target = convert_target(&d.target);
    let right = convert_right(&d.right);
    database.delegate(actor, &target, &d.delegator.ident.name, &right, &d.delegated.ident.name)
}

/// Runs `delete delegation t q r -> p`.
pub fn delete_delegation(database: &mut Database, actor: &String, d: &Delegation) -> (res: Outcome)
    requires
        old(database).wf(),
        old(database)@.is_principal(actor@),
    ensures
        final(database).wf(),
        final(database)@.is_principal(actor@),
        res == old(database)@.undelegate_status(
            actor@,
            target_of(d.target@),
            d.delegator@,
            d.delegated@,
        ),
        final(database)@ == old(database)@.undelegate(
            actor@,
            target_of(d.target@),
            d.delegator@,
            right_of(d.right),
            d.delegated@,
        ),
{
    proof {
        lemma_undelegate_frame(
            database@,
            actor@,
            target_of(d.target@),
            d.delegator@,
            right_of(d.right),
            d.delegated@,
        );
    }
    let target = convert_target(&d.target);
    let right = convert_right(&d.right);
    database.undelegate(actor, &target, &d.delegator.ident.name, &right, &d.delegated.ident.name)
}

/// Runs `default delegator = p`.
pub fn default_delegator(database: &mut Database, actor: &String, p: &Principal) -> (res: Outcome)
    requires
        old(database).wf(),
        old(database)@.is_principal(actor@),
    ensures
        final(database).wf(),
        final(database)@.is_principal(actor@),
        res == old(database)@.default_delegator_status(actor@, p@),
        final(database)@ == old(database)@.set_default_delegator(actor@, p@),
{
    proof {
        lemma_default_delegator_frame(database@, actor@, p@);
    }
    database.set_default_delegator(actor, &p.ident.name)
}

/// Runs `set x = e` or `set x.y = e`.
pub fn assignment(
    database: &mut Database,
    locals: &mut Vec<Local>,
    actor: &String,
    a: &Assignment,
) -> (res: Outcome)
    requires
        old(database).wf(),
        old(database)@.is_principal(actor@),
    ensures
        final(database).wf(),
        final(database)@.is_principal(actor@),
        (res, state_view(final(database)@, final(locals)@)) == assign(
            state_view(old(database)@, old(locals)@),
            actor@,
            a@,
        ),
{
    proof {
        reveal_with_fuel(variable_syntax, 3);
    }
    let value = match evaluate(database, locals, actor, &a.expr) {
        Ok(value) => value,
        Err(e) => {
            return e;
        },
    };
    match &a.variable {
        Variable::Variable(i) => match find_local(locals, &i.name) {
            Some(k) => {
                proof {
                    lemma_first_index(local_names(locals_view(locals@)), i.name@);
                }
                store_local(locals, k, value);
                Outcome::SUCCESS
            },
            None => {
                proof {
                    lemma_set_frame(database@, actor@, i.name@, value@);
                }
                database.set(actor, &i.name, &value)
            },
        },
        Variable::Member(i1, rest) => {
            let field = match &**rest {
                Variable::Variable(i2) => &i2.name,
                Variable::Member(_, _) => {
                    return Outcome::FAILED;
                },
            };
            let text = match value {
                Value::Immediate(s) => s,
                _ => {
                    return Outcome::FAILED;
                },
            };
            match find_local(locals, &i1.name) {
                Some(k) => {
                    proof {
                        lemma_first_index(local_names(locals_view(locals@)), i1.name@);
                    }
                    let mut fields = match &locals[k].value {
                        Value::FieldVals(fields) => clone_fields(fields),
                        _ => {
                            return Outcome::FAILED;
                        },
                    };
                    let ghost before = fields_view(fields@);
                    match find_field(&fields, field) {
                        Some(j) => {
                            fields[j] = (field.clone(), text);
                            assert(fields_view(fields@) =~= before.update(
                                j as int,
                                (field@, text@),
                            ));
                            store_local(locals, k, Value::FieldVals(fields));
                            Outcome::SUCCESS
                        },
                        None => Outcome::FAILED,
                    }
                },
                None => {
                    proof {
                        lemma_set_member_frame(database@, actor@, i1.name@, field@, text@);
                    }
                    database.set_member(actor, &i1.name, field, &text)
                },
            }
        },
    }
}

/// Runs `append to x with e`.
pub fn append(database: &mut Database, locals: &mut Vec<Local>, actor: &String, ap: &Append) -> (res:
    Outcome)
    requires
        old(database).wf(),
        old(database)@.is_principal(actor@),
    ensures
        final(database).wf(),
        final(database)@.is_principal(actor@),
        (res, state_view(final(database)@, final(locals)@)) == append_to(
            state_view(old(database)@, old(locals)@),
            actor@,
            ap@,
        ),
{
    proof {
        reveal_with_fuel(variable_syntax, 2);
    }
    let name = match &ap.variable {
        Variable::Variable(i) => &i.name,
        Variable::Member(_, _) => {
            return Outcome::FAILED;
        },
    };
    let value = match evaluate(database, locals, actor, &ap.expr) {
        Ok(value) => value,
        Err(e) => {
            return e;
        },
    };
    let literal = match &ap.expr {
        Expr::EmptyList => true,
        _ => false,
    };
    let is_list = match &value {
        Value::List(_) => true,
        _ => false,
    };
    proof {
        reveal_with_fuel(expr_syntax, 2);
    }
    if is_list && !literal {
        return Outcome::FAILED;
    }
    match find_local(locals, name) {
        Some(k) => {
            proof {
                lemma_first_index(local_names(locals_view(locals@)), name@);
            }
            let list = match &locals[k].value {
                Value::List(items) => {
                    proof {
                        lemma_list_view(*items);
                    }
                    append_value(items, &value)
                },
                _ => {
                    return Outcome::FAILED;
                },
            };
            proof {
                lemma_list_view(list);
            }
            store_local(locals, k, Value::List(list));
            Outcome::SUCCESS
        },
        None => {
            proof {
                lemma_append_frame(database@, actor@, name@, value@);
            }
            database.append(actor, name, &value)
        },
    }
}

/// Runs `local x = e`.
pub fn local_assignment(
    database: &mut Database,
    locals: &mut Vec<Local>,
    actor: &String,
    la: &Assignment,
) -> (res: Outcome)
    requires
        old(database).wf(),
        old(database)@.is_principal(actor@),
    ensures
        final(database).wf(),
        final(database)@.is_principal(actor@),
        final(database)@ == old(database)@,
        (res, state_view(final(database)@, final(locals)@)) == declare_local(
            state_view(old(database)@, old(locals)@),
            actor@,
            la@,
        ),
{
    proof {
        reveal_with_fuel(variable_syntax, 2);
    }
    let name = match &la.variable {
        Variable::Variable(i) => &i.name,
        Variable::Member(_, _) => {
            return Outcome::FAILED;
        },
    };
    if database.contains(name) || find_local(locals, name).is_some() {
        return Outcome::FAILED;
    }
    let value = match evaluate(database, locals, actor, &la.expr) {
        Ok(value) => value,
        Err(e) => {
            return e;
        },
    };
    let ghost before = locals_view(locals@);
    locals.push(Local { name: name.clone(), value: value });
    assert(locals_view(locals@) =~= before.push(LocalView { name: name@, value: value@ }));
    Outcome::SUCCESS
}

/// A `foreach` that fails at one item fails as a whole.
proof fn lemma_eval_each_err(
    db: DatabaseView,
    locals: Seq<LocalView>,
    actor: Seq<char>,
    y: Seq<char>,
    items: Seq<ValueView>,
    body: ExprSyntax,
    m: int,
    n: int,
)
    requires
        eval_each(db, locals, actor, y, items, body, m) is Err,
        m <= n,
    ensures
        eval_each(db, locals, actor, y, items, body, n) == eval_each(
            db,
            locals,
            actor,
            y,
            items,
            body,
            m,
        ),
    decreases n - m,
{
    if m < n {
        lemma_eval_each_err(db, locals, actor, y, items, body, m, n - 1);
    }
}

/// A copy of the local variables.
pub fn clone_locals(locals: &Vec<Local>) -> (res: Vec<Local>)
    ensures
        locals_view(res@) == locals_view(locals@),
{
    let mut res: Vec<Local> = Vec::new();
    let mut i: usize = 0;
    while i < locals.len()
        invariant
            i <= locals.len(),
            res.len() == i,
            forall|j: int| 0 <= j < i ==> res@[j]@ == locals@[j]@,
        decreases locals.len() - i,
    {
        res.push(Local { name: locals[i].name.clone(), value: clone_value(&locals[i].value) });
        i += 1;
    }
    assert(locals_view(res@) =~= locals_view(locals@));
    res
}

/// Runs `foreach y in x replacewith e`.
pub fn for_each(database: &mut Database, locals: &mut Vec<Local>, actor: &String, fe: &ForEach) -> (res:
    Outcome)
    requires
        old(database).wf(),
        old(database)@.is_principal(actor@),
    ensures
        final(database).wf(),
        final(database)@.is_principal(actor@),
        (res, state_view(final(database)@, final(locals)@)) == replace_each(
            state_view(old(database)@, old(locals)@),
            actor@,
            fe@,
        ),
{
    proof {
        reveal_with_fuel(variable_syntax, 2);
    }
    let y = match &fe.value {
        Variable::Variable(i) => &i.name,
        Variable::Member(_, _) => {
            return Outcome::FAILED;
        },
    };
    let x = match &fe.list {
        Variable::Variable(i) => &i.name,
        Variable::Member(_, _) => {
            return Outcome::FAILED;
        },
    };
    if find_local(locals, y).is_some() || database.contains(y) {
        return Outcome::FAILED;
    }
    let items = match get_variable(database, locals, actor, x) {
        Ok(Value::List(items)) => items,
        Ok(_) => {
            return Outcome::FAILED;
        },
        Err(e) => {
            return e;
        },
    };
    proof {
        lemma_list_view(items);
    }
    let ghost db = database@;
    let ghost lv = locals_view(locals@);
    let ghost list = values_view(items@);
    let mut scratch = clone_locals(locals);
    let mut results: Vec<Value> = Vec::new();
    let mut j: usize = 0;
    assert(values_view(results@) =~= Seq::empty());
    while j < items.len()
        invariant
            database.wf(),
            database@.is_principal(actor@),
            db == database@,
            lv == locals_view(locals@),
            lv == locals_view(scratch@),
            list == values_view(items@),
            database@ == old(database)@,
            locals@ == old(locals)@,
            fe.value@ == VariableSyntax::Variable(y@),
            fe.list@ == VariableSyntax::Variable(x@),
            !has_local(lv, y@),
            !db.contains(y@),
            list_of(db, lv, actor@, x@) == Ok::<Seq<ValueView>, Outcome>(list),
            j <= items.len(),
            eval_each(db, lv, actor@, y@, list, fe.expr@, j as int) == Ok::<
                Seq<ValueView>,
                Outcome,
            >(values_view(results@)),
        decreases items.len() - j,
    {
        scratch.push(Local { name: y.clone(), value: clone_value(&items[j]) });
        assert(locals_view(scratch@) =~= lv.push(LocalView { name: y@, value: list[j as int] }));
        let evaluated = evaluate(database, &scratch, actor, &fe.expr);
        scratch.pop();
        assert(locals_view(scratch@) =~= lv);
        let value = match evaluated {
            Ok(value) => value,
            Err(e) => {
                proof {
                    lemma_eval_each_err(
                        db,
                        lv,
                        actor@,
                        y@,
                        list,
                        fe.expr@,
                        j + 1,
                        items.len() as int,
                    );
                }
                return e;
            },
        };
        let is_list = match &value {
            Value::List(_) => true,
            _ => false,
        };
        if is_list {
            proof {
                lemma_eval_each_err(db, lv, actor@, y@, list, fe.expr@, j + 1, items.len() as int);
            }
            return Outcome::FAILED;
        }
        let ghost before = values_view(results@);
        results.push(value);
        assert(values_view(results@) =~= before.push(value@));
        j += 1;
    }
    proof {
        lemma_list_view(results);
    }
    match find_local(locals, x) {
        Some(k) => {
            proof {
                lemma_first_index(local_names(locals_view(locals@)), x@);
            }
            store_local(locals, k, Value::List(results));
            Outcome::SUCCESS
        },
        None => {
            let replaced = Value::List(results);
            proof {
                lemma_set_frame(database@, actor@, x@, replaced@);
            }
            database.set(actor, x, &replaced)
        },
    }
}

/// Runs one command.
pub fn run_command(
    database: &mut Database,
    locals: &mut Vec<Local>,
    actor: &String,
    command: &PrimitiveCommand,
) -> (res: Outcome)
    requires
        old(database).wf(),
        old(database)@.is_principal(actor@),
    ensures
        final(database).wf(),
        final(database)@.is_principal(actor@),
        (res, state_view(final(database)@, final(locals)@)) == step(
            state_view(old(database)@, old(locals)@),
            actor@,
            command@,
        ),
{
    proof {
        reveal(step);
    }
    match command {
        PrimitiveCommand::CreatePrincipal(cp) => create_principal(database, actor, cp),
        PrimitiveCommand::ChangePassword(cp) => change_password(database, actor, cp),
        PrimitiveCommand::Assignment(a) => assignment(database, locals, actor, a),
        PrimitiveCommand::Append(a) => append(database, locals, actor, a),
        PrimitiveCommand::LocalAssignment(a) => local_assignment(database, locals, actor, a),
        PrimitiveCommand::ForEach(fe) => for_each(database, locals, actor, fe),
        PrimitiveCommand::SetDelegation(d) => set_delegation(database, actor, d),
        PrimitiveCommand::DeleteDelegation(d) => delete_delegation(database, actor, d),
        PrimitiveCommand::DefaultDelegator(p) => default_delegator(database, actor, p),
    }
}

/// The status that a command reports where it succeeds.
pub fn success_of(command: &PrimitiveCommand) -> (res: Status)
    ensures
        res == success_status(command@),
{
    match command {
        PrimitiveCommand::CreatePrincipal(_) => Status::CREATE_PRINCIPAL,
        PrimitiveCommand::ChangePassword(_) => Status::CHANGE_PASSWORD,
        PrimitiveCommand::Assignment(_) => Status::SET,
        PrimitiveCommand::Append(_) => Status::APPEND,
        PrimitiveCommand::LocalAssignment(_) => Status::LOCAL,
        PrimitiveCommand::ForEach(_) => Status::FOREACH,
        PrimitiveCommand::SetDelegation(_) => Status::SET_DELEGATION,
        PrimitiveCommand::DeleteDelegation(_) => Status::DELETE_DELEGATION,
        PrimitiveCommand::DefaultDelegator(_) => Status::DEFAULT_DELEGATOR,
    }
}

/// Commands that fail at one point fail as a whole.
pub proof fn lemma_run_commands_err(
    st: StateView,
    actor: Seq<char>,
    cmds: Seq<PrimitiveSyntax>,
    m: int,
    n: int,
)
    requires
        run_commands(st, actor, cmds, m).0 != Outcome::SUCCESS,
        m <= n,
    ensures
        run_commands(st, actor, cmds, n) == run_commands(st, actor, cmds, m),
    decreases n - m,
{
    if m < n {
        lemma_run_commands_err(st, actor, cmds, m, n - 1);
    }
}

/// The content of what a run gives back to commit.
pub open spec fn commit_view(db: Option<Database>) -> Option<DatabaseView> {
    match db {
        Some(d) => Some(d@),
        None => None,
    }
}

/// The log of a program that was given up.
fn abort(status: Outcome) -> (res: Vec<Entry>)
    ensures
        log_view(res@) == abort_log(status),
{
    let mut log: Vec<Entry> = Vec::new();
    log.push(Entry::from(status, Status::FAILED));
    assert(log_view(log@) =~= abort_log(status));
    log
}

/// Runs a parsed program on `database`, which is the caller's private copy.
/// Gives the log and, where the program ended well, the store to commit.
pub fn execute(database: Database, program: &Program) -> (res: (Vec<Entry>, Option<Database>))
    requires
        database.wf(),
    ensures
        (log_view(res.0@), commit_view(res.1)) == outcome(database@, program@),
        res.1 matches Some(db) ==> db.wf(),
{
    let ghost initial = database@;
    let mut working = database;
    let actor = &program.principal.ident.name;
    let login = working.check_pass(actor, &program.password);
    match login {
        Outcome::SUCCESS => {},
        _ => {
            return (abort(login), None);
        },
    }
    let ghost start = fresh_state(initial);
    let ghost cmds = commands_syntax(program.commands@);
    let mut locals: Vec<Local> = Vec::new();
    let mut messages: Vec<Entry> = Vec::new();
    let mut i: usize = 0;
    proof {
        assert(locals_view(locals@) =~= Seq::empty());
        assert(log_view(messages@) =~= success_log(cmds, 0));
    }
    while i < program.commands.len()
        invariant
            working.wf(),
            working@.is_principal(actor@),
            initial == database@,
            initial.password_status(actor@, program.password@) == Outcome::SUCCESS,
            start == fresh_state(initial),
            actor == &program.principal.ident.name,
            cmds == commands_syntax(program.commands@),
            i <= program.commands.len(),
            run_commands(start, actor@, cmds, i as int) == (
                Outcome::SUCCESS,
                state_view(working@, locals@),
            ),
            log_view(messages@) == success_log(cmds, i as int),
        decreases program.commands.len() - i,
    {
        let command = &program.commands[i];
        assert(cmds[i as int] == command@);
        let status = run_command(&mut working, &mut locals, actor, command);
        match status {
            Outcome::SUCCESS => {},
            _ => {
                proof {
                    lemma_run_commands_err(
                        start,
                        actor@,
                        cmds,
                        i + 1,
                        program.commands.len() as int,
                    );
                }
                return (abort(status), None);
            },
        }
        let ghost before = log_view(messages@);
        let reported = success_of(command);
        messages.push(Entry { status: reported, output: None });
        assert(log_view(messages@) =~= success_log(cmds, i + 1)) by {
            assert(log_view(messages@) =~= before.push(plain_entry(reported)));
            assert(before.push(plain_entry(reported)) =~= success_log(cmds, i + 1));
        }
        i += 1;
    }
    match &program.terminator {
        TerminatorCommand::Exit => {
            if !is_admin(actor) {
                (abort(Outcome::DENIED), None)
            } else {
                let ghost before = log_view(messages@);
                messages.push(Entry { status: Status::EXITING, output: None });
                assert(log_view(messages@) =~= before.push(plain_entry(Status::EXITING)));
                (messages, Some(working))
            }
        },
        TerminatorCommand::Return(e) => match evaluate(&working, &locals, actor, e) {
            Ok(value) => {
                let ghost before = log_view(messages@);
                messages.push(Entry { status: Status::RETURNING, output: Some(value) });
                assert(log_view(messages@) =~= before.push(
                    EntryView { status: Status::RETURNING, output: Some(value@) },
                ));
                (messages, Some(working))
            },
            Err(e) => (abort(e), None),
        },
    }
}

/// Reads a program text and runs it on `database`, the caller's private
/// copy. A text that is no program gives one `FAILED` entry.
pub fn run_program(database: Database, program: String) -> (res: (Vec<Entry>, Option<Database>))
    requires
        database.wf(),
    ensures
        (log_view(res.0@), commit_view(res.1)) == outcome_of_text(database@, program@),
        res.1 matches Some(db) ==> db.wf(),
{
    match parse(program) {
        Ok(parsed) => execute(database, &parsed),
        Err(_) => (abort(Outcome::FAILED), None),
    }
}

/// Serves one submission: runs the program on a copy of `current` and
/// gives the log with the store that stands afterwards, which is the copy
/// where the program ended well and `current`, untouched, where it did not.
pub fn dispatch(current: Database, program: String) -> (res: (Vec<Entry>, Database))
    requires
        current.wf(),
    ensures
        res.1.wf(),
        log_view(res.0@) == outcome_of_text(current@, program@).0,
        res.1@ == next_store(current@, program@),
{
    let snapshot = current.clone();
    let (log, committed) = run_program(snapshot, program);
    match committed {
        Some(after) => (log, after),
        None => (log, current),
    }
}

} // verus!
