//! What a program means: how expressions are evaluated, what each command
//! does to the store and to the local variables, and what a whole program
//! leaves behind.

use crate::grammar::{program_of, readable};
use crate::policy::{DatabaseView, Right, Status as Outcome, TargetView};
use crate::status::{entry_for, plain_entry, EntryView, Status};
use crate::transitions::appended;
use crate::types::{
    AppendSyntax, AssignmentSyntax, ExprSyntax, ForEachSyntax, PrimitiveSyntax, ProgramSyntax,
    Right as RightSyntax, TargetSyntax, TerminatorSyntax, ValueSyntax, VariableSyntax,
};
use crate::util::admin_name;
use crate::value::{field_names, first_index, has_name, ValueView};
use vstd::prelude::*;

verus! {

/// A local variable in the model.
pub struct LocalView {
    pub name: Seq<char>,
    pub value: ValueView,
}

/// The state of a running program: its private copy of the store and its
/// local variables, in the order they were declared.
pub struct StateView {
    pub db: DatabaseView,
    pub locals: Seq<LocalView>,
}

/// The state in which a program starts: the store, and no local variable.
pub open spec fn fresh_state(db: DatabaseView) -> StateView {
    StateView { db: db, locals: Seq::empty() }
}

/// The names of the local variables.
pub open spec fn local_names(locals: Seq<LocalView>) -> Seq<Seq<char>> {
    Seq::new(locals.len(), |i: int| locals[i].name)
}

/// Whether a local variable `name` exists.
pub open spec fn has_local(locals: Seq<LocalView>, name: Seq<char>) -> bool {
    has_name(local_names(locals), name)
}

/// The position of the local variable `name`.
pub open spec fn local_index(locals: Seq<LocalView>, name: Seq<char>) -> int {
    first_index(local_names(locals), name)
}

/// The value of the local variable `name`.
pub open spec fn local_value(locals: Seq<LocalView>, name: Seq<char>) -> ValueView {
    locals[local_index(locals, name)].value
}

/// The locals with the value of `name` replaced.
pub open spec fn with_local(locals: Seq<LocalView>, name: Seq<char>, value: ValueView) -> Seq<
    LocalView,
> {
    locals.update(local_index(locals, name), LocalView { name: name, value: value })
}

/// The right that the store knows for a right written in a program.
pub open spec fn right_of(r: RightSyntax) -> Right {
    match r {
        RightSyntax::Read => Right::Read,
        RightSyntax::Write => Right::Write,
        RightSyntax::Append => Right::Append,
        RightSyntax::Delegate => Right::Delegate,
    }
}

/// The target that the store knows for a target written in a program.
pub open spec fn target_of(t: TargetSyntax) -> TargetView {
    match t {
        TargetSyntax::All => TargetView::All,
        TargetSyntax::Variable(v) => TargetView::Variable(v),
    }
}

/// Reading a name: a local variable first, else the global one, which asks
/// for the right to read.
pub open spec fn lookup(
    db: DatabaseView,
    locals: Seq<LocalView>,
    actor: Seq<char>,
    name: Seq<char>,
) -> Result<ValueView, Outcome> {
    if has_local(locals, name) {
        Ok(local_value(locals, name))
    } else {
        db.get(actor, name)
    }
}

/// The field `field` of a value that was read: the value must be a record
/// that has it.
pub open spec fn member_of(base: Result<ValueView, Outcome>, field: Seq<char>) -> Result<
    ValueView,
    Outcome,
> {
    match base {
        Ok(ValueView::FieldVals(fields)) => if has_name(field_names(fields), field) {
            Ok(ValueView::Immediate(fields[first_index(field_names(fields), field)].1))
        } else {
            Err(Outcome::FAILED)
        },
        Ok(_) => Err(Outcome::FAILED),
        Err(e) => Err(e),
    }
}

/// The value of a string literal, a variable or a field of a record.
pub open spec fn eval_value(
    db: DatabaseView,
    locals: Seq<LocalView>,
    actor: Seq<char>,
    v: ValueSyntax,
) -> Result<ValueView, Outcome> {
    match v {
        ValueSyntax::String(s) => Ok(ValueView::Immediate(s)),
        ValueSyntax::Variable(VariableSyntax::Variable(name)) => lookup(db, locals, actor, name),
        ValueSyntax::Variable(VariableSyntax::Member(name, rest)) => match *rest {
            VariableSyntax::Variable(field) => member_of(lookup(db, locals, actor, name), field),
            VariableSyntax::Member(_, _) => Err(Outcome::FAILED),
        },
    }
}

/// The string that one field of a record literal gives: the field is named
/// by a plain identifier and its value evaluates to a string.
pub open spec fn eval_field(
    db: DatabaseView,
    locals: Seq<LocalView>,
    actor: Seq<char>,
    field: AssignmentSyntax,
) -> Result<Seq<char>, Outcome> {
    match field.expr {
        ExprSyntax::Value(v) => match eval_value(db, locals, actor, v) {
            Ok(ValueView::Immediate(s)) => Ok(s),
            Ok(_) => Err(Outcome::FAILED),
            Err(e) => Err(e),
        },
        _ => Err(Outcome::FAILED),
    }
}

/// The record that the first `n` fields of a record literal give. A name
/// written twice fails; the first field that fails decides.
pub open spec fn eval_fields(
    db: DatabaseView,
    locals: Seq<LocalView>,
    actor: Seq<char>,
    fields: Seq<AssignmentSyntax>,
    n: int,
) -> Result<Seq<(Seq<char>, Seq<char>)>, Outcome>
    decreases n,
{
    if n <= 0 {
        Ok(Seq::empty())
    } else {
        match eval_fields(db, locals, actor, fields, n - 1) {
            Err(e) => Err(e),
            Ok(record) => match fields[n - 1].variable {
                VariableSyntax::Member(_, _) => Err(Outcome::FAILED),
                VariableSyntax::Variable(name) => if has_name(field_names(record), name) {
                    Err(Outcome::FAILED)
                } else {
                    match eval_field(db, locals, actor, fields[n - 1]) {
                        Err(e) => Err(e),
                        Ok(s) => Ok(record.push((name, s))),
                    }
                },
            },
        }
    }
}

/// The value of an expression.
pub open spec fn eval_expr(
    db: DatabaseView,
    locals: Seq<LocalView>,
    actor: Seq<char>,
    e: ExprSyntax,
) -> Result<ValueView, Outcome> {
    match e {
        ExprSyntax::Value(v) => eval_value(db, locals, actor, v),
        ExprSyntax::EmptyList => Ok(ValueView::List(Seq::empty())),
        ExprSyntax::FieldVals(fields) => match eval_fields(
            db,
            locals,
            actor,
            fields,
            fields.len() as int,
        ) {
            Ok(record) => Ok(ValueView::FieldVals(record)),
            Err(e) => Err(e),
        },
    }
}

/// A command that does not succeed: it reports `outcome` and leaves the
/// state as it was.
pub open spec fn stop(outcome: Outcome, st: StateView) -> (Outcome, StateView) {
    (outcome, st)
}

/// `set x = e` and `set x.y = e`.
pub open spec fn assign(st: StateView, actor: Seq<char>, a: AssignmentSyntax) -> (
    Outcome,
    StateView,
) {
    match eval_expr(st.db, st.locals, actor, a.expr) {
        Err(e) => stop(e, st),
        Ok(value) => match a.variable {
            VariableSyntax::Variable(name) => if has_local(st.locals, name) {
                (Outcome::SUCCESS, StateView { locals: with_local(st.locals, name, value), ..st })
            } else {
                (
                    st.db.set_status(actor, name),
                    StateView { db: st.db.set(actor, name, value), ..st },
                )
            },
            VariableSyntax::Member(name, rest) => match (*rest, value) {
                (VariableSyntax::Variable(field), ValueView::Immediate(s)) => if has_local(
                    st.locals,
                    name,
                ) {
                    match local_value(st.locals, name) {
                        ValueView::FieldVals(fields) => if has_name(field_names(fields), field) {
                            (
                                Outcome::SUCCESS,
                                StateView {
                                    locals: with_local(
                                        st.locals,
                                        name,
                                        ValueView::FieldVals(
                                            fields.update(
                                                first_index(field_names(fields), field),
                                                (field, s),
                                            ),
                                        ),
                                    ),
                                    ..st
                                },
                            )
                        } else {
                            stop(Outcome::FAILED, st)
                        },
                        _ => stop(Outcome::FAILED, st),
                    }
                } else {
                    (
                        st.db.set_member_status(actor, name, field),
                        StateView { db: st.db.set_member(actor, name, field, s), ..st },
                    )
                },
                _ => stop(Outcome::FAILED, st),
            },
        },
    }
}

/// `append to x with e`. A value that is a list is taken only where `e` is
/// written as the empty list.
pub open spec fn append_to(st: StateView, actor: Seq<char>, a: AppendSyntax) -> (
    Outcome,
    StateView,
) {
    match a.variable {
        VariableSyntax::Member(_, _) => stop(Outcome::FAILED, st),
        VariableSyntax::Variable(name) => match eval_expr(st.db, st.locals, actor, a.expr) {
            Err(e) => stop(e, st),
            Ok(value) => if value.is_list() && !(a.expr is EmptyList) {
                stop(Outcome::FAILED, st)
            } else if has_local(st.locals, name) {
                match local_value(st.locals, name) {
                    ValueView::List(items) => (
                        Outcome::SUCCESS,
                        StateView {
                            locals: with_local(
                                st.locals,
                                name,
                                ValueView::List(appended(items, value)),
                            ),
                            ..st
                        },
                    ),
                    _ => stop(Outcome::FAILED, st),
                }
            } else {
                (
                    st.db.append_status(actor, name),
                    StateView { db: st.db.append(actor, name, value), ..st },
                )
            },
        },
    }
}

/// `local x = e`.
pub open spec fn declare_local(st: StateView, actor: Seq<char>, a: AssignmentSyntax) -> (
    Outcome,
    StateView,
) {
    match a.variable {
        VariableSyntax::Member(_, _) => stop(Outcome::FAILED, st),
        VariableSyntax::Variable(name) => if st.db.contains(name) || has_local(st.locals, name) {
            stop(Outcome::FAILED, st)
        } else {
            match eval_expr(st.db, st.locals, actor, a.expr) {
                Err(e) => stop(e, st),
                Ok(value) => (
                    Outcome::SUCCESS,
                    StateView {
                        locals: st.locals.push(LocalView { name: name, value: value }),
                        ..st
                    },
                ),
            }
        },
    }
}

/// What the body of a `foreach` gives for the first `n` items, with `y`
/// bound to each item in turn. A body that gives a list fails; the first
/// item that fails decides.
pub open spec fn eval_each(
    db: DatabaseView,
    locals: Seq<LocalView>,
    actor: Seq<char>,
    y: Seq<char>,
    items: Seq<ValueView>,
    body: ExprSyntax,
    n: int,
) -> Result<Seq<ValueView>, Outcome>
    decreases n,
{
    if n <= 0 {
        Ok(Seq::empty())
    } else {
        match eval_each(db, locals, actor, y, items, body, n - 1) {
            Err(e) => Err(e),
            Ok(results) => match eval_expr(
                db,
                locals.push(LocalView { name: y, value: items[n - 1] }),
                actor,
                body,
            ) {
                Err(e) => Err(e),
                Ok(value) => if value.is_list() {
                    Err(Outcome::FAILED)
                } else {
                    Ok(results.push(value))
                },
            },
        }
    }
}

/// The list that a `foreach` walks: a local variable first, else the global
/// one, which asks for the right to read.
pub open spec fn list_of(
    db: DatabaseView,
    locals: Seq<LocalView>,
    actor: Seq<char>,
    name: Seq<char>,
) -> Result<Seq<ValueView>, Outcome> {
    match lookup(db, locals, actor, name) {
        Ok(ValueView::List(items)) => Ok(items),
        Ok(_) => Err(Outcome::FAILED),
        Err(e) => Err(e),
    }
}

/// `foreach y in x replacewith e`.
pub open spec fn replace_each(st: StateView, actor: Seq<char>, f: ForEachSyntax) -> (
    Outcome,
    StateView,
) {
    match (f.value, f.list) {
        (VariableSyntax::Variable(y), VariableSyntax::Variable(x)) => if has_local(st.locals, y)
            || st.db.contains(y) {
            stop(Outcome::FAILED, st)
        } else {
            match list_of(st.db, st.locals, actor, x) {
                Err(e) => stop(e, st),
                Ok(items) => match eval_each(
                    st.db,
                    st.locals,
                    actor,
                    y,
                    items,
                    f.expr,
                    items.len() as int,
                ) {
                    Err(e) => stop(e, st),
                    Ok(results) => if has_local(st.locals, x) {
                        (
                            Outcome::SUCCESS,
                            StateView {
                                locals: with_local(st.locals, x, ValueView::List(results)),
                                ..st
                            },
                        )
                    } else {
                        (
                            st.db.set_status(actor, x),
                            StateView { db: st.db.set(actor, x, ValueView::List(results)), ..st },
                        )
                    },
                },
            }
        },
        _ => stop(Outcome::FAILED, st),
    }
}

/// What one command reports and the state it leaves.
#[verifier::opaque]
pub open spec fn step(st: StateView, actor: Seq<char>, cmd: PrimitiveSyntax) -> (
    Outcome,
    StateView,
) {
    match cmd {
        PrimitiveSyntax::CreatePrincipal(c) => (
            st.db.create_principal_status(actor, c.principal),
            StateView { db: st.db.create_principal(actor, c.principal, c.password), ..st },
        ),
        PrimitiveSyntax::ChangePassword(c) => (
            st.db.change_password_status(actor, c.principal),
            StateView { db: st.db.change_password(actor, c.principal, c.password), ..st },
        ),
        PrimitiveSyntax::Assignment(a) => assign(st, actor, a),
        PrimitiveSyntax::Append(a) => append_to(st, actor, a),
        PrimitiveSyntax::LocalAssignment(a) => declare_local(st, actor, a),
        PrimitiveSyntax::ForEach(f) => replace_each(st, actor, f),
        PrimitiveSyntax::SetDelegation(d) => (
            st.db.delegate_status(actor, target_of(d.target), d.delegator, d.delegated),
            StateView {
                db: st.db.delegate(
                    actor,
                    target_of(d.target),
                    d.delegator,
                    right_of(d.right),
                    d.delegated,
                ),
                ..st
            },
        ),
        PrimitiveSyntax::DeleteDelegation(d) => (
            st.db.undelegate_status(actor, target_of(d.target), d.delegator, d.delegated),
            StateView {
                db: st.db.undelegate(
                    actor,
                    target_of(d.target),
                    d.delegator,
                    right_of(d.right),
                    d.delegated,
                ),
                ..st
            },
        ),
        PrimitiveSyntax::DefaultDelegator(p) => (
            st.db.default_delegator_status(actor, p),
            StateView { db: st.db.set_default_delegator(actor, p), ..st },
        ),
    }
}

/// The status that a command reports where it succeeds.
pub open spec fn success_status(cmd: PrimitiveSyntax) -> Status {
    match cmd {
        PrimitiveSyntax::CreatePrincipal(_) => Status::CREATE_PRINCIPAL,
        PrimitiveSyntax::ChangePassword(_) => Status::CHANGE_PASSWORD,
        PrimitiveSyntax::Assignment(_) => Status::SET,
        PrimitiveSyntax::Append(_) => Status::APPEND,
        PrimitiveSyntax::LocalAssignment(_) => Status::LOCAL,
        PrimitiveSyntax::ForEach(_) => Status::FOREACH,
        PrimitiveSyntax::SetDelegation(_) => Status::SET_DELEGATION,
        PrimitiveSyntax::DeleteDelegation(_) => Status::DELETE_DELEGATION,
        PrimitiveSyntax::DefaultDelegator(_) => Status::DEFAULT_DELEGATOR,
    }
}

/// The first `n` commands, run in order from `st`: the outcome of the first
/// that did not succeed, or `SUCCESS` and the state they leave.
pub open spec fn run_commands(
    st: StateView,
    actor: Seq<char>,
    cmds: Seq<PrimitiveSyntax>,
    n: int,
) -> (Outcome, StateView)
    decreases n,
{
    if n <= 0 {
        (Outcome::SUCCESS, st)
    } else {
        let (outcome, mid) = run_commands(st, actor, cmds, n - 1);
        if outcome == Outcome::SUCCESS {
            step(mid, actor, cmds[n - 1])
        } else {
            (outcome, mid)
        }
    }
}

/// The log of `n` commands that all succeeded.
pub open spec fn success_log(cmds: Seq<PrimitiveSyntax>, n: int) -> Seq<EntryView> {
    Seq::new(n as nat, |i: int| plain_entry(success_status(cmds[i])))
}

/// The log of a program that was given up: one entry.
pub open spec fn abort_log(outcome: Outcome) -> Seq<EntryView> {
    seq![entry_for(outcome, Status::FAILED)]
}

/// What a program leaves when run on `db`: the log, and the store to commit,
/// if any. The login comes first; then the commands in order; then the
/// terminator. Whatever fails leaves one entry and nothing to commit.
pub open spec fn outcome(db: DatabaseView, program: ProgramSyntax) -> (
    Seq<EntryView>,
    Option<DatabaseView>,
) {
    let actor = program.principal;
    let login = db.password_status(actor, program.password);
    if login != Outcome::SUCCESS {
        (abort_log(login), None)
    } else {
        let start = fresh_state(db);
        let n = program.commands.len() as int;
        let (status, st) = run_commands(start, actor, program.commands, n);
        if status != Outcome::SUCCESS {
            (abort_log(status), None)
        } else {
            match program.terminator {
                TerminatorSyntax::Exit => if actor != admin_name() {
                    (abort_log(Outcome::DENIED), None)
                } else {
                    (
                        success_log(program.commands, n).push(plain_entry(Status::EXITING)),
                        Some(st.db),
                    )
                },
                TerminatorSyntax::Return(e) => match eval_expr(st.db, st.locals, actor, e) {
                    Err(e) => (abort_log(e), None),
                    Ok(value) => (
                        success_log(program.commands, n).push(
                            EntryView { status: Status::RETURNING, output: Some(value) },
                        ),
                        Some(st.db),
                    ),
                },
            }
        }
    }
}

/// What a program text leaves when run on `db`. A text that is not read, or
/// that is no program, leaves one `FAILED` entry and nothing to commit,
/// whatever principal and password it names.
pub open spec fn outcome_of_text(db: DatabaseView, text: Seq<char>) -> (
    Seq<EntryView>,
    Option<DatabaseView>,
) {
    if readable(text) {
        match program_of(text) {
            Some(program) => outcome(db, program),
            None => (abort_log(Outcome::FAILED), None),
        }
    } else {
        (abort_log(Outcome::FAILED), None)
    }
}

/// The store that stands after a submission: what the program left to
/// commit, else the store as it was.
pub open spec fn next_store(db: DatabaseView, text: Seq<char>) -> DatabaseView {
    match outcome_of_text(db, text).1 {
        Some(after) => after,
        None => db,
    }
}

} // verus!
