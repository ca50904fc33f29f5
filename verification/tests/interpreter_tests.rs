use bibifi::database::Database;
use bibifi::runtime::{dispatch, execute};
use bibifi::status::{Entry, Status};
use bibifi::types::{
    Assignment, Expr, Identifier, PrimitiveCommand, Principal, Program, TerminatorCommand,
    Value as Term, Variable,
};
use bibifi::util::hash;
use bibifi::value::Value;

fn fresh() -> Database {
    Database::new(hash("admin".to_string()))
}

fn plain(status: Status) -> Entry {
    Entry { status, output: None }
}

fn text(s: &str) -> Value {
    Value::Immediate(s.to_string())
}

fn record(fields: &[(&str, &str)]) -> Value {
    Value::FieldVals(fields.iter().map(|(k, v)| (k.to_string(), v.to_string())).collect())
}

fn returning(value: Value) -> Entry {
    Entry { status: Status::RETURNING, output: Some(value) }
}

fn run(db: Database, body: &str) -> (Vec<Entry>, Database) {
    dispatch(db, format!("as principal admin password \"admin\" do\n{}\n***", body))
}

fn run_as(db: Database, who: &str, password: &str, body: &str) -> (Vec<Entry>, Database) {
    dispatch(db, format!("as principal {} password \"{}\" do\n{}\n***", who, password, body))
}

fn name(s: &str) -> Identifier {
    Identifier { name: s.to_string() }
}

#[test]
fn return_of_each_kind_of_expression() {
    let (log, _) = run(fresh(), "return \"s\"");
    assert_eq!(log, vec![returning(text("s"))]);
    let (log, _) = run(fresh(), "return []");
    assert_eq!(log, vec![returning(Value::List(vec![]))]);
    let (log, _) = run(fresh(), "return {}");
    assert_eq!(log, vec![returning(record(&[]))]);
    let (log, _) = run(fresh(), "set a = \"1\"\nreturn { x = a, y = \"2\" }");
    assert_eq!(log, vec![plain(Status::SET), returning(record(&[("x", "1"), ("y", "2")]))]);
}

#[test]
fn record_literal_rules() {
    let (log, _) = run(fresh(), "return { x = \"1\", x = \"2\" }");
    assert_eq!(log, vec![plain(Status::FAILED)]);
    let (log, _) = run(fresh(), "set l = []\nreturn { x = l }");
    assert_eq!(log, vec![plain(Status::FAILED)]);
    let (log, _) = run(fresh(), "set r = { a = \"1\" }\nreturn { x = r }");
    assert_eq!(log, vec![plain(Status::FAILED)]);
    let (log, _) = run(fresh(), "set r = { a = \"1\" }\nreturn { x = r.a }");
    assert_eq!(log, vec![plain(Status::SET), returning(record(&[("x", "1")]))]);
    let (log, _) = run(fresh(), "return { x = missing }");
    assert_eq!(log, vec![plain(Status::FAILED)]);
}

#[test]
fn fields_are_read_from_records_only() {
    let (log, _) = run(fresh(), "set r = { a = \"1\" }\nreturn r.b");
    assert_eq!(log, vec![plain(Status::FAILED)]);
    let (log, _) = run(fresh(), "set s = \"1\"\nreturn s.a");
    assert_eq!(log, vec![plain(Status::FAILED)]);
    let (log, _) = run(fresh(), "return missing.a");
    assert_eq!(log, vec![plain(Status::FAILED)]);
    let (log, _) = run(fresh(), "local r = { a = \"1\" }\nreturn r.a");
    assert_eq!(log, vec![plain(Status::LOCAL), returning(text("1"))]);
}

#[test]
fn set_is_a_deep_copy() {
    let (log, _) = run(fresh(), "set x = \"hello\"\nset y = x\nset x = \"there\"\nreturn y");
    assert_eq!(
        log,
        vec![plain(Status::SET), plain(Status::SET), plain(Status::SET), returning(text("hello"))]
    );
}

#[test]
fn set_writes_a_local_before_a_global() {
    let (log, db) = run(fresh(), "local x = \"a\"\nset x = []\nappend to x with \"b\"\nreturn x");
    assert_eq!(
        log,
        vec![
            plain(Status::LOCAL),
            plain(Status::SET),
            plain(Status::APPEND),
            returning(Value::List(vec![text("b")])),
        ]
    );
    assert!(!db.contains(&"x".to_string()));
}

#[test]
fn set_member_on_globals_and_locals() {
    let (log, _) = run(fresh(), "set r = { a = \"1\", b = \"2\" }\nset r.b = \"3\"\nreturn r");
    assert_eq!(
        log,
        vec![plain(Status::SET), plain(Status::SET), returning(record(&[("a", "1"), ("b", "3")]))]
    );
    let (log, _) = run(fresh(), "local r = { a = \"1\", b = \"2\" }\nset r.a = \"3\"\nreturn r");
    assert_eq!(
        log,
        vec![plain(Status::LOCAL), plain(Status::SET), returning(record(&[("a", "3"), ("b", "2")]))]
    );
    let (log, _) = run(fresh(), "set r = { a = \"1\" }\nset r.c = \"3\"\nreturn r");
    assert_eq!(log, vec![plain(Status::FAILED)]);
    let (log, _) = run(fresh(), "local r = { a = \"1\" }\nset r.c = \"3\"\nreturn r");
    assert_eq!(log, vec![plain(Status::FAILED)]);
    let (log, _) = run(fresh(), "set s = \"1\"\nset s.a = \"3\"\nreturn s");
    assert_eq!(log, vec![plain(Status::FAILED)]);
    let (log, _) = run(fresh(), "local s = \"1\"\nset s.a = \"3\"\nreturn s");
    assert_eq!(log, vec![plain(Status::FAILED)]);
    let (log, _) = run(fresh(), "set r = { a = \"1\" }\nset r.a = []\nreturn r");
    assert_eq!(log, vec![plain(Status::FAILED)]);
    let (log, _) = run(fresh(), "set r = { a = \"1\" }\nset r.a = { b = \"2\" }\nreturn r");
    assert_eq!(log, vec![plain(Status::FAILED)]);
    let (log, _) = run(fresh(), "set missing.a = \"3\"\nreturn \"x\"");
    assert_eq!(log, vec![plain(Status::FAILED)]);
}

#[test]
fn set_member_needs_the_right_to_write() {
    let (_, db) = run(fresh(), "create principal bob \"pw\"\nset r = { a = \"1\" }\nset delegation r admin read -> bob\nreturn \"x\"");
    let (log, _) = run_as(db, "bob", "pw", "set r.a = \"2\"\nreturn r");
    assert_eq!(log, vec![plain(Status::DENIED)]);
}

#[test]
fn append_rules() {
    let (log, _) = run(fresh(), "set l = []\nappend to l with \"a\"\nappend to l with { k = \"v\" }\nreturn l");
    assert_eq!(
        log,
        vec![
            plain(Status::SET),
            plain(Status::APPEND),
            plain(Status::APPEND),
            returning(Value::List(vec![text("a"), record(&[("k", "v")])])),
        ]
    );
    let (log, _) = run(fresh(), "set l = []\nappend to l with \"a\"\nappend to l with []\nreturn l");
    assert_eq!(
        log,
        vec![
            plain(Status::SET),
            plain(Status::APPEND),
            plain(Status::APPEND),
            returning(Value::List(vec![text("a")])),
        ]
    );
    let (log, _) = run(fresh(), "set l = []\nset m = []\nappend to l with m\nreturn l");
    assert_eq!(log, vec![plain(Status::FAILED)]);
    let (log, _) = run(fresh(), "set s = \"x\"\nappend to s with \"a\"\nreturn s");
    assert_eq!(log, vec![plain(Status::FAILED)]);
    let (log, _) = run(fresh(), "append to missing with \"a\"\nreturn \"x\"");
    assert_eq!(log, vec![plain(Status::FAILED)]);
    let (log, _) = run(fresh(), "local s = \"x\"\nappend to s with \"a\"\nreturn s");
    assert_eq!(log, vec![plain(Status::FAILED)]);
    let (log, _) = run(fresh(), "local l = []\nappend to l with \"a\"\nappend to l with \"b\"\nreturn l");
    assert_eq!(
        log,
        vec![
            plain(Status::LOCAL),
            plain(Status::APPEND),
            plain(Status::APPEND),
            returning(Value::List(vec![text("a"), text("b")])),
        ]
    );
    let (log, _) = run(fresh(), "set l = []\nappend to l with missing\nreturn l");
    assert_eq!(log, vec![plain(Status::FAILED)]);
}

#[test]
fn append_needs_write_or_append() {
    let (_, db) = run(fresh(), "create principal bob \"pw\"\nset l = []\nset delegation l admin read -> bob\nreturn \"x\"");
    let (log, _) = run_as(db.clone(), "bob", "pw", "append to l with \"a\"\nreturn \"x\"");
    assert_eq!(log, vec![plain(Status::DENIED)]);
    let (_, db) = run(db, "set delegation l admin write -> bob\nreturn \"x\"");
    let (log, _) = run_as(db, "bob", "pw", "append to l with \"a\"\nreturn l");
    assert_eq!(log, vec![plain(Status::APPEND), returning(Value::List(vec![text("a")]))]);
}

#[test]
fn local_rules() {
    let (log, _) = run(fresh(), "set g = \"1\"\nlocal g = \"2\"\nreturn g");
    assert_eq!(log, vec![plain(Status::FAILED)]);
    let (log, _) = run(fresh(), "local l = \"1\"\nlocal l = \"2\"\nreturn l");
    assert_eq!(log, vec![plain(Status::FAILED)]);
    let (log, _) = run(fresh(), "local l = missing\nreturn l");
    assert_eq!(log, vec![plain(Status::FAILED)]);
    let (log, _) = run(fresh(), "local l = \"1\"\nlocal m = l\nreturn m");
    assert_eq!(log, vec![plain(Status::LOCAL), plain(Status::LOCAL), returning(text("1"))]);
}

#[test]
fn local_reads_a_global_with_the_right_to_read() {
    let (_, db) = run(fresh(), "create principal bob \"pw\"\nset g = \"1\"\nreturn \"x\"");
    let (log, _) = run_as(db, "bob", "pw", "local l = g\nreturn l");
    assert_eq!(log, vec![plain(Status::DENIED)]);
}

#[test]
fn foreach_rules() {
    let (log, _) = run(fresh(), "set l = []\nappend to l with \"a\"\nappend to l with \"b\"\nforeach i in l replacewith { v = i }\nreturn l");
    assert_eq!(
        log,
        vec![
            plain(Status::SET),
            plain(Status::APPEND),
            plain(Status::APPEND),
            plain(Status::FOREACH),
            returning(Value::List(vec![record(&[("v", "a")]), record(&[("v", "b")])])),
        ]
    );
    let (log, _) = run(fresh(), "set l = []\nset i = \"taken\"\nforeach i in l replacewith \"x\"\nreturn l");
    assert_eq!(log, vec![plain(Status::FAILED)]);
    let (log, _) = run(fresh(), "set l = []\nlocal i = \"taken\"\nforeach i in l replacewith \"x\"\nreturn l");
    assert_eq!(log, vec![plain(Status::FAILED)]);
    let (log, _) = run(fresh(), "foreach i in missing replacewith \"x\"\nreturn \"x\"");
    assert_eq!(log, vec![plain(Status::FAILED)]);
    let (log, _) = run(fresh(), "set s = \"x\"\nforeach i in s replacewith \"x\"\nreturn s");
    assert_eq!(log, vec![plain(Status::FAILED)]);
    let (log, _) = run(fresh(), "set l = []\nappend to l with \"a\"\nforeach i in l replacewith []\nreturn l");
    assert_eq!(log, vec![plain(Status::FAILED)]);
    let (log, _) = run(fresh(), "set l = []\nappend to l with \"a\"\nforeach i in l replacewith i.f\nreturn l");
    assert_eq!(log, vec![plain(Status::FAILED)]);
    let (log, _) = run(fresh(), "set l = []\nforeach i in l replacewith i.f\nreturn l");
    assert_eq!(log, vec![plain(Status::SET), plain(Status::FOREACH), returning(Value::List(vec![]))]);
    let (log, _) = run(fresh(), "set l = []\nappend to l with \"a\"\nforeach i in l replacewith \"x\"\nreturn i");
    assert_eq!(log, vec![plain(Status::FAILED)]);
}

#[test]
fn foreach_on_a_global_needs_read_and_write() {
    let (_, db) = run(fresh(), "create principal bob \"pw\"\nset l = []\nappend to l with \"a\"\nreturn \"x\"");
    let (log, _) = run_as(db.clone(), "bob", "pw", "foreach i in l replacewith \"x\"\nreturn \"x\"");
    assert_eq!(log, vec![plain(Status::DENIED)]);
    let (_, db) = run(db, "set delegation l admin read -> bob\nreturn \"x\"");
    let (log, _) = run_as(db.clone(), "bob", "pw", "foreach i in l replacewith \"x\"\nreturn \"x\"");
    assert_eq!(log, vec![plain(Status::DENIED)]);
    let (_, db) = run(db, "set delegation l admin write -> bob\nreturn \"x\"");
    let (log, _) = run_as(db, "bob", "pw", "foreach i in l replacewith \"x\"\nreturn l");
    assert_eq!(log, vec![plain(Status::FOREACH), returning(Value::List(vec![text("x")]))]);
}

#[test]
fn delegation_commands_report_what_the_store_reports() {
    let (log, _) = run(fresh(), "set delegation missing admin read -> anyone\nreturn \"x\"");
    assert_eq!(log, vec![plain(Status::FAILED)]);
    let (log, _) = run(fresh(), "set v = \"1\"\nset delegation v admin read -> nobody\nreturn \"x\"");
    assert_eq!(log, vec![plain(Status::FAILED)]);
    let (log, _) = run(fresh(), "local v = \"1\"\nset delegation v admin read -> anyone\nreturn \"x\"");
    assert_eq!(log, vec![plain(Status::FAILED)]);
    let (log, _) = run(fresh(), "delete delegation all admin read -> nobody\nreturn \"x\"");
    assert_eq!(log, vec![plain(Status::FAILED)]);
    let (log, _) = run(fresh(), "default delegator = nobody\nreturn \"x\"");
    assert_eq!(log, vec![plain(Status::FAILED)]);
    let (_, db) = run(fresh(), "create principal bob \"pw\"\ncreate principal eve \"pw\"\nset v = \"1\"\nreturn \"x\"");
    let (log, _) = run_as(db.clone(), "bob", "pw", "set delegation v admin read -> bob\nreturn \"x\"");
    assert_eq!(log, vec![plain(Status::DENIED)]);
    let (log, _) = run_as(db.clone(), "bob", "pw", "set delegation v bob read -> eve\nreturn \"x\"");
    assert_eq!(log, vec![plain(Status::DENIED)]);
    let (log, _) = run_as(db.clone(), "bob", "pw", "delete delegation v admin read -> eve\nreturn \"x\"");
    assert_eq!(log, vec![plain(Status::DENIED)]);
    let (log, _) = run_as(db.clone(), "bob", "pw", "default delegator = bob\nreturn \"x\"");
    assert_eq!(log, vec![plain(Status::DENIED)]);
    let (log, _) = run_as(db.clone(), "bob", "pw", "create principal zed \"pw\"\nreturn \"x\"");
    assert_eq!(log, vec![plain(Status::DENIED)]);
    let (log, _) = run_as(db, "bob", "pw", "change password eve \"pw\"\nreturn \"x\"");
    assert_eq!(log, vec![plain(Status::DENIED)]);
}

#[test]
fn a_hand_built_program_runs_and_nested_fields_fail() {
    let nested = Variable::Member(
        name("a"),
        Box::new(Variable::Member(name("b"), Box::new(Variable::Variable(name("c"))))),
    );
    let program = Program {
        principal: Principal { ident: name("admin") },
        password: hash("admin".to_string()),
        commands: vec![PrimitiveCommand::Assignment(Assignment {
            variable: Variable::Variable(name("a")),
            expr: Expr::FieldVals(vec![Assignment {
                variable: Variable::Variable(name("b")),
                expr: Expr::Value(Term::String("v".to_string())),
            }]),
        })],
        terminator: TerminatorCommand::Return(Expr::Value(Term::Variable(nested))),
    };
    let (log, committed) = execute(fresh(), &program);
    assert_eq!(log, vec![plain(Status::FAILED)]);
    assert!(committed.is_none());
    let program = Program {
        principal: Principal { ident: name("admin") },
        password: hash("admin".to_string()),
        commands: vec![PrimitiveCommand::LocalAssignment(Assignment {
            variable: Variable::Member(name("a"), Box::new(Variable::Variable(name("b")))),
            expr: Expr::EmptyList,
        })],
        terminator: TerminatorCommand::Exit,
    };
    let (log, committed) = execute(fresh(), &program);
    assert_eq!(log, vec![plain(Status::FAILED)]);
    assert!(committed.is_none());
    let program = Program {
        principal: Principal { ident: name("admin") },
        password: hash("admin".to_string()),
        commands: vec![],
        terminator: TerminatorCommand::Exit,
    };
    let (log, committed) = execute(fresh(), &program);
    assert_eq!(log, vec![plain(Status::EXITING)]);
    assert_eq!(committed, Some(fresh()));
}
