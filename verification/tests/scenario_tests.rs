use bibifi::database::Database;
use bibifi::runtime::{dispatch, run_program};
use bibifi::status::{Entry, Status};
use bibifi::util::hash;
use bibifi::value::Value;

fn fresh() -> Database {
    Database::new(hash("admin".to_string()))
}

fn plain(status: Status) -> Entry {
    Entry { status, output: None }
}

fn text(s: &str) -> Value {
    Value::Immediate(s.to_string())
}

fn record(fields: &[(&str, &str)]) -> Value {
    Value::FieldVals(fields.iter().map(|(k, v)| (k.to_string(), v.to_string())).collect())
}

const SETUP: &str = "as principal admin password \"admin\" do\ncreate principal bob \"B0BPWxxd\"\nset x = \"my string\"\nset y = { f1 = x, f2 = \"field2\" }\nset delegation x admin read -> bob\nreturn y.f1\n***";

#[test]
fn admin_exit() {
    let db = fresh();
    let (log, next) = dispatch(db.clone(), "as principal admin password \"admin\" do\nexit\n***".to_string());
    assert_eq!(log, vec![plain(Status::EXITING)]);
    assert_eq!(next, db);
}

#[test]
fn set_read_delegate() {
    let (log, _) = dispatch(fresh(), SETUP.to_string());
    assert_eq!(
        log,
        vec![
            plain(Status::CREATE_PRINCIPAL),
            plain(Status::SET),
            plain(Status::SET),
            plain(Status::SET_DELEGATION),
            Entry { status: Status::RETURNING, output: Some(text("my string")) },
        ]
    );
}

#[test]
fn bob_reads_after_grant() {
    let (_, db) = dispatch(fresh(), SETUP.to_string());
    let (log, _) =
        dispatch(db, "as principal bob password \"B0BPWxxd\" do\nreturn x\n***".to_string());
    assert_eq!(log, vec![Entry { status: Status::RETURNING, output: Some(text("my string")) }]);
}

#[test]
fn bob_write_is_rolled_back() {
    let (_, db) = dispatch(fresh(), SETUP.to_string());
    let program = "as principal bob password \"B0BPWxxd\" do\nset z = \"bobs string\"\nset x = \"another string\"\nreturn x\n***";
    let (log, next) = dispatch(db.clone(), program.to_string());
    assert_eq!(log, vec![plain(Status::DENIED)]);
    assert_eq!(next, db);
    assert!(!next.contains(&"z".to_string()));
}

#[test]
fn foreach_replaces_records_with_a_field() {
    let program = "as principal admin password \"admin\" do\nset records = []\nappend to records with { name = \"mike\", date = \"1-1-90\" }\nappend to records with { name = \"dave\", date = \"1-1-85\" }\nlocal names = records\nforeach rec in names replacewith rec.name\nreturn names\n***";
    let (log, db) = dispatch(fresh(), program.to_string());
    assert_eq!(
        log,
        vec![
            plain(Status::SET),
            plain(Status::APPEND),
            plain(Status::APPEND),
            plain(Status::LOCAL),
            plain(Status::FOREACH),
            Entry {
                status: Status::RETURNING,
                output: Some(Value::List(vec![text("mike"), text("dave")])),
            },
        ]
    );
    let (log, _) =
        dispatch(db, "as principal admin password \"admin\" do\nreturn records\n***".to_string());
    assert_eq!(
        log,
        vec![Entry {
            status: Status::RETURNING,
            output: Some(Value::List(vec![
                record(&[("name", "mike"), ("date", "1-1-90")]),
                record(&[("name", "dave"), ("date", "1-1-85")]),
            ])),
        }]
    );
}

#[test]
fn parse_error_outranks_bad_password() {
    let db = fresh();
    let (log, next) =
        dispatch(db.clone(), "as principal admin password \"wrong\" do exit\n***".to_string());
    assert_eq!(log, vec![plain(Status::FAILED)]);
    assert_eq!(next, db);
}

#[test]
fn bad_password_is_denied_and_unknown_principal_fails() {
    let (log, committed) =
        run_program(fresh(), "as principal admin password \"wrong\" do\nexit\n***".to_string());
    assert_eq!(log, vec![plain(Status::DENIED)]);
    assert!(committed.is_none());
    let (log, committed) =
        run_program(fresh(), "as principal carol password \"admin\" do\nexit\n***".to_string());
    assert_eq!(log, vec![plain(Status::FAILED)]);
    assert!(committed.is_none());
    let (log, committed) =
        run_program(fresh(), "as principal anyone password \"\" do\nreturn \"x\"\n***".to_string());
    assert_eq!(log, vec![plain(Status::DENIED)]);
    assert!(committed.is_none());
}

#[test]
fn a_failing_program_leaves_the_store_as_it_was() {
    let (_, db) = dispatch(fresh(), SETUP.to_string());
    let program = "as principal admin password \"admin\" do\ncreate principal carol \"pw\"\nset fresh = \"v\"\nset delegation x admin write -> bob\ndefault delegator = bob\nset y.missing = \"v\"\nreturn \"never\"\n***";
    let (log, next) = dispatch(db.clone(), program.to_string());
    assert_eq!(log, vec![plain(Status::FAILED)]);
    assert_eq!(next, db);
}

#[test]
fn a_failing_terminator_leaves_the_store_as_it_was() {
    let db = fresh();
    let program = "as principal admin password \"admin\" do\nset fresh = \"v\"\nreturn missing\n***";
    let (log, next) = dispatch(db.clone(), program.to_string());
    assert_eq!(log, vec![plain(Status::FAILED)]);
    assert_eq!(next, db);
}

#[test]
fn locals_are_gone_after_the_program() {
    let program = "as principal admin password \"admin\" do\nlocal tmp = \"v\"\nset kept = tmp\nreturn tmp\n***";
    let (log, db) = dispatch(fresh(), program.to_string());
    assert_eq!(
        log,
        vec![
            plain(Status::LOCAL),
            plain(Status::SET),
            Entry { status: Status::RETURNING, output: Some(text("v")) },
        ]
    );
    assert!(!db.contains(&"tmp".to_string()));
    assert!(db.contains(&"kept".to_string()));
    let (log, _) =
        dispatch(db, "as principal admin password \"admin\" do\nreturn tmp\n***".to_string());
    assert_eq!(log, vec![plain(Status::FAILED)]);
}

#[test]
fn one_entry_for_each_command_and_one_for_the_terminator() {
    let program = "as principal admin password \"admin\" do\ncreate principal bob \"pw\"\nchange password bob \"pw2\"\nset l = []\nappend to l with \"a\"\nlocal t = \"b\"\nforeach i in l replacewith t\nset delegation l admin read -> bob\ndelete delegation l admin read -> bob\ndefault delegator = bob\nexit\n***";
    let (log, committed) = run_program(fresh(), program.to_string());
    assert!(committed.is_some());
    assert_eq!(
        log,
        vec![
            plain(Status::CREATE_PRINCIPAL),
            plain(Status::CHANGE_PASSWORD),
            plain(Status::SET),
            plain(Status::APPEND),
            plain(Status::LOCAL),
            plain(Status::FOREACH),
            plain(Status::SET_DELEGATION),
            plain(Status::DELETE_DELEGATION),
            plain(Status::DEFAULT_DELEGATOR),
            plain(Status::EXITING),
        ]
    );
}

#[test]
fn exit_is_for_admin_only() {
    let (_, db) = dispatch(fresh(), SETUP.to_string());
    let (log, next) = dispatch(
        db.clone(),
        "as principal bob password \"B0BPWxxd\" do\nset mine = \"v\"\nexit\n***".to_string(),
    );
    assert_eq!(log, vec![plain(Status::DENIED)]);
    assert_eq!(next, db);
}

#[test]
fn unreadable_text_fails() {
    let db = fresh();
    let (log, next) = dispatch(
        db.clone(),
        "as principal admin password \"admin\" do\nreturn \"\u{e9}\"\n***".to_string(),
    );
    assert_eq!(log, vec![plain(Status::FAILED)]);
    assert_eq!(next, db);
}
