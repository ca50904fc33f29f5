use bibifi::database::Database;
use bibifi::policy::{Right, Status, Target};
use bibifi::util::hash;
use bibifi::value::Value;

fn s(text: &str) -> String {
    text.to_string()
}

fn text(v: &str) -> Value {
    Value::Immediate(v.to_string())
}

fn var(name: &str) -> Target {
    Target::Variable(name.to_string())
}

const RIGHTS: [Right; 4] = [Right::Read, Right::Write, Right::Append, Right::Delegate];

fn store() -> Database {
    let mut db = Database::new(hash(s("admin")));
    assert_eq!(db.create_principal(&s("admin"), &s("alice"), &hash(s("a"))), Status::SUCCESS);
    assert_eq!(db.create_principal(&s("admin"), &s("bob"), &hash(s("b"))), Status::SUCCESS);
    assert_eq!(db.create_principal(&s("admin"), &s("carol"), &hash(s("c"))), Status::SUCCESS);
    assert_eq!(db.set(&s("admin"), &s("v"), &text("1")), Status::SUCCESS);
    db
}

#[test]
fn admin_holds_every_right() {
    let db = store();
    for r in RIGHTS.iter() {
        assert!(db.check_right(&s("v"), r, &s("admin")));
        assert!(db.check_right(&s("no_such_variable"), r, &s("admin")));
    }
}

#[test]
fn a_new_store_has_admin_and_anyone() {
    let db = Database::new(hash(s("pw")));
    assert!(db.is_principal(&s("admin")));
    assert!(db.is_principal(&s("anyone")));
    assert!(!db.is_principal(&s("bob")));
    assert!(!db.contains(&s("v")));
    assert_eq!(db.check_pass(&s("admin"), &hash(s("pw"))), Status::SUCCESS);
    assert_eq!(db.check_pass(&s("admin"), &hash(s("other"))), Status::DENIED);
    assert_eq!(db.check_pass(&s("anyone"), &hash(s("pw"))), Status::DENIED);
    assert_eq!(db.check_pass(&s("bob"), &hash(s("pw"))), Status::FAILED);
}

#[test]
fn anyone_propagation() {
    let mut db = store();
    assert!(!db.check_right(&s("v"), &Right::Read, &s("bob")));
    assert_eq!(
        db.delegate(&s("admin"), &var("v"), &s("admin"), &Right::Read, &s("anyone")),
        Status::SUCCESS
    );
    for p in ["alice", "bob", "carol", "anyone", "admin"] {
        assert!(db.check_right(&s("v"), &Right::Read, &s(p)));
    }
    assert!(!db.check_right(&s("v"), &Right::Write, &s("bob")));
    assert_eq!(db.set_default_delegator(&s("admin"), &s("admin")), Status::SUCCESS);
    assert_eq!(db.set_default_delegator(&s("admin"), &s("carol")), Status::SUCCESS);
    assert_eq!(db.create_principal(&s("admin"), &s("later"), &hash(s("l"))), Status::SUCCESS);
    assert!(db.check_right(&s("v"), &Right::Read, &s("later")));
    assert!(!db.check_right(&s("v"), &Right::Write, &s("later")));
}

#[test]
fn anyone_passes_on_only_what_the_delegator_holds() {
    let mut db = store();
    assert_eq!(
        db.delegate(&s("admin"), &var("v"), &s("bob"), &Right::Read, &s("anyone")),
        Status::SUCCESS
    );
    assert!(!db.check_right(&s("v"), &Right::Read, &s("alice")));
    assert_eq!(
        db.delegate(&s("admin"), &var("v"), &s("admin"), &Right::Read, &s("bob")),
        Status::SUCCESS
    );
    assert!(db.check_right(&s("v"), &Right::Read, &s("alice")));
    assert!(db.check_right(&s("v"), &Right::Read, &s("anyone")));
}

#[test]
fn delegation_is_transitive() {
    let mut db = store();
    assert_eq!(
        db.delegate(&s("admin"), &var("v"), &s("alice"), &Right::Write, &s("bob")),
        Status::SUCCESS
    );
    assert_eq!(
        db.delegate(&s("admin"), &var("v"), &s("bob"), &Right::Write, &s("carol")),
        Status::SUCCESS
    );
    assert!(!db.check_right(&s("v"), &Right::Write, &s("carol")));
    assert_eq!(
        db.delegate(&s("admin"), &var("v"), &s("admin"), &Right::Write, &s("alice")),
        Status::SUCCESS
    );
    assert!(db.check_right(&s("v"), &Right::Write, &s("alice")));
    assert!(db.check_right(&s("v"), &Right::Write, &s("bob")));
    assert!(db.check_right(&s("v"), &Right::Write, &s("carol")));
    assert!(!db.check_right(&s("v"), &Right::Read, &s("carol")));
}

#[test]
fn cycles_do_not_loop() {
    let mut db = store();
    assert_eq!(
        db.delegate(&s("admin"), &var("v"), &s("alice"), &Right::Read, &s("bob")),
        Status::SUCCESS
    );
    assert_eq!(
        db.delegate(&s("admin"), &var("v"), &s("bob"), &Right::Read, &s("alice")),
        Status::SUCCESS
    );
    assert_eq!(
        db.delegate(&s("admin"), &var("v"), &s("alice"), &Right::Read, &s("alice")),
        Status::SUCCESS
    );
    assert_eq!(
        db.delegate(&s("admin"), &var("v"), &s("anyone"), &Right::Read, &s("anyone")),
        Status::SUCCESS
    );
    assert!(!db.check_right(&s("v"), &Right::Read, &s("alice")));
    assert!(!db.check_right(&s("v"), &Right::Read, &s("bob")));
    assert!(!db.check_right(&s("v"), &Right::Read, &s("anyone")));
    assert_eq!(
        db.delegate(&s("admin"), &var("v"), &s("admin"), &Right::Read, &s("bob")),
        Status::SUCCESS
    );
    assert!(db.check_right(&s("v"), &Right::Read, &s("alice")));
    assert!(db.check_right(&s("v"), &Right::Read, &s("bob")));
    assert!(!db.check_right(&s("v"), &Right::Read, &s("carol")));
}

#[test]
fn undelegate_exactness() {
    let mut db = store();
    let before = db.clone();
    assert_eq!(
        db.delegate(&s("admin"), &var("v"), &s("alice"), &Right::Read, &s("bob")),
        Status::SUCCESS
    );
    assert_ne!(db, before);
    assert_eq!(
        db.undelegate(&s("admin"), &var("v"), &s("alice"), &Right::Read, &s("bob")),
        Status::SUCCESS
    );
    assert_eq!(db, before);
}

#[test]
fn undelegate_removes_every_equal_edge_and_no_other() {
    let mut db = store();
    assert_eq!(
        db.delegate(&s("admin"), &var("v"), &s("admin"), &Right::Write, &s("bob")),
        Status::SUCCESS
    );
    let with_write = db.clone();
    for _ in 0..3 {
        assert_eq!(
            db.delegate(&s("admin"), &var("v"), &s("admin"), &Right::Read, &s("bob")),
            Status::SUCCESS
        );
    }
    assert!(db.check_right(&s("v"), &Right::Read, &s("bob")));
    assert_eq!(
        db.undelegate(&s("admin"), &var("v"), &s("admin"), &Right::Read, &s("bob")),
        Status::SUCCESS
    );
    assert!(!db.check_right(&s("v"), &Right::Read, &s("bob")));
    assert!(db.check_right(&s("v"), &Right::Write, &s("bob")));
    assert_eq!(db, with_write);
}

#[test]
fn delegate_outcomes() {
    let mut db = store();
    let before = db.clone();
    assert_eq!(
        db.delegate(&s("admin"), &var("v"), &s("nobody"), &Right::Read, &s("bob")),
        Status::FAILED
    );
    assert_eq!(
        db.delegate(&s("admin"), &var("v"), &s("bob"), &Right::Read, &s("nobody")),
        Status::FAILED
    );
    assert_eq!(
        db.delegate(&s("admin"), &var("w"), &s("bob"), &Right::Read, &s("alice")),
        Status::FAILED
    );
    assert_eq!(
        db.delegate(&s("admin"), &var("w"), &s("bob"), &Right::Read, &s("admin")),
        Status::FAILED
    );
    assert_eq!(
        db.delegate(&s("carol"), &var("v"), &s("bob"), &Right::Read, &s("alice")),
        Status::DENIED
    );
    assert_eq!(
        db.delegate(&s("carol"), &Target::All, &s("bob"), &Right::Read, &s("alice")),
        Status::DENIED
    );
    assert_eq!(
        db.delegate(&s("bob"), &var("v"), &s("bob"), &Right::Read, &s("alice")),
        Status::DENIED
    );
    assert_eq!(
        db.delegate(&s("nobody"), &var("v"), &s("bob"), &Right::Read, &s("alice")),
        Status::DENIED
    );
    assert_eq!(db, before);
    assert_eq!(
        db.delegate(&s("admin"), &var("v"), &s("bob"), &Right::Read, &s("admin")),
        Status::SUCCESS
    );
    assert_eq!(
        db.delegate(&s("bob"), &Target::All, &s("bob"), &Right::Read, &s("admin")),
        Status::SUCCESS
    );
    assert_eq!(db, before);
}

#[test]
fn a_delegator_with_the_right_to_delegate_may_delegate() {
    let mut db = store();
    assert_eq!(db.set(&s("bob"), &s("mine"), &text("1")), Status::SUCCESS);
    assert_eq!(
        db.delegate(&s("bob"), &var("mine"), &s("bob"), &Right::Read, &s("alice")),
        Status::SUCCESS
    );
    assert!(db.check_right(&s("mine"), &Right::Read, &s("alice")));
    assert!(!db.check_right(&s("mine"), &Right::Write, &s("alice")));
    assert_eq!(
        db.delegate(&s("alice"), &var("mine"), &s("alice"), &Right::Read, &s("carol")),
        Status::DENIED
    );
}

#[test]
fn delegating_all_skips_what_the_delegator_may_not_delegate() {
    let mut db = store();
    assert_eq!(db.set(&s("bob"), &s("mine"), &text("1")), Status::SUCCESS);
    assert_eq!(db.set(&s("alice"), &s("hers"), &text("2")), Status::SUCCESS);
    assert_eq!(
        db.delegate(&s("bob"), &Target::All, &s("bob"), &Right::Read, &s("carol")),
        Status::SUCCESS
    );
    assert!(db.check_right(&s("mine"), &Right::Read, &s("carol")));
    assert!(!db.check_right(&s("hers"), &Right::Read, &s("carol")));
    assert!(!db.check_right(&s("v"), &Right::Read, &s("carol")));
    assert_eq!(
        db.delegate(&s("admin"), &Target::All, &s("admin"), &Right::Write, &s("carol")),
        Status::SUCCESS
    );
    for name in ["v", "mine", "hers"] {
        assert!(db.check_right(&s(name), &Right::Write, &s("carol")));
    }
    assert_eq!(db.set(&s("admin"), &s("later"), &text("3")), Status::SUCCESS);
    assert!(!db.check_right(&s("later"), &Right::Write, &s("carol")));
}

#[test]
fn undelegate_outcomes() {
    let mut db = store();
    assert_eq!(
        db.delegate(&s("admin"), &var("v"), &s("alice"), &Right::Read, &s("bob")),
        Status::SUCCESS
    );
    let before = db.clone();
    assert_eq!(
        db.undelegate(&s("admin"), &var("v"), &s("nobody"), &Right::Read, &s("bob")),
        Status::FAILED
    );
    assert_eq!(
        db.undelegate(&s("admin"), &var("v"), &s("alice"), &Right::Read, &s("nobody")),
        Status::FAILED
    );
    assert_eq!(
        db.undelegate(&s("carol"), &var("v"), &s("alice"), &Right::Read, &s("bob")),
        Status::DENIED
    );
    assert_eq!(
        db.undelegate(&s("alice"), &var("v"), &s("alice"), &Right::Read, &s("bob")),
        Status::DENIED
    );
    assert_eq!(db, before);
    assert_eq!(
        db.undelegate(&s("admin"), &var("v"), &s("alice"), &Right::Read, &s("admin")),
        Status::SUCCESS
    );
    assert_eq!(
        db.undelegate(&s("admin"), &var("no_such_variable"), &s("alice"), &Right::Read, &s("bob")),
        Status::SUCCESS
    );
    assert_eq!(db, before);
    assert_eq!(
        db.undelegate(&s("bob"), &var("v"), &s("alice"), &Right::Read, &s("bob")),
        Status::SUCCESS
    );
    assert_ne!(db, before);
}

#[test]
fn undelegating_all_removes_what_the_actor_may_remove() {
    let mut db = store();
    assert_eq!(db.set(&s("bob"), &s("mine"), &text("1")), Status::SUCCESS);
    assert_eq!(
        db.delegate(&s("admin"), &Target::All, &s("bob"), &Right::Read, &s("carol")),
        Status::SUCCESS
    );
    assert!(db.check_right(&s("mine"), &Right::Read, &s("carol")));
    let granted = db.clone();
    assert_eq!(
        db.undelegate(&s("bob"), &Target::All, &s("bob"), &Right::Read, &s("carol")),
        Status::SUCCESS
    );
    assert!(!db.check_right(&s("mine"), &Right::Read, &s("carol")));
    assert_ne!(db, granted);
    let partly = db.clone();
    assert_eq!(
        db.undelegate(&s("carol"), &Target::All, &s("bob"), &Right::Read, &s("carol")),
        Status::SUCCESS
    );
    assert_ne!(db, partly);
    let mut again = granted.clone();
    assert_eq!(
        again.undelegate(&s("admin"), &Target::All, &s("bob"), &Right::Read, &s("carol")),
        Status::SUCCESS
    );
    assert_eq!(again, db);
}

#[test]
fn create_principal_outcomes() {
    let mut db = store();
    let before = db.clone();
    assert_eq!(db.create_principal(&s("bob"), &s("dave"), &hash(s("d"))), Status::DENIED);
    assert_eq!(db.create_principal(&s("admin"), &s("bob"), &hash(s("d"))), Status::FAILED);
    assert_eq!(db.create_principal(&s("admin"), &s("admin"), &hash(s("d"))), Status::FAILED);
    assert_eq!(db.create_principal(&s("admin"), &s("anyone"), &hash(s("d"))), Status::FAILED);
    assert_eq!(db, before);
    assert_eq!(db.create_principal(&s("admin"), &s("dave"), &hash(s("d"))), Status::SUCCESS);
    assert_eq!(db.check_pass(&s("dave"), &hash(s("d"))), Status::SUCCESS);
    assert_eq!(db.check_pass(&s("dave"), &hash(s("e"))), Status::DENIED);
}

#[test]
fn a_new_principal_receives_what_the_default_delegator_holds_now() {
    let mut db = store();
    assert_eq!(db.set(&s("bob"), &s("mine"), &text("1")), Status::SUCCESS);
    assert_eq!(db.set_default_delegator(&s("admin"), &s("bob")), Status::SUCCESS);
    assert_eq!(db.create_principal(&s("admin"), &s("dave"), &hash(s("d"))), Status::SUCCESS);
    for r in RIGHTS.iter() {
        assert!(db.check_right(&s("mine"), r, &s("dave")));
        assert!(!db.check_right(&s("v"), r, &s("dave")));
    }
    assert_eq!(db.set(&s("bob"), &s("newer"), &text("2")), Status::SUCCESS);
    for r in RIGHTS.iter() {
        assert!(!db.check_right(&s("newer"), r, &s("dave")));
    }
    assert_eq!(
        db.delegate(&s("admin"), &var("v"), &s("admin"), &Right::Read, &s("bob")),
        Status::SUCCESS
    );
    assert!(db.check_right(&s("v"), &Right::Read, &s("dave")));
}

#[test]
fn change_password_outcomes() {
    let mut db = store();
    let before = db.clone();
    assert_eq!(db.change_password(&s("bob"), &s("alice"), &hash(s("x"))), Status::DENIED);
    assert_eq!(db.change_password(&s("bob"), &s("nobody"), &hash(s("x"))), Status::DENIED);
    assert_eq!(db.change_password(&s("admin"), &s("nobody"), &hash(s("x"))), Status::FAILED);
    assert_eq!(db.change_password(&s("admin"), &s("anyone"), &hash(s("x"))), Status::FAILED);
    assert_eq!(db.change_password(&s("anyone"), &s("anyone"), &hash(s("x"))), Status::FAILED);
    assert_eq!(db, before);
    assert_eq!(db.change_password(&s("bob"), &s("bob"), &hash(s("x"))), Status::SUCCESS);
    assert_eq!(db.check_pass(&s("bob"), &hash(s("x"))), Status::SUCCESS);
    assert_eq!(db.check_pass(&s("bob"), &hash(s("b"))), Status::DENIED);
    assert_eq!(db.change_password(&s("admin"), &s("admin"), &hash(s("y"))), Status::SUCCESS);
    assert_eq!(db.check_pass(&s("admin"), &hash(s("y"))), Status::SUCCESS);
    assert_eq!(db.check_pass(&s("admin"), &hash(s("admin"))), Status::DENIED);
    assert_eq!(db.change_password(&s("admin"), &s("alice"), &hash(s("z"))), Status::SUCCESS);
    assert_eq!(db.check_pass(&s("alice"), &hash(s("z"))), Status::SUCCESS);
}

#[test]
fn set_default_delegator_outcomes() {
    let mut db = store();
    let before = db.clone();
    assert_eq!(db.set_default_delegator(&s("bob"), &s("bob")), Status::DENIED);
    assert_eq!(db.set_default_delegator(&s("admin"), &s("nobody")), Status::FAILED);
    assert_eq!(db, before);
    assert_eq!(db.set_default_delegator(&s("admin"), &s("bob")), Status::SUCCESS);
    assert_ne!(db, before);
}

#[test]
fn set_and_get_outcomes() {
    let mut db = store();
    assert_eq!(db.get(&s("admin"), &s("v")), Ok(&text("1")));
    assert_eq!(db.get(&s("admin"), &s("w")), Err(Status::FAILED));
    assert_eq!(db.get(&s("bob"), &s("w")), Err(Status::FAILED));
    assert_eq!(db.get(&s("bob"), &s("v")), Err(Status::DENIED));
    let before = db.clone();
    assert_eq!(db.set(&s("bob"), &s("v"), &text("2")), Status::DENIED);
    assert_eq!(db, before);
    assert_eq!(db.set(&s("admin"), &s("v"), &text("2")), Status::SUCCESS);
    assert_eq!(db.get(&s("admin"), &s("v")), Ok(&text("2")));
    assert_eq!(db.set(&s("bob"), &s("mine"), &text("3")), Status::SUCCESS);
    assert!(db.contains(&s("mine")));
    assert_eq!(db.get(&s("bob"), &s("mine")), Ok(&text("3")));
    assert_eq!(db.get(&s("alice"), &s("mine")), Err(Status::DENIED));
    for r in RIGHTS.iter() {
        assert!(db.check_right(&s("mine"), r, &s("bob")));
        assert!(!db.check_right(&s("v"), r, &s("bob")));
    }
    assert_eq!(db.set(&s("anyone"), &s("open"), &text("4")), Status::SUCCESS);
    for r in RIGHTS.iter() {
        assert!(db.check_right(&s("open"), r, &s("carol")));
    }
}

#[test]
fn set_member_outcomes() {
    let mut db = store();
    let rec = Value::FieldVals(vec![(s("a"), s("1")), (s("b"), s("2"))]);
    assert_eq!(db.set(&s("admin"), &s("r"), &rec), Status::SUCCESS);
    assert_eq!(db.set(&s("admin"), &s("l"), &Value::List(vec![])), Status::SUCCESS);
    let before = db.clone();
    assert_eq!(db.set_member(&s("admin"), &s("w"), &s("a"), &s("9")), Status::FAILED);
    assert_eq!(db.set_member(&s("admin"), &s("v"), &s("a"), &s("9")), Status::FAILED);
    assert_eq!(db.set_member(&s("admin"), &s("l"), &s("a"), &s("9")), Status::FAILED);
    assert_eq!(db.set_member(&s("admin"), &s("r"), &s("c"), &s("9")), Status::FAILED);
    assert_eq!(db.set_member(&s("bob"), &s("r"), &s("c"), &s("9")), Status::FAILED);
    assert_eq!(db.set_member(&s("bob"), &s("r"), &s("a"), &s("9")), Status::DENIED);
    assert_eq!(db, before);
    assert_eq!(db.set_member(&s("admin"), &s("r"), &s("b"), &s("9")), Status::SUCCESS);
    assert_eq!(
        db.get(&s("admin"), &s("r")),
        Ok(&Value::FieldVals(vec![(s("a"), s("1")), (s("b"), s("9"))]))
    );
}

#[test]
fn append_outcomes() {
    let mut db = store();
    assert_eq!(db.set(&s("admin"), &s("l"), &Value::List(vec![text("a")])), Status::SUCCESS);
    let before = db.clone();
    assert_eq!(db.append(&s("admin"), &s("w"), &text("b")), Status::FAILED);
    assert_eq!(db.append(&s("admin"), &s("v"), &text("b")), Status::FAILED);
    assert_eq!(db.append(&s("bob"), &s("l"), &text("b")), Status::DENIED);
    assert_eq!(db.append(&s("bob"), &s("v"), &text("b")), Status::DENIED);
    assert_eq!(db, before);
    assert_eq!(db.append(&s("admin"), &s("l"), &text("b")), Status::SUCCESS);
    let rec = Value::FieldVals(vec![(s("k"), s("v"))]);
    assert_eq!(db.append(&s("admin"), &s("l"), &rec), Status::SUCCESS);
    assert_eq!(
        db.append(&s("admin"), &s("l"), &Value::List(vec![text("c"), text("d")])),
        Status::SUCCESS
    );
    assert_eq!(
        db.get(&s("admin"), &s("l")),
        Ok(&Value::List(vec![text("a"), text("b"), rec, text("c"), text("d")]))
    );
    assert_eq!(
        db.delegate(&s("admin"), &var("l"), &s("admin"), &Right::Append, &s("bob")),
        Status::SUCCESS
    );
    assert_eq!(db.append(&s("bob"), &s("l"), &text("e")), Status::SUCCESS);
    assert_eq!(db.get(&s("bob"), &s("l")), Err(Status::DENIED));
}

#[test]
fn a_copy_of_the_store_is_equal_and_apart() {
    let db = store();
    let mut copy = db.clone();
    assert_eq!(copy, db);
    assert_eq!(copy.set(&s("admin"), &s("v"), &text("changed")), Status::SUCCESS);
    assert_ne!(copy, db);
    assert_eq!(db.get(&s("admin"), &s("v")), Ok(&text("1")));
}

#[test]
fn hash_is_blake2s() {
    let expected: [u8; 32] = [
        0x9a, 0xec, 0x68, 0x06, 0x79, 0x45, 0x61, 0x10, 0x7e, 0x59, 0x4b, 0x1f, 0x6a, 0x8a, 0x6b,
        0x0c, 0x92, 0xa0, 0xcb, 0xa9, 0xac, 0xf5, 0xe5, 0xe9, 0x3c, 0xca, 0x06, 0xf7, 0x81, 0x81,
        0x3b, 0x0b,
    ];
    assert_eq!(hash(s("hello world")), expected);
    assert_ne!(hash(s("hello world")), hash(s("hello worle")));
    assert_eq!(hash(s("")), hash(String::new()));
}
