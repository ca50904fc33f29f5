use bibifi::parser::{parse, ParseError};
use bibifi::types::{
    Append, Assignment, ChangePassword, CreatePrincipal, Delegation, Expr, ForEach, Identifier,
    PrimitiveCommand, Principal, Program, Right, Scope, Target, TerminatorCommand, Value, Variable,
};
use bibifi::util::hash;

fn name(s: &str) -> Identifier {
    Identifier { name: s.to_string() }
}

fn who(s: &str) -> Principal {
    Principal { ident: name(s) }
}

fn variable(s: &str) -> Variable {
    Variable::Variable(name(s))
}

fn member(a: &str, b: &str) -> Variable {
    Variable::Member(name(a), Box::new(variable(b)))
}

fn literal(s: &str) -> Expr {
    Expr::Value(Value::String(s.to_string()))
}

fn reference(s: &str) -> Expr {
    Expr::Value(Value::Variable(variable(s)))
}

fn program(body: &str) -> String {
    format!("as principal p password \"s\" do\n{}\n***", body)
}

fn commands(body: &str) -> Vec<PrimitiveCommand> {
    parse(program(&format!("{}\nexit", body))).unwrap().commands
}

fn accepts(text: &str) -> bool {
    parse(text.to_string()).is_ok()
}

fn syntax_error(text: &str) -> bool {
    parse(text.to_string()) == Err(ParseError::Syntax)
}

#[test]
fn the_smallest_program() {
    assert_eq!(
        parse("as principal p password \"\" do\nexit\n***".to_string()),
        Ok(Program {
            principal: who("p"),
            password: hash("".to_string()),
            commands: vec![],
            terminator: TerminatorCommand::Exit,
        })
    );
}

#[test]
fn every_command() {
    assert_eq!(
        commands("create principal q \"pw\""),
        vec![PrimitiveCommand::CreatePrincipal(CreatePrincipal {
            principal: who("q"),
            password: hash("pw".to_string()),
        })]
    );
    assert_eq!(
        commands("change password q \"pw\""),
        vec![PrimitiveCommand::ChangePassword(ChangePassword {
            principal: who("q"),
            password: hash("pw".to_string()),
        })]
    );
    assert_eq!(
        commands("set x = y"),
        vec![PrimitiveCommand::Assignment(Assignment {
            variable: variable("x"),
            expr: reference("y"),
        })]
    );
    assert_eq!(
        commands("set x.f = y . g"),
        vec![PrimitiveCommand::Assignment(Assignment {
            variable: member("x", "f"),
            expr: Expr::Value(Value::Variable(member("y", "g"))),
        })]
    );
    assert_eq!(
        commands("append to x with []"),
        vec![PrimitiveCommand::Append(Append { variable: variable("x"), expr: Expr::EmptyList })]
    );
    assert_eq!(
        commands("local x = {}"),
        vec![PrimitiveCommand::LocalAssignment(Assignment {
            variable: variable("x"),
            expr: Expr::FieldVals(vec![]),
        })]
    );
    assert_eq!(
        commands("foreach y in x replacewith { a = y.f , b = \"s\" }"),
        vec![PrimitiveCommand::ForEach(ForEach {
            value: variable("y"),
            list: variable("x"),
            expr: Expr::FieldVals(vec![
                Assignment {
                    variable: variable("a"),
                    expr: Expr::Value(Value::Variable(member("y", "f"))),
                },
                Assignment { variable: variable("b"), expr: literal("s") },
            ]),
        })]
    );
    assert_eq!(
        commands("set delegation x q delegate -> r"),
        vec![PrimitiveCommand::SetDelegation(Delegation {
            target: Target::Variable(name("x")),
            delegator: who("q"),
            right: Right::Delegate,
            delegated: who("r"),
        })]
    );
    assert_eq!(
        commands("delete delegation all q append->r"),
        vec![PrimitiveCommand::DeleteDelegation(Delegation {
            target: Target::All,
            delegator: who("q"),
            right: Right::Append,
            delegated: who("r"),
        })]
    );
    assert_eq!(
        commands("default delegator=q"),
        vec![PrimitiveCommand::DefaultDelegator(who("q"))]
    );
}

#[test]
fn return_takes_any_expression() {
    for (text, expected) in [
        ("return x", reference("x")),
        ("return \"a b\"", literal("a b")),
        ("return [ ]", Expr::EmptyList),
        ("return {   }", Expr::FieldVals(vec![])),
        ("return x.f", Expr::Value(Value::Variable(member("x", "f")))),
    ] {
        assert_eq!(
            parse(program(text)).unwrap().terminator,
            TerminatorCommand::Return(expected)
        );
    }
}

#[test]
fn identifier_length_boundary() {
    let longest = "a".repeat(254);
    let too_long = "a".repeat(255);
    assert_eq!(
        commands(&format!("set {} = \"v\"", longest)),
        vec![PrimitiveCommand::Assignment(Assignment {
            variable: variable(&longest),
            expr: literal("v"),
        })]
    );
    assert!(syntax_error(&program(&format!("set {} = \"v\"\nexit", too_long))));
    assert!(accepts(&format!("as principal {} password \"s\" do\nexit\n***", longest)));
    assert!(syntax_error(&format!("as principal {} password \"s\" do\nexit\n***", too_long)));
    assert!(accepts(&program(&format!("return x.{}", longest))));
    assert!(syntax_error(&program(&format!("return x.{}", too_long))));
    assert!(accepts(&program(&format!("set delegation {} q read -> r\nexit", longest))));
    assert!(syntax_error(&program(&format!("set delegation {} q read -> r\nexit", too_long))));
}

#[test]
fn string_length_boundary() {
    let longest = "s".repeat(65535);
    let too_long = "s".repeat(65536);
    assert_eq!(
        parse(program(&format!("return \"{}\"", longest))).unwrap().terminator,
        TerminatorCommand::Return(literal(&longest))
    );
    assert!(syntax_error(&program(&format!("return \"{}\"", too_long))));
    assert!(accepts(&program(&format!("create principal q \"{}\"\nexit", longest))));
    assert!(syntax_error(&program(&format!("create principal q \"{}\"\nexit", too_long))));
}

#[test]
fn program_length_boundary() {
    let head = "as principal p password \"s\" do\nexit //";
    let tail = "\n***";
    let room = 1000000 - head.len() - tail.len();
    let fits = format!("{}{}{}", head, "c".repeat(room), tail);
    assert_eq!(fits.len(), 1000000);
    assert!(accepts(&fits));
    let over = format!("{}{}{}", head, "c".repeat(room + 1), tail);
    assert_eq!(over.len(), 1000001);
    assert_eq!(parse(over), Err(ParseError::InvalidData));
}

#[test]
fn text_that_is_not_ascii_is_invalid_data() {
    assert_eq!(parse(program("return \"\u{e9}\"")), Err(ParseError::InvalidData));
    assert_eq!(parse(program("exit //\u{2603}")), Err(ParseError::InvalidData));
    assert_eq!(parse("\u{80}".to_string()), Err(ParseError::InvalidData));
    assert_eq!(parse("".to_string()), Err(ParseError::Syntax));
}

#[test]
fn every_keyword_is_refused_as_an_identifier() {
    let keywords = [
        "all", "append", "as", "change", "create", "default", "delegation", "delegator",
        "delete", "do", "exit", "foreach", "in", "local", "password", "principal", "read",
        "replacewith", "return", "set", "to", "write",
    ];
    for k in keywords.iter() {
        assert!(syntax_error(&format!("as principal {} password \"s\" do\nexit\n***", k)));
        assert!(syntax_error(&program(&format!("set {} = \"v\"\nexit", k))));
        assert!(syntax_error(&program(&format!("set x = {}\nexit", k))));
        assert!(syntax_error(&program(&format!("set x.{} = \"v\"\nexit", k))));
        assert!(syntax_error(&program(&format!("set x = y.{}\nexit", k))));
        assert!(syntax_error(&program(&format!("local {} = \"v\"\nexit", k))));
        assert!(syntax_error(&program(&format!("append to {} with \"v\"\nexit", k))));
        assert!(syntax_error(&program(&format!("foreach {} in x replacewith \"v\"\nexit", k))));
        assert!(syntax_error(&program(&format!("foreach y in {} replacewith \"v\"\nexit", k))));
        assert!(syntax_error(&program(&format!("create principal {} \"v\"\nexit", k))));
        assert!(syntax_error(&program(&format!("change password {} \"v\"\nexit", k))));
        assert!(syntax_error(&program(&format!("default delegator = {}\nexit", k))));
        assert!(syntax_error(&program(&format!("set delegation x {} read -> q\nexit", k))));
        assert!(syntax_error(&program(&format!("set delegation x q read -> {}\nexit", k))));
        assert!(syntax_error(&program(&format!("return {{ {} = \"v\" }}", k))));
        assert!(syntax_error(&program(&format!("return {}", k))));
        if *k != "all" {
            assert!(syntax_error(&program(&format!("delete delegation {} q read -> r\nexit", k))));
        }
    }
}

#[test]
fn a_word_that_only_begins_like_a_keyword_is_an_identifier() {
    for word in ["input", "dog", "asset", "allow", "reader", "total", "exits", "setting", "delegate"]
    {
        assert_eq!(
            commands(&format!("set {} = {}", word, word)),
            vec![PrimitiveCommand::Assignment(Assignment {
                variable: variable(word),
                expr: reference(word),
            })]
        );
    }
    assert_eq!(
        commands("set delegation allx q read -> r"),
        vec![PrimitiveCommand::SetDelegation(Delegation {
            target: Target::Variable(name("allx")),
            delegator: who("q"),
            right: Right::Read,
            delegated: who("r"),
        })]
    );
}

#[test]
fn every_character_outside_the_alphabet_is_refused_in_strings_and_comments() {
    let allowed = "ABCDEFGHIJKLMNOPQRSTUVWXYZabcdefghijklmnopqrstuvwxyz0123456789_ ,;\\.?!-";
    assert_eq!(
        parse(program(&format!("return \"{}\"", allowed))).unwrap().terminator,
        TerminatorCommand::Return(literal(allowed))
    );
    assert!(accepts(&program(&format!("exit //{}", allowed))));
    for code in 0u8..128 {
        let c = code as char;
        if allowed.contains(c) {
            continue;
        }
        assert!(!accepts(&program(&format!("return \"a{}b\"", c))));
        if c != '\n' {
            assert!(!accepts(&program(&format!("exit //a{}b", c))));
        }
    }
}

#[test]
fn spaces_are_the_only_blanks() {
    assert!(accepts("  as   principal p   password \"s\"   do   \n   exit   \n   ***   "));
    assert!(syntax_error("as principal p password \"s\" do\n\texit\n***"));
    assert!(syntax_error("as principal p password \"s\" do\r\nexit\r\n***"));
    assert!(syntax_error("as principal p password \"s\" do\n\nexit\n***"));
    assert!(syntax_error("as principal p password \"s\" do\nexit\n\n***"));
    assert!(syntax_error("as principal p password \"s\" do\nset x = \"v\"\n\nexit\n***"));
    assert!(syntax_error("as\tprincipal p password \"s\" do\nexit\n***"));
    assert!(syntax_error("asprincipal p password \"s\" do\nexit\n***"));
    assert!(syntax_error("as principal p password\"s\" do\nexit\n***"));
    assert!(syntax_error("as principal p password \"s\"do\nexit\n***"));
    assert!(syntax_error(&program("return\"v\"")));
    assert!(syntax_error(&program("append to x with\"v\"\nexit")));
    assert!(syntax_error(&program("create principal q\"v\"\nexit")));
    assert!(syntax_error(&program("set x . f = \"v\"\nexit")));
    assert!(accepts(&program("set x=\"v\"\nexit")));
}

#[test]
fn the_frame_of_a_program_is_strict() {
    assert!(syntax_error("as principal p password \"s\" do\nexit"));
    assert!(syntax_error("as principal p password \"s\" do\nexit\n"));
    assert!(syntax_error("as principal p password \"s\" do\nexit\n**"));
    assert!(syntax_error("as principal p password \"s\" do\nexit\n***\n"));
    assert!(syntax_error("as principal p password \"s\" do\nexit\n*** x"));
    assert!(syntax_error("as principal p password \"s\" do\n***"));
    assert!(syntax_error("as principal p password \"s\" do\nset x = \"v\"\n***"));
    assert!(syntax_error("as principal p password \"s\" do\nexit\nexit\n***"));
    assert!(syntax_error("as principal p password \"s\" do\nexit\nset x = \"v\"\n***"));
    assert!(syntax_error("as principal p password \"s\" do exit\n***"));
    assert!(syntax_error("as principal p \"s\" do\nexit\n***"));
    assert!(syntax_error("principal p password \"s\" do\nexit\n***"));
    assert!(accepts("as principal p password \"s\" do\nexit\n***//end\n//more"));
    assert!(accepts("//first\n//second\nas principal p password \"s\" do //c\n//third\nexit //c\n//d\n*** //e"));
    assert!(syntax_error(" //first\nas principal p password \"s\" do\nexit\n***"));
    assert!(syntax_error("as principal p password \"s\" do\nset x = \"v\"\n//alone\nexit\n***"));
    assert!(accepts("as principal p password \"s\" do\nset x = \"v\" //c\n//continued\nexit\n***"));
    assert!(syntax_error("as principal p password \"s\" do\nexit // a // b\n***"));
}

#[test]
fn expressions_are_strict() {
    assert!(syntax_error(&program("return { a = \"v\", }")));
    assert!(syntax_error(&program("return { , }")));
    assert!(syntax_error(&program("return { a = [] }")));
    assert!(syntax_error(&program("return { a = { b = \"v\" } }")));
    assert!(syntax_error(&program("return { a.b = \"v\" }")));
    assert!(syntax_error(&program("return [ \"v\" ]")));
    assert!(syntax_error(&program("return x.y.z")));
    assert!(syntax_error(&program("return x.")));
    assert!(syntax_error(&program("return \"unclosed")));
    assert!(syntax_error(&program("return 1x")));
    assert!(syntax_error(&program("return _x")));
    assert!(syntax_error(&program("return")));
    assert!(syntax_error(&program("return x y")));
    assert!(syntax_error(&program("set delegation x q own -> r\nexit")));
    assert!(syntax_error(&program("set delegation x q read - > r\nexit")));
    assert!(syntax_error(&program("local x.f = \"v\"\nexit")));
    assert!(syntax_error(&program("append to x.f with \"v\"\nexit")));
    assert!(syntax_error(&program("grant x\nexit")));
}

#[test]
fn the_other_scope() {
    assert_eq!(!Scope::Local, Scope::Global);
    assert_eq!(!Scope::Global, Scope::Local);
}

#[test]
fn a_copy_of_a_program_is_equal() {
    let text = program("set a = { x = b.c, y = \"s\" }\nforeach i in l replacewith i.f\nset delegation all q read -> r\nreturn a.x");
    let parsed = parse(text).unwrap();
    let copy = parsed.clone();
    assert_eq!(copy, parsed);
    assert_eq!(copy.commands.len(), 3);
}
