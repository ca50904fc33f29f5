//! The parser: reads a program text and gives its syntax tree, or says
//! that the text is no program.

use crate::grammar::{
    after_arrow, after_symbol, after_word, append_args, assignment_at, at, closing_at, comment_at,
    comment_lines, default_args, delegation_at, expr_at, field_at, fields_from, foreach_args, gap,
    header_at, ident_at, in_class, is_keyword, line_at, lines_from, more_comments, password_args,
    primitive_at, program_of, readable, right_at, run_end, string_at, target_at, terminator_at,
    trail, value_at, word_end, CharClass, MAX_IDENTIFIER, MAX_PROGRAM, MAX_STRING,
};
use crate::types::{
    assignments_syntax, commands_syntax, expr_syntax, lemma_fieldvals_syntax, variable_syntax,
    Append, Assignment, ChangePassword, CreatePrincipal, Delegation, Expr, ForEach, Identifier,
    PasswordSyntax, PrimitiveCommand, Principal, Program, Right, Target, TerminatorCommand, Value,
    Variable,
};
use crate::util::hash;
use vstd::prelude::*;
use vstd::string::*;

pub use crate::types;

verus! {

/// Why a text was not read as a program.
#[derive(Clone, Copy, Debug, PartialEq, Eq, Structural)]
pub enum ParseError {
    /// The text is longer than 1,000,000 bytes or holds a byte that is not
    /// ASCII.
    InvalidData,
    /// The text is not a program of the grammar.
    Syntax,
}

/// What a parsing step found, as the grammar states it: the content of the
/// piece and the position behind it.
pub open spec fn found<T: View>(r: Option<(T, usize)>) -> Option<(T::V, int)> {
    match r {
        Some((piece, end)) => Some((piece@, end as int)),
        None => None,
    }
}

/// The position that a parsing step reached, as the grammar states it.
pub open spec fn reached(r: Option<usize>) -> Option<int> {
    match r {
        Some(end) => Some(end as int),
        None => None,
    }
}

/// Whether a step that found something ended between `pos` and the end of
/// the text.
pub open spec fn within<T>(r: Option<(T, usize)>, pos: usize, s: &str) -> bool {
    r matches Some((_, end)) ==> pos <= end <= s@.len()
}

/// Whether a text can be handed to the parsing steps.
pub open spec fn fits(s: &str) -> bool {
    s.is_ascii() && s@.len() <= MAX_PROGRAM
}

/// The length of an ASCII text.
fn length(s: &str) -> (n: usize)
    requires
        s.is_ascii(),
    ensures
        n == s@.len(),
{
    proof {
        is_ascii_spec_bytes(s);
    }
    s.as_bytes().len()
}

/// Whether the character at `pos` is `c`.
fn is_at(s: &str, pos: usize, c: char) -> (r: bool)
    requires
        s.is_ascii(),
    ensures
        r == at(s@, pos as int, c),
{
    if pos < length(s) {
        let b = s.get_ascii(pos);
        assert(s@[pos as int] <= '\u{7f}');
        b as char == c
    } else {
        false
    }
}

/// Whether `c` is an ASCII letter.
fn letter(c: char) -> (r: bool)
    ensures
        r == crate::grammar::is_letter(c),
{
    (c >= 'a' && c <= 'z') || (c >= 'A' && c <= 'Z')
}

/// Whether `c` belongs to class `kind`.
fn belongs(kind: CharClass, c: char) -> (r: bool)
    ensures
        r == in_class(kind, c),
{
    match kind {
        CharClass::Space => c == ' ',
        CharClass::Word => letter(c) || (c >= '0' && c <= '9') || c == '_',
        CharClass::Text => letter(c) || (c >= '0' && c <= '9') || c == '_' || c == ' ' || c == ','
            || c == ';' || c == '\\' || c == '.' || c == '?' || c == '!' || c == '-',
    }
}

/// The character at `pos`.
fn char_at(s: &str, pos: usize) -> (c: char)
    requires
        s.is_ascii(),
        pos < s@.len(),
    ensures
        c == s@[pos as int],
{
    let b = s.get_ascii(pos);
    assert(s@[pos as int] <= '\u{7f}');
    b as char
}

/// Skips the characters of class `kind` from `pos` on.
fn skip(s: &str, pos: usize, kind: CharClass) -> (end: usize)
    requires
        fits(s),
        pos <= s@.len(),
    ensures
        end == run_end(s@, pos as int, kind),
        pos <= end <= s@.len(),
{
    let n = length(s);
    let mut cur = pos;
    while cur < n && belongs(kind, char_at(s, cur))
        invariant
            fits(s),
            n == s@.len(),
            pos <= cur <= n,
            run_end(s@, pos as int, kind) == run_end(s@, cur as int, kind),
        decreases n - cur,
    {
        cur += 1;
    }
    cur
}

/// Finds the end of the word at `pos`.
fn word(s: &str, pos: usize) -> (end: usize)
    requires
        fits(s),
        pos <= s@.len(),
    ensures
        end == word_end(s@, pos as int),
        pos <= end <= s@.len(),
{
    if pos < length(s) && letter(char_at(s, pos)) {
        skip(s, pos + 1, CharClass::Word)
    } else {
        pos
    }
}

/// Whether the text from `from` to `to` is `word`.
fn text_is(s: &str, from: usize, to: usize, word: &str) -> (r: bool)
    requires
        fits(s),
        from <= to <= s@.len(),
    ensures
        r == (s@.subrange(from as int, to as int) == word@),
{
    let piece = String::from_str(s.substring_ascii(from, to));
    let other = String::from_str(word);
    piece == other
}

/// Whether the text from `from` to `to` is a reserved word.
fn reserved(s: &str, from: usize, to: usize) -> (r: bool)
    requires
        fits(s),
        from <= to <= s@.len(),
    ensures
        r == is_keyword(s@.subrange(from as int, to as int)),
{
    text_is(s, from, to, "all") || text_is(s, from, to, "append") || text_is(s, from, to, "as")
        || text_is(s, from, to, "change") || text_is(s, from, to, "create") || text_is(
        s,
        from,
        to,
        "default",
    ) || text_is(s, from, to, "delegation") || text_is(s, from, to, "delegator") || text_is(
        s,
        from,
        to,
        "delete",
    ) || text_is(s, from, to, "do") || text_is(s, from, to, "exit") || text_is(
        s,
        from,
        to,
        "foreach",
    ) || text_is(s, from, to, "in") || text_is(s, from, to, "local") || text_is(
        s,
        from,
        to,
        "password",
    ) || text_is(s, from, to, "principal") || text_is(s, from, to, "read") || text_is(
        s,
        from,
        to,
        "replacewith",
    ) || text_is(s, from, to, "return") || text_is(s, from, to, "set") || text_is(
        s,
        from,
        to,
        "to",
    ) || text_is(s, from, to, "write")
}

/// Reads the identifier at `pos`.
fn identifier(s: &str, pos: usize) -> (res: Option<(Identifier, usize)>)
    requires
        fits(s),
        pos <= s@.len(),
    ensures
        found(res) == ident_at(s@, pos as int),
        within(res, pos, s),
        res matches Some((_, end)) ==> pos < end,
{
    let end = word(s, pos);
    if pos < end && end - pos <= MAX_IDENTIFIER && !reserved(s, pos, end) {
        Some((Identifier { name: String::from_str(s.substring_ascii(pos, end)) }, end))
    } else {
        None
    }
}

/// Reads the string literal at `pos`.
fn string(s: &str, pos: usize) -> (res: Option<(String, usize)>)
    requires
        fits(s),
        pos <= s@.len(),
    ensures
        found(res) == string_at(s@, pos as int),
        within(res, pos, s),
{
    if !is_at(s, pos, '"') {
        return None;
    }
    let end = skip(s, pos + 1, CharClass::Text);
    if end - (pos + 1) <= MAX_STRING && is_at(s, end, '"') {
        Some((String::from_str(s.substring_ascii(pos + 1, end)), end + 1))
    } else {
        None
    }
}

/// Skips the spaces at `pos`, of which there must be one at least.
fn spaces(s: &str, pos: usize) -> (res: Option<usize>)
    requires
        fits(s),
        pos <= s@.len(),
    ensures
        reached(res) == gap(s@, pos as int),
        res matches Some(end) ==> pos < end <= s@.len(),
{
    let end = skip(s, pos, CharClass::Space);
    if pos < end {
        Some(end)
    } else {
        None
    }
}

/// Reads the word `word` at `pos` and the spaces that must follow it.
fn keyword(s: &str, pos: usize, word_text: &str) -> (res: Option<usize>)
    requires
        fits(s),
        pos <= s@.len(),
    ensures
        reached(res) == after_word(s@, pos as int, word_text@),
        res matches Some(end) ==> pos < end <= s@.len(),
{
    let end = word(s, pos);
    if text_is(s, pos, end, word_text) {
        spaces(s, end)
    } else {
        None
    }
}

/// Reads the character `c`, which may have spaces before and after it.
fn symbol(s: &str, pos: usize, c: char) -> (res: Option<usize>)
    requires
        fits(s),
        pos <= s@.len(),
    ensures
        reached(res) == after_symbol(s@, pos as int, c),
        res matches Some(end) ==> pos < end <= s@.len(),
{
    let p = skip(s, pos, CharClass::Space);
    if is_at(s, p, c) {
        Some(skip(s, p + 1, CharClass::Space))
    } else {
        None
    }
}

/// Reads the comment at `pos`.
fn comment(s: &str, pos: usize) -> (res: Option<usize>)
    requires
        fits(s),
        pos <= s@.len(),
    ensures
        reached(res) == comment_at(s@, pos as int),
        res matches Some(end) ==> pos < end <= s@.len(),
{
    if is_at(s, pos, '/') && is_at(s, pos + 1, '/') {
        Some(skip(s, pos + 2, CharClass::Text))
    } else {
        None
    }
}

/// Skips the lines at `pos` that hold a comment and nothing else.
fn skip_comment_lines(s: &str, pos: usize) -> (end: usize)
    requires
        fits(s),
        pos <= s@.len(),
    ensures
        end == comment_lines(s@, pos as int),
        pos <= end <= s@.len(),
{
    let mut cur = pos;
    loop
        invariant
            fits(s),
            pos <= cur <= s@.len(),
            comment_lines(s@, pos as int) == comment_lines(s@, cur as int),
        decreases s@.len() - cur,
    {
        match comment(s, cur) {
            Some(end) => {
                if is_at(s, end, '\n') {
                    cur = end + 1;
                } else {
                    return cur;
                }
            },
            None => {
                return cur;
            },
        }
    }
}

/// Skips the comment lines that continue a comment.
fn skip_more_comments(s: &str, pos: usize) -> (end: usize)
    requires
        fits(s),
        pos <= s@.len(),
    ensures
        end == more_comments(s@, pos as int),
        pos <= end <= s@.len(),
{
    let mut cur = pos;
    loop
        invariant
            fits(s),
            pos <= cur <= s@.len(),
            more_comments(s@, pos as int) == more_comments(s@, cur as int),
        decreases s@.len() - cur,
    {
        if !is_at(s, cur, '\n') {
            return cur;
        }
        match comment(s, cur + 1) {
            Some(end) => {
                cur = end;
            },
            None => {
                return cur;
            },
        }
    }
}

/// Skips what may follow a command on its line.
fn skip_trail(s: &str, pos: usize) -> (end: usize)
    requires
        fits(s),
        pos <= s@.len(),
    ensures
        end == trail(s@, pos as int),
        pos <= end <= s@.len(),
{
    let p = skip(s, pos, CharClass::Space);
    match comment(s, p) {
        Some(end) => skip_more_comments(s, end),
        None => p,
    }
}

/// Reads the value at `pos`.
fn value(s: &str, pos: usize) -> (res: Option<(Value, usize)>)
    requires
        fits(s),
        pos <= s@.len(),
    ensures
        found(res) == value_at(s@, pos as int),
        within(res, pos, s),
{
    proof {
        reveal_with_fuel(variable_syntax, 3);
    }
    if is_at(s, pos, '"') {
        return match string(s, pos) {
            Some((text, end)) => Some((Value::String(text), end)),
            None => None,
        };
    }
    let (name, end) = match identifier(s, pos) {
        Some(r) => r,
        None => {
            return None;
        },
    };
    let dot = skip(s, end, CharClass::Space);
    if is_at(s, dot, '.') {
        let p = skip(s, dot + 1, CharClass::Space);
        match identifier(s, p) {
            Some((field, last)) => Some(
                (
                    Value::Variable(Variable::Member(name, Box::new(Variable::Variable(field)))),
                    last,
                ),
            ),
            None => None,
        }
    } else {
        Some((Value::Variable(Variable::Variable(name)), end))
    }
}

/// Reads the field `x = v` of a record literal at `pos`.
fn field(s: &str, pos: usize) -> (res: Option<(Assignment, usize)>)
    requires
        fits(s),
        pos <= s@.len(),
    ensures
        found(res) == field_at(s@, pos as int),
        within(res, pos, s),
{
    proof {
        reveal_with_fuel(variable_syntax, 2);
        reveal_with_fuel(expr_syntax, 2);
    }
    let (name, end) = match identifier(s, pos) {
        Some(r) => r,
        None => {
            return None;
        },
    };
    let p = match symbol(s, end, '=') {
        Some(p) => p,
        None => {
            return None;
        },
    };
    match value(s, p) {
        Some((v, last)) => Some(
            (Assignment { variable: Variable::Variable(name), expr: Expr::Value(v) }, last),
        ),
        None => None,
    }
}

/// Reads the fields of a record literal from `pos` to the closing brace.
fn fields(s: &str, pos: usize) -> (res: Option<(Vec<Assignment>, usize)>)
    requires
        fits(s),
        pos <= s@.len(),
    ensures
        (match res {
            Some((list, end)) => fields_from(s@, pos as int, Seq::empty()) == Some(
                (assignments_syntax(list@), end as int),
            ) && pos <= end <= s@.len(),
            None => fields_from(s@, pos as int, Seq::empty()) is None,
        }),
{
    let mut done: Vec<Assignment> = Vec::new();
    let mut cur = pos;
    assert(assignments_syntax(done@) =~= Seq::empty());
    loop
        invariant
            fits(s),
            pos <= cur <= s@.len(),
            fields_from(s@, pos as int, Seq::empty()) == fields_from(
                s@,
                cur as int,
                assignments_syntax(done@),
            ),
        decreases s@.len() - cur,
    {
        let (item, end) = match field(s, cur) {
            Some(r) => r,
            None => {
                return None;
            },
        };
        let p = skip(s, end, CharClass::Space);
        let ghost before = assignments_syntax(done@);
        if is_at(s, p, '}') {
            done.push(item);
            assert(assignments_syntax(done@) =~= before.push(item@));
            return Some((done, p + 1));
        }
        if !is_at(s, p, ',') {
            return None;
        }
        done.push(item);
        assert(assignments_syntax(done@) =~= before.push(item@));
        cur = skip(s, p + 1, CharClass::Space);
    }
}

/// Reads the expression at `pos`.
fn expr(s: &str, pos: usize) -> (res: Option<(Expr, usize)>)
    requires
        fits(s),
        pos <= s@.len(),
    ensures
        found(res) == expr_at(s@, pos as int),
        within(res, pos, s),
{
    proof {
        reveal_with_fuel(expr_syntax, 2);
    }
    if is_at(s, pos, '[') {
        let p = skip(s, pos + 1, CharClass::Space);
        if is_at(s, p, ']') {
            Some((Expr::EmptyList, p + 1))
        } else {
            None
        }
    } else if is_at(s, pos, '{') {
        let p = skip(s, pos + 1, CharClass::Space);
        if is_at(s, p, '}') {
            let none: Vec<Assignment> = Vec::new();
            proof {
                lemma_fieldvals_syntax(none);
                assert(assignments_syntax(none@) =~= Seq::empty());
            }
            Some((Expr::FieldVals(none), p + 1))
        } else {
            match fields(s, p) {
                Some((list, end)) => {
                    proof {
                        lemma_fieldvals_syntax(list);
                    }
                    Some((Expr::FieldVals(list), end))
                },
                None => None,
            }
        }
    } else {
        match value(s, pos) {
            Some((v, end)) => Some((Expr::Value(v), end)),
            None => None,
        }
    }
}

/// A principal with the digest of a password, as two commands and the
/// first line of a program hold them.
pub struct Credentials {
    pub principal: Principal,
    pub password: [u8; 32],
}

impl View for Credentials {
    type V = PasswordSyntax;

    open spec fn view(&self) -> PasswordSyntax {
        PasswordSyntax { principal: self.principal@, password: self.password@ }
    }
}

/// Reads a principal and a password, and hashes the password.
fn credentials(s: &str, pos: usize) -> (res: Option<(Credentials, usize)>)
    requires
        fits(s),
        pos <= s@.len(),
    ensures
        found(res) == password_args(s@, pos as int),
        within(res, pos, s),
{
    let (name, end) = match identifier(s, pos) {
        Some(r) => r,
        None => {
            return None;
        },
    };
    let p = match spaces(s, end) {
        Some(p) => p,
        None => {
            return None;
        },
    };
    match string(s, p) {
        Some((text, last)) => Some(
            (Credentials { principal: Principal { ident: name }, password: hash(text) }, last),
        ),
        None => None,
    }
}

/// Reads what follows `set` or `local`.
fn assignment(s: &str, pos: usize, member: bool) -> (res: Option<(Assignment, usize)>)
    requires
        fits(s),
        pos <= s@.len(),
    ensures
        found(res) == assignment_at(s@, pos as int, member),
        within(res, pos, s),
{
    proof {
        reveal_with_fuel(variable_syntax, 3);
        reveal_with_fuel(expr_syntax, 2);
    }
    let (name, end) = match identifier(s, pos) {
        Some(r) => r,
        None => {
            return None;
        },
    };
    if member && is_at(s, end, '.') {
        let (part, e2) = match identifier(s, end + 1) {
            Some(r) => r,
            None => {
                return None;
            },
        };
        let p = match symbol(s, e2, '=') {
            Some(p) => p,
            None => {
                return None;
            },
        };
        match expr(s, p) {
            Some((e, last)) => Some(
                (
                    Assignment {
                        variable: Variable::Member(name, Box::new(Variable::Variable(part))),
                        expr: e,
                    },
                    last,
                ),
            ),
            None => None,
        }
    } else {
        let p = match symbol(s, end, '=') {
            Some(p) => p,
            None => {
                return None;
            },
        };
        match expr(s, p) {
            Some((e, last)) => Some(
                (Assignment { variable: Variable::Variable(name), expr: e }, last),
            ),
            None => None,
        }
    }
}

/// Reads what follows `append`.
fn append(s: &str, pos: usize) -> (res: Option<(Append, usize)>)
    requires
        fits(s),
        pos <= s@.len(),
    ensures
        found(res) == append_args(s@, pos as int),
        within(res, pos, s),
{
    proof {
        reveal_with_fuel(variable_syntax, 2);
    }
    let pos1 = match keyword(s, pos, "to") {
        Some(p) => p,
        None => {
            return None;
        },
    };
    let (name, end) = match identifier(s, pos1) {
        Some(r) => r,
        None => {
            return None;
        },
    };
    let pos2 = match spaces(s, end) {
        Some(p) => p,
        None => {
            return None;
        },
    };
    let pos3 = match keyword(s, pos2, "with") {
        Some(p) => p,
        None => {
            return None;
        },
    };
    match expr(s, pos3) {
        Some((e, last)) => Some((Append { variable: Variable::Variable(name), expr: e }, last)),
        None => None,
    }
}

/// Reads what follows `foreach`.
fn foreach(s: &str, pos: usize) -> (res: Option<(ForEach, usize)>)
    requires
        fits(s),
        pos <= s@.len(),
    ensures
        found(res) == foreach_args(s@, pos as int),
        within(res, pos, s),
{
    proof {
        reveal_with_fuel(variable_syntax, 2);
    }
    let (y, e1) = match identifier(s, pos) {
        Some(r) => r,
        None => {
            return None;
        },
    };
    let pos1 = match spaces(s, e1) {
        Some(p) => p,
        None => {
            return None;
        },
    };
    let pos2 = match keyword(s, pos1, "in") {
        Some(p) => p,
        None => {
            return None;
        },
    };
    let (x, e2) = match identifier(s, pos2) {
        Some(r) => r,
        None => {
            return None;
        },
    };
    let pos3 = match spaces(s, e2) {
        Some(p) => p,
        None => {
            return None;
        },
    };
    let pos4 = match keyword(s, pos3, "replacewith") {
        Some(p) => p,
        None => {
            return None;
        },
    };
    match expr(s, pos4) {
        Some((e, last)) => Some(
            (
                ForEach { value: Variable::Variable(y), list: Variable::Variable(x), expr: e },
                last,
            ),
        ),
        None => None,
    }
}

/// Reads the target at `pos`.
fn target(s: &str, pos: usize) -> (res: Option<(Target, usize)>)
    requires
        fits(s),
        pos <= s@.len(),
    ensures
        found(res) == target_at(s@, pos as int),
        within(res, pos, s),
{
    let end = word(s, pos);
    if text_is(s, pos, end, "all") {
        Some((Target::All, end))
    } else {
        match identifier(s, pos) {
            Some((name, last)) => Some((Target::Variable(name), last)),
            None => None,
        }
    }
}

/// Reads the right at `pos`.
fn right(s: &str, pos: usize) -> (res: Option<(Right, usize)>)
    requires
        fits(s),
        pos <= s@.len(),
    ensures
        (match res {
            Some((r, end)) => right_at(s@, pos as int) == Some((r, end as int)),
            None => right_at(s@, pos as int) is None,
        }),
        within(res, pos, s),
{
    let end = word(s, pos);
    if text_is(s, pos, end, "read") {
        Some((Right::Read, end))
    } else if text_is(s, pos, end, "write") {
        Some((Right::Write, end))
    } else if text_is(s, pos, end, "append") {
        Some((Right::Append, end))
    } else if text_is(s, pos, end, "delegate") {
        Some((Right::Delegate, end))
    } else {
        None
    }
}

/// Reads the arrow `->`, which may have spaces before and after it.
fn arrow(s: &str, pos: usize) -> (res: Option<usize>)
    requires
        fits(s),
        pos <= s@.len(),
    ensures
        reached(res) == after_arrow(s@, pos as int),
        res matches Some(end) ==> pos < end <= s@.len(),
{
    let p = skip(s, pos, CharClass::Space);
    if is_at(s, p, '-') && is_at(s, p + 1, '>') {
        Some(skip(s, p + 2, CharClass::Space))
    } else {
        None
    }
}

/// Reads `delegation t q r -> p`.
fn delegation(s: &str, pos: usize) -> (res: Option<(Delegation, usize)>)
    requires
        fits(s),
        pos <= s@.len(),
    ensures
        found(res) == delegation_at(s@, pos as int),
        within(res, pos, s),
{
    let pos1 = match keyword(s, pos, "delegation") {
        Some(p) => p,
        None => {
            return None;
        },
    };
    let (what, e1) = match target(s, pos1) {
        Some(r) => r,
        None => {
            return None;
        },
    };
    let pos2 = match spaces(s, e1) {
        Some(p) => p,
        None => {
            return None;
        },
    };
    let (from, e2) = match identifier(s, pos2) {
        Some(r) => r,
        None => {
            return None;
        },
    };
    let pos3 = match spaces(s, e2) {
        Some(p) => p,
        None => {
            return None;
        },
    };
    let (which, e3) = match right(s, pos3) {
        Some(r) => r,
        None => {
            return None;
        },
    };
    let pos4 = match arrow(s, e3) {
        Some(p) => p,
        None => {
            return None;
        },
    };
    match identifier(s, pos4) {
        Some((to, last)) => Some(
            (
                Delegation {
                    target: what,
                    delegator: Principal { ident: from },
                    right: which,
                    delegated: Principal { ident: to },
                },
                last,
            ),
        ),
        None => None,
    }
}

/// Reads what follows `default`.
fn default_delegator(s: &str, pos: usize) -> (res: Option<(Principal, usize)>)
    requires
        fits(s),
        pos <= s@.len(),
    ensures
        found(res) == default_args(s@, pos as int),
        within(res, pos, s),
{
    let end = word(s, pos);
    if !text_is(s, pos, end, "delegator") {
        return None;
    }
    let p = match symbol(s, end, '=') {
        Some(p) => p,
        None => {
            return None;
        },
    };
    match identifier(s, p) {
        Some((name, last)) => Some((Principal { ident: name }, last)),
        None => None,
    }
}

/// Reads the command at `pos`.
fn primitive(s: &str, pos: usize) -> (res: Option<(PrimitiveCommand, usize)>)
    requires
        fits(s),
        pos <= s@.len(),
    ensures
        found(res) == primitive_at(s@, pos as int),
        within(res, pos, s),
{
    let end = word(s, pos);
    let p = match spaces(s, end) {
        Some(p) => p,
        None => {
            return None;
        },
    };
    if text_is(s, pos, end, "create") {
        let q = match keyword(s, p, "principal") {
            Some(q) => q,
            None => {
                return None;
            },
        };
        match credentials(s, q) {
            Some((c, last)) => Some(
                (
                    PrimitiveCommand::CreatePrincipal(
                        CreatePrincipal { principal: c.principal, password: c.password },
                    ),
                    last,
                ),
            ),
            None => None,
        }
    } else if text_is(s, pos, end, "change") {
        let q = match keyword(s, p, "password") {
            Some(q) => q,
            None => {
                return None;
            },
        };
        match credentials(s, q) {
            Some((c, last)) => Some(
                (
                    PrimitiveCommand::ChangePassword(
                        ChangePassword { principal: c.principal, password: c.password },
                    ),
                    last,
                ),
            ),
            None => None,
        }
    } else if text_is(s, pos, end, "set") {
        let next = word(s, p);
        if text_is(s, p, next, "delegation") {
            match delegation(s, p) {
                Some((d, last)) => Some((PrimitiveCommand::SetDelegation(d), last)),
                None => None,
            }
        } else {
            match assignment(s, p, true) {
                Some((a, last)) => Some((PrimitiveCommand::Assignment(a), last)),
                None => None,
            }
        }
    } else if text_is(s, pos, end, "append") {
        match append(s, p) {
            Some((a, last)) => Some((PrimitiveCommand::Append(a), last)),
            None => None,
        }
    } else if text_is(s, pos, end, "local") {
        match assignment(s, p, false) {
            Some((a, last)) => Some((PrimitiveCommand::LocalAssignment(a), last)),
            None => None,
        }
    } else if text_is(s, pos, end, "foreach") {
        match foreach(s, p) {
            Some((f, last)) => Some((PrimitiveCommand::ForEach(f), last)),
            None => None,
        }
    } else if text_is(s, pos, end, "delete") {
        match delegation(s, p) {
            Some((d, last)) => Some((PrimitiveCommand::DeleteDelegation(d), last)),
            None => None,
        }
    } else if text_is(s, pos, end, "default") {
        match default_delegator(s, p) {
            Some((name, last)) => Some((PrimitiveCommand::DefaultDelegator(name), last)),
            None => None,
        }
    } else {
        None
    }
}

/// Reads the line at `pos` that holds a command.
fn line(s: &str, pos: usize) -> (res: Option<(PrimitiveCommand, usize)>)
    requires
        fits(s),
        pos <= s@.len(),
    ensures
        found(res) == line_at(s@, pos as int),
        within(res, pos, s),
{
    let p = skip(s, pos, CharClass::Space);
    match primitive(s, p) {
        Some((cmd, end)) => Some((cmd, skip_trail(s, end))),
        None => None,
    }
}

/// Reads the command lines from `pos` on.
fn lines(s: &str, pos: usize) -> (res: (Vec<PrimitiveCommand>, usize))
    requires
        fits(s),
        pos <= s@.len(),
    ensures
        lines_from(s@, pos as int, Seq::empty()) == (commands_syntax(res.0@), res.1 as int),
        pos <= res.1 <= s@.len(),
{
    let mut done: Vec<PrimitiveCommand> = Vec::new();
    let mut cur = pos;
    assert(commands_syntax(done@) =~= Seq::empty());
    loop
        invariant
            fits(s),
            pos <= cur <= s@.len(),
            lines_from(s@, pos as int, Seq::empty()) == lines_from(
                s@,
                cur as int,
                commands_syntax(done@),
            ),
        decreases s@.len() - cur,
    {
        match line(s, cur) {
            Some((cmd, end)) => {
                if is_at(s, end, '\n') {
                    let ghost before = commands_syntax(done@);
                    done.push(cmd);
                    assert(commands_syntax(done@) =~= before.push(cmd@));
                    cur = end + 1;
                } else {
                    return (done, cur);
                }
            },
            None => {
                return (done, cur);
            },
        }
    }
}

/// Reads the line at `pos` that ends the program.
fn terminator(s: &str, pos: usize) -> (res: Option<(TerminatorCommand, usize)>)
    requires
        fits(s),
        pos <= s@.len(),
    ensures
        found(res) == terminator_at(s@, pos as int),
        within(res, pos, s),
{
    let p = skip(s, pos, CharClass::Space);
    let end = word(s, p);
    if text_is(s, p, end, "exit") {
        Some((TerminatorCommand::Exit, skip_trail(s, end)))
    } else {
        let q = match keyword(s, p, "return") {
            Some(q) => q,
            None => {
                return None;
            },
        };
        match expr(s, q) {
            Some((e, last)) => Some((TerminatorCommand::Return(e), skip_trail(s, last))),
            None => None,
        }
    }
}

/// Reads the first line of a program.
fn header(s: &str, pos: usize) -> (res: Option<(Credentials, usize)>)
    requires
        fits(s),
        pos <= s@.len(),
    ensures
        found(res) == header_at(s@, pos as int),
        within(res, pos, s),
{
    let pos0 = skip(s, pos, CharClass::Space);
    let pos1 = match keyword(s, pos0, "as") {
        Some(p) => p,
        None => {
            return None;
        },
    };
    let pos2 = match keyword(s, pos1, "principal") {
        Some(p) => p,
        None => {
            return None;
        },
    };
    let (name, e1) = match identifier(s, pos2) {
        Some(r) => r,
        None => {
            return None;
        },
    };
    let pos3 = match spaces(s, e1) {
        Some(p) => p,
        None => {
            return None;
        },
    };
    let pos4 = match keyword(s, pos3, "password") {
        Some(p) => p,
        None => {
            return None;
        },
    };
    let (text, e2) = match string(s, pos4) {
        Some(r) => r,
        None => {
            return None;
        },
    };
    let pos5 = match spaces(s, e2) {
        Some(p) => p,
        None => {
            return None;
        },
    };
    let e3 = word(s, pos5);
    if !text_is(s, pos5, e3, "do") {
        return None;
    }
    let pos6 = skip(s, e3, CharClass::Space);
    let pos7 = match comment(s, pos6) {
        Some(end) => end,
        None => pos6,
    };
    if is_at(s, pos7, '\n') {
        Some((Credentials { principal: Principal { ident: name }, password: hash(text) }, pos7 + 1))
    } else {
        None
    }
}

/// Whether the text from `pos` to its end is the last line of a program.
fn closing(s: &str, pos: usize) -> (res: bool)
    requires
        fits(s),
        pos <= s@.len(),
    ensures
        res == closing_at(s@, pos as int),
{
    let p = skip(s, pos, CharClass::Space);
    if is_at(s, p, '*') && is_at(s, p + 1, '*') && is_at(s, p + 2, '*') {
        skip_trail(s, p + 3) == length(s)
    } else {
        false
    }
}

/// Reads a text that is ASCII and at most 1,000,000 bytes long.
fn program(s: &str) -> (res: Option<Program>)
    requires
        fits(s),
    ensures
        (match res {
            Some(p) => program_of(s@) == Some(p@),
            None => program_of(s@) is None,
        }),
{
    let start = skip_comment_lines(s, 0);
    let (login, pos1) = match header(s, start) {
        Some(r) => r,
        None => {
            return None;
        },
    };
    let body = skip_comment_lines(s, pos1);
    let (commands, pos2) = lines(s, body);
    let (last, pos3) = match terminator(s, pos2) {
        Some(r) => r,
        None => {
            return None;
        },
    };
    if is_at(s, pos3, '\n') && closing(s, pos3 + 1) {
        Some(
            Program {
                principal: login.principal,
                password: login.password,
                commands: commands,
                terminator: last,
            },
        )
    } else {
        None
    }
}

/// Reads a program. A text that is longer than 1,000,000 bytes or not ASCII
/// is refused as invalid data; any other text is read by the grammar, and
/// gives the syntax tree that the grammar states, or a syntax error where
/// it is no program. Passwords are hashed as they are read.
pub fn parse(program: String) -> (res: Result<Program, ParseError>)
    ensures
        (match res {
            Ok(p) => readable(program@) && program_of(program@) == Some(p@),
            Err(ParseError::InvalidData) => !readable(program@),
            Err(ParseError::Syntax) => readable(program@) && program_of(program@) is None,
        }),
{
    let s = program.as_str();
    if !s.is_ascii() || length(s) > MAX_PROGRAM {
        return Err(ParseError::InvalidData);
    }
    match self::program(s) {
        Some(p) => Ok(p),
        None => Err(ParseError::Syntax),
    }
}

} // verus!
