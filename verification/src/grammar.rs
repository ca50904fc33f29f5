//! The grammar of programs, stated on sequences of characters: which texts
//! are programs, and which syntax tree each of them has.

use crate::types::{
    AppendSyntax, AssignmentSyntax, DelegationSyntax, ExprSyntax, ForEachSyntax, PasswordSyntax,
    PrimitiveSyntax, ProgramSyntax, Right, TargetSyntax, TerminatorSyntax, ValueSyntax,
    VariableSyntax,
};
use crate::util::blake2s_digest;
use vstd::prelude::*;

verus! {

/// The longest program that is read, in bytes.
pub const MAX_PROGRAM: usize = 1000000;

/// The longest identifier, in characters.
pub const MAX_IDENTIFIER: usize = 254;

/// The longest string literal, in characters between the quotes.
pub const MAX_STRING: usize = 65535;

/// The classes of characters that tokens are made of.
#[derive(Clone, Copy, Debug, PartialEq, Eq, Structural)]
pub enum CharClass {
    /// The space, U+0020.
    Space,
    /// Letters, digits and the underscore: what follows the first letter of
    /// an identifier.
    Word,
    /// The characters of string literals and comments.
    Text,
}

/// Whether `c` is an ASCII letter.
pub open spec fn is_letter(c: char) -> bool {
    ('a' <= c && c <= 'z') || ('A' <= c && c <= 'Z')
}

/// Whether `c` is an ASCII digit.
pub open spec fn is_digit(c: char) -> bool {
    '0' <= c && c <= '9'
}

/// Whether `c` belongs to class `kind`.
pub open spec fn in_class(kind: CharClass, c: char) -> bool {
    match kind {
        CharClass::Space => c == ' ',
        CharClass::Word => is_letter(c) || is_digit(c) || c == '_',
        CharClass::Text => is_letter(c) || is_digit(c) || c == '_' || c == ' ' || c == ','
            || c == ';' || c == '\\' || c == '.' || c == '?' || c == '!' || c == '-',
    }
}

/// Whether the character at `pos` is `c`.
pub open spec fn at(s: Seq<char>, pos: int, c: char) -> bool {
    0 <= pos < s.len() && s[pos] == c
}

/// The end of the longest run of characters of class `kind` that starts at
/// `pos`.
pub open spec fn run_end(s: Seq<char>, pos: int, kind: CharClass) -> int
    decreases s.len() - pos,
{
    if 0 <= pos < s.len() && in_class(kind, s[pos]) {
        run_end(s, pos + 1, kind)
    } else {
        pos
    }
}

/// The end of the word that starts at `pos`: a letter, then letters, digits
/// and underscores. Where no letter stands at `pos`, the word is empty.
pub open spec fn word_end(s: Seq<char>, pos: int) -> int {
    if 0 <= pos < s.len() && is_letter(s[pos]) {
        run_end(s, pos + 1, CharClass::Word)
    } else {
        pos
    }
}

/// The word that starts at `pos`.
pub open spec fn word_at(s: Seq<char>, pos: int) -> Seq<char> {
    s.subrange(pos, word_end(s, pos))
}

/// Whether `w` is a reserved word.
pub open spec fn is_keyword(w: Seq<char>) -> bool {
    w == "all"@ || w == "append"@ || w == "as"@ || w == "change"@ || w == "create"@ || w
        == "default"@ || w == "delegation"@ || w == "delegator"@ || w == "delete"@ || w == "do"@
        || w == "exit"@ || w == "foreach"@ || w == "in"@ || w == "local"@ || w == "password"@ || w
        == "principal"@ || w == "read"@ || w == "replacewith"@ || w == "return"@ || w == "set"@
        || w == "to"@ || w == "write"@
}

/// The identifier at `pos` and its end: a word of at most 254 characters
/// that is not reserved.
pub open spec fn ident_at(s: Seq<char>, pos: int) -> Option<(Seq<char>, int)> {
    let end = word_end(s, pos);
    if pos < end && end - pos <= MAX_IDENTIFIER && !is_keyword(word_at(s, pos)) {
        Some((word_at(s, pos), end))
    } else {
        None
    }
}

/// The string literal at `pos` and its end: a quote, at most 65,535
/// characters of the text class, a quote.
pub open spec fn string_at(s: Seq<char>, pos: int) -> Option<(Seq<char>, int)> {
    let end = run_end(s, pos + 1, CharClass::Text);
    if at(s, pos, '"') && end - (pos + 1) <= MAX_STRING && at(s, end, '"') {
        Some((s.subrange(pos + 1, end), end + 1))
    } else {
        None
    }
}

/// The end of the spaces at `pos`, of which there must be one at least.
pub open spec fn gap(s: Seq<char>, pos: int) -> Option<int> {
    let end = run_end(s, pos, CharClass::Space);
    if pos < end {
        Some(end)
    } else {
        None
    }
}

/// The position after the word `word` at `pos` and the spaces that must
/// follow it.
pub open spec fn after_word(s: Seq<char>, pos: int, word: Seq<char>) -> Option<int> {
    if word_at(s, pos) == word {
        gap(s, word_end(s, pos))
    } else {
        None
    }
}

/// The position after the character `c`, which may have spaces before and
/// after it.
pub open spec fn after_symbol(s: Seq<char>, pos: int, c: char) -> Option<int> {
    let p = run_end(s, pos, CharClass::Space);
    if at(s, p, c) {
        Some(run_end(s, p + 1, CharClass::Space))
    } else {
        None
    }
}

/// The end of the comment at `pos`: two slashes and the text that follows.
pub open spec fn comment_at(s: Seq<char>, pos: int) -> Option<int> {
    if at(s, pos, '/') && at(s, pos + 1, '/') {
        Some(run_end(s, pos + 2, CharClass::Text))
    } else {
        None
    }
}

/// The position after the lines at `pos` that hold a comment and nothing
/// else.
pub open spec fn comment_lines(s: Seq<char>, pos: int) -> int
    decreases s.len() - pos,
{
    match comment_at(s, pos) {
        Some(end) => if at(s, end, '\n') && pos <= end {
            comment_lines(s, end + 1)
        } else {
            pos
        },
        None => pos,
    }
}

/// The position after the comment lines that continue a comment: each a
/// line break with a comment right behind it.
pub open spec fn more_comments(s: Seq<char>, pos: int) -> int
    decreases s.len() - pos,
{
    if at(s, pos, '\n') {
        match comment_at(s, pos + 1) {
            Some(end) => if pos < end <= s.len() {
                more_comments(s, end)
            } else {
                pos
            },
            None => pos,
        }
    } else {
        pos
    }
}

/// The position after what may follow a command on its line: spaces, then
/// a comment and the comment lines that continue it.
pub open spec fn trail(s: Seq<char>, pos: int) -> int {
    let p = run_end(s, pos, CharClass::Space);
    match comment_at(s, p) {
        Some(end) => more_comments(s, end),
        None => p,
    }
}

/// The value at `pos`: a string literal, a variable `x` or a field `x.y`.
pub open spec fn value_at(s: Seq<char>, pos: int) -> Option<(ValueSyntax, int)> {
    if at(s, pos, '"') {
        match string_at(s, pos) {
            Some((text, end)) => Some((ValueSyntax::String(text), end)),
            None => None,
        }
    } else {
        match ident_at(s, pos) {
            None => None,
            Some((name, end)) => {
                let dot = run_end(s, end, CharClass::Space);
                if at(s, dot, '.') {
                    match ident_at(s, run_end(s, dot + 1, CharClass::Space)) {
                        Some((field, last)) => Some(
                            (
                                ValueSyntax::Variable(
                                    VariableSyntax::Member(
                                        name,
                                        Box::new(VariableSyntax::Variable(field)),
                                    ),
                                ),
                                last,
                            ),
                        ),
                        None => None,
                    }
                } else {
                    Some((ValueSyntax::Variable(VariableSyntax::Variable(name)), end))
                }
            },
        }
    }
}

/// The field `x = v` of a record literal at `pos`.
pub open spec fn field_at(s: Seq<char>, pos: int) -> Option<(AssignmentSyntax, int)> {
    match ident_at(s, pos) {
        None => None,
        Some((name, end)) => match after_symbol(s, end, '=') {
            None => None,
            Some(p) => match value_at(s, p) {
                None => None,
                Some((v, last)) => Some(
                    (
                        AssignmentSyntax {
                            variable: VariableSyntax::Variable(name),
                            expr: ExprSyntax::Value(v),
                        },
                        last,
                    ),
                ),
            },
        },
    }
}

/// The fields of a record literal from `pos` to the closing brace, after
/// those in `done`: fields with commas between them.
pub open spec fn fields_from(s: Seq<char>, pos: int, done: Seq<AssignmentSyntax>) -> Option<
    (Seq<AssignmentSyntax>, int),
>
    decreases s.len() - pos,
{
    match field_at(s, pos) {
        None => None,
        Some((field, end)) => {
            let p = run_end(s, end, CharClass::Space);
            let next = run_end(s, p + 1, CharClass::Space);
            if at(s, p, '}') {
                Some((done.push(field), p + 1))
            } else if at(s, p, ',') && pos < next <= s.len() {
                fields_from(s, next, done.push(field))
            } else {
                None
            }
        },
    }
}

/// The expression at `pos`: `[]`, a record literal, or a value.
pub open spec fn expr_at(s: Seq<char>, pos: int) -> Option<(ExprSyntax, int)> {
    if at(s, pos, '[') {
        let p = run_end(s, pos + 1, CharClass::Space);
        if at(s, p, ']') {
            Some((ExprSyntax::EmptyList, p + 1))
        } else {
            None
        }
    } else if at(s, pos, '{') {
        let p = run_end(s, pos + 1, CharClass::Space);
        if at(s, p, '}') {
            Some((ExprSyntax::FieldVals(Seq::empty()), p + 1))
        } else {
            match fields_from(s, p, Seq::empty()) {
                Some((fields, end)) => Some((ExprSyntax::FieldVals(fields), end)),
                None => None,
            }
        }
    } else {
        match value_at(s, pos) {
            Some((v, end)) => Some((ExprSyntax::Value(v), end)),
            None => None,
        }
    }
}

/// A principal and a password, as `create principal` and `change password`
/// take them; the password is kept as its digest.
pub open spec fn password_args(s: Seq<char>, pos: int) -> Option<(PasswordSyntax, int)> {
    match ident_at(s, pos) {
        None => None,
        Some((name, end)) => match gap(s, end) {
            None => None,
            Some(p) => match string_at(s, p) {
                None => None,
                Some((text, last)) => Some(
                    (PasswordSyntax { principal: name, password: blake2s_digest(text) }, last),
                ),
            },
        },
    }
}

/// What follows `set` or `local`: `x = e`, or `x.y = e` where `member` says
/// that a field may be written.
pub open spec fn assignment_at(s: Seq<char>, pos: int, member: bool) -> Option<
    (AssignmentSyntax, int),
> {
    match ident_at(s, pos) {
        None => None,
        Some((name, end)) => if member && at(s, end, '.') {
            match ident_at(s, end + 1) {
                None => None,
                Some((field, e2)) => match after_symbol(s, e2, '=') {
                    None => None,
                    Some(p) => match expr_at(s, p) {
                        None => None,
                        Some((e, last)) => Some(
                            (
                                AssignmentSyntax {
                                    variable: VariableSyntax::Member(
                                        name,
                                        Box::new(VariableSyntax::Variable(field)),
                                    ),
                                    expr: e,
                                },
                                last,
                            ),
                        ),
                    },
                },
            }
        } else {
            match after_symbol(s, end, '=') {
                None => None,
                Some(p) => match expr_at(s, p) {
                    None => None,
                    Some((e, last)) => Some(
                        (
                            AssignmentSyntax {
                                variable: VariableSyntax::Variable(name),
                                expr: e,
                            },
                            last,
                        ),
                    ),
                },
            }
        },
    }
}

/// What follows `append`: `to x with e`.
pub open spec fn append_args(s: Seq<char>, pos: int) -> Option<(AppendSyntax, int)> {
    match after_word(s, pos, "to"@) {
        None => None,
        Some(pos1) => match ident_at(s, pos1) {
            None => None,
            Some((name, end)) => match gap(s, end) {
                None => None,
                Some(pos2) => match after_word(s, pos2, "with"@) {
                    None => None,
                    Some(pos3) => match expr_at(s, pos3) {
                        None => None,
                        Some((e, last)) => Some(
                            (
                                AppendSyntax { variable: VariableSyntax::Variable(name), expr: e },
                                last,
                            ),
                        ),
                    },
                },
            },
        },
    }
}

/// What follows `foreach`: `y in x replacewith e`.
pub open spec fn foreach_args(s: Seq<char>, pos: int) -> Option<(ForEachSyntax, int)> {
    match ident_at(s, pos) {
        None => None,
        Some((y, e1)) => match gap(s, e1) {
            None => None,
            Some(pos1) => match after_word(s, pos1, "in"@) {
                None => None,
                Some(pos2) => match ident_at(s, pos2) {
                    None => None,
                    Some((x, e2)) => match gap(s, e2) {
                        None => None,
                        Some(pos3) => match after_word(s, pos3, "replacewith"@) {
                            None => None,
                            Some(pos4) => match expr_at(s, pos4) {
                                None => None,
                                Some((e, last)) => Some(
                                    (
                                        ForEachSyntax {
                                            value: VariableSyntax::Variable(y),
                                            list: VariableSyntax::Variable(x),
                                            expr: e,
                                        },
                                        last,
                                    ),
                                ),
                            },
                        },
                    },
                },
            },
        },
    }
}

/// The target at `pos`: the word `all`, or an identifier.
pub open spec fn target_at(s: Seq<char>, pos: int) -> Option<(TargetSyntax, int)> {
    if word_at(s, pos) == "all"@ {
        Some((TargetSyntax::All, word_end(s, pos)))
    } else {
        match ident_at(s, pos) {
            Some((name, end)) => Some((TargetSyntax::Variable(name), end)),
            None => None,
        }
    }
}

/// The right at `pos`: one of the four words.
pub open spec fn right_at(s: Seq<char>, pos: int) -> Option<(Right, int)> {
    let w = word_at(s, pos);
    let end = word_end(s, pos);
    if w == "read"@ {
        Some((Right::Read, end))
    } else if w == "write"@ {
        Some((Right::Write, end))
    } else if w == "append"@ {
        Some((Right::Append, end))
    } else if w == "delegate"@ {
        Some((Right::Delegate, end))
    } else {
        None
    }
}

/// The position after the arrow `->` at `pos`, which may have spaces before
/// and after it.
pub open spec fn after_arrow(s: Seq<char>, pos: int) -> Option<int> {
    let p = run_end(s, pos, CharClass::Space);
    if at(s, p, '-') && at(s, p + 1, '>') {
        Some(run_end(s, p + 2, CharClass::Space))
    } else {
        None
    }
}

/// What follows `set` or `delete` in a delegation command:
/// `delegation t q r -> p`.
pub open spec fn delegation_at(s: Seq<char>, pos: int) -> Option<(DelegationSyntax, int)> {
    match after_word(s, pos, "delegation"@) {
        None => None,
        Some(pos1) => match target_at(s, pos1) {
            None => None,
            Some((target, e1)) => match gap(s, e1) {
                None => None,
                Some(pos2) => match ident_at(s, pos2) {
                    None => None,
                    Some((delegator, e2)) => match gap(s, e2) {
                        None => None,
                        Some(pos3) => match right_at(s, pos3) {
                            None => None,
                            Some((right, e3)) => match after_arrow(s, e3) {
                                None => None,
                                Some(pos4) => match ident_at(s, pos4) {
                                    None => None,
                                    Some((delegated, last)) => Some(
                                        (
                                            DelegationSyntax {
                                                target: target,
                                                delegator: delegator,
                                                right: right,
                                                delegated: delegated,
                                            },
                                            last,
                                        ),
                                    ),
                                },
                            },
                        },
                    },
                },
            },
        },
    }
}

/// What follows `default`: `delegator = p`.
pub open spec fn default_args(s: Seq<char>, pos: int) -> Option<(Seq<char>, int)> {
    if word_at(s, pos) == "delegator"@ {
        match after_symbol(s, word_end(s, pos), '=') {
            None => None,
            Some(p) => ident_at(s, p),
        }
    } else {
        None
    }
}

/// The command at `pos`. Its first word, with spaces behind it, says which
/// command it is.
pub open spec fn primitive_at(s: Seq<char>, pos: int) -> Option<(PrimitiveSyntax, int)> {
    let w = word_at(s, pos);
    match gap(s, word_end(s, pos)) {
        None => None,
        Some(p) => if w == "create"@ {
            match after_word(s, p, "principal"@) {
                None => None,
                Some(q) => match password_args(s, q) {
                    Some((c, end)) => Some((PrimitiveSyntax::CreatePrincipal(c), end)),
                    None => None,
                },
            }
        } else if w == "change"@ {
            match after_word(s, p, "password"@) {
                None => None,
                Some(q) => match password_args(s, q) {
                    Some((c, end)) => Some((PrimitiveSyntax::ChangePassword(c), end)),
                    None => None,
                },
            }
        } else if w == "set"@ {
            if word_at(s, p) == "delegation"@ {
                match delegation_at(s, p) {
                    Some((d, end)) => Some((PrimitiveSyntax::SetDelegation(d), end)),
                    None => None,
                }
            } else {
                match assignment_at(s, p, true) {
                    Some((a, end)) => Some((PrimitiveSyntax::Assignment(a), end)),
                    None => None,
                }
            }
        } else if w == "append"@ {
            match append_args(s, p) {
                Some((a, end)) => Some((PrimitiveSyntax::Append(a), end)),
                None => None,
            }
        } else if w == "local"@ {
            match assignment_at(s, p, false) {
                Some((a, end)) => Some((PrimitiveSyntax::LocalAssignment(a), end)),
                None => None,
            }
        } else if w == "foreach"@ {
            match foreach_args(s, p) {
                Some((f, end)) => Some((PrimitiveSyntax::ForEach(f), end)),
                None => None,
            }
        } else if w == "delete"@ {
            match delegation_at(s, p) {
                Some((d, end)) => Some((PrimitiveSyntax::DeleteDelegation(d), end)),
                None => None,
            }
        } else if w == "default"@ {
            match default_args(s, p) {
                Some((name, end)) => Some((PrimitiveSyntax::DefaultDelegator(name), end)),
                None => None,
            }
        } else {
            None
        },
    }
}

/// The line at `pos` that holds a command: spaces, the command, and what
/// may follow it.
pub open spec fn line_at(s: Seq<char>, pos: int) -> Option<(PrimitiveSyntax, int)> {
    match primitive_at(s, run_end(s, pos, CharClass::Space)) {
        Some((cmd, end)) => Some((cmd, trail(s, end))),
        None => None,
    }
}

/// The commands of the lines from `pos` on, after those in `done`, and the
/// position where the first line stands that holds no command.
pub open spec fn lines_from(s: Seq<char>, pos: int, done: Seq<PrimitiveSyntax>) -> (
    Seq<PrimitiveSyntax>,
    int,
)
    decreases s.len() - pos,
{
    match line_at(s, pos) {
        Some((cmd, end)) => if at(s, end, '\n') && pos <= end {
            lines_from(s, end + 1, done.push(cmd))
        } else {
            (done, pos)
        },
        None => (done, pos),
    }
}

/// The line at `pos` that ends the program: `exit`, or `return e`.
pub open spec fn terminator_at(s: Seq<char>, pos: int) -> Option<(TerminatorSyntax, int)> {
    let p = run_end(s, pos, CharClass::Space);
    if word_at(s, p) == "exit"@ {
        Some((TerminatorSyntax::Exit, trail(s, word_end(s, p))))
    } else {
        match after_word(s, p, "return"@) {
            None => None,
            Some(q) => match expr_at(s, q) {
                Some((e, end)) => Some((TerminatorSyntax::Return(e), trail(s, end))),
                None => None,
            },
        }
    }
}

/// The first line of a program from `pos` on:
/// `as principal p password s do`, with the principal, the digest of the
/// password, and the position after the line break.
pub open spec fn header_at(s: Seq<char>, pos: int) -> Option<(PasswordSyntax, int)> {
    match after_word(s, run_end(s, pos, CharClass::Space), "as"@) {
        None => None,
        Some(pos1) => match after_word(s, pos1, "principal"@) {
            None => None,
            Some(pos2) => match ident_at(s, pos2) {
                None => None,
                Some((name, e1)) => match gap(s, e1) {
                    None => None,
                    Some(pos3) => match after_word(s, pos3, "password"@) {
                        None => None,
                        Some(pos4) => match string_at(s, pos4) {
                            None => None,
                            Some((text, e2)) => match gap(s, e2) {
                                None => None,
                                Some(pos5) => {
                                    let pos6 = run_end(s, word_end(s, pos5), CharClass::Space);
                                    let pos7 = match comment_at(s, pos6) {
                                        Some(end) => end,
                                        None => pos6,
                                    };
                                    if word_at(s, pos5) == "do"@ && at(s, pos7, '\n') {
                                        Some(
                                            (
                                                PasswordSyntax {
                                                    principal: name,
                                                    password: blake2s_digest(text),
                                                },
                                                pos7 + 1,
                                            ),
                                        )
                                    } else {
                                        None
                                    }
                                },
                            },
                        },
                    },
                },
            },
        },
    }
}

/// Whether the text from `pos` to its end is the last line of a program:
/// spaces, three stars, and what may follow a command.
pub open spec fn closing_at(s: Seq<char>, pos: int) -> bool {
    let p = run_end(s, pos, CharClass::Space);
    at(s, p, '*') && at(s, p + 1, '*') && at(s, p + 2, '*') && trail(s, p + 3) == s.len()
}

/// The syntax tree of the program `s`, where `s` is one: comment lines, the
/// first line, comment lines, the command lines, the terminator, the
/// closing line.
pub open spec fn program_of(s: Seq<char>) -> Option<ProgramSyntax> {
    match header_at(s, comment_lines(s, 0)) {
        None => None,
        Some((login, pos1)) => {
            let (commands, pos2) = lines_from(s, comment_lines(s, pos1), Seq::empty());
            match terminator_at(s, pos2) {
                None => None,
                Some((terminator, pos3)) => if at(s, pos3, '\n') && closing_at(s, pos3 + 1) {
                    Some(
                        ProgramSyntax {
                            principal: login.principal,
                            password: login.password,
                            commands: commands,
                            terminator: terminator,
                        },
                    )
                } else {
                    None
                },
            }
        },
    }
}

/// Whether a text is read at all: ASCII, and at most 1,000,000 bytes.
pub open spec fn readable(s: Seq<char>) -> bool {
    vstd::utf8::is_ascii_chars(s) && s.len() <= MAX_PROGRAM
}

} // verus!
