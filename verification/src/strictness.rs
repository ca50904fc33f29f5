//! Parse strictness: whatever the grammar reads as a program holds only
//! identifiers and string literals that keep the lexical rules.

use crate::grammar::{
    after_word, append_args, assignment_at, at, comment_at, default_args, delegation_at, expr_at,
    field_at, fields_from, foreach_args, gap, header_at, ident_at, in_class, is_keyword, is_letter,
    line_at, lines_from, password_args, primitive_at, program_of, run_end, string_at, target_at,
    terminator_at, value_at, word_at, word_end, CharClass, MAX_IDENTIFIER, MAX_STRING,
};
use crate::types::{
    AssignmentSyntax, DelegationSyntax, ExprSyntax, PrimitiveSyntax, ProgramSyntax, TargetSyntax,
    TerminatorSyntax, ValueSyntax, VariableSyntax,
};
use vstd::prelude::*;

verus! {

/// A run of characters of one class ends at the first character that is not
/// of that class, or at the end of the text.
pub proof fn lemma_run_end(s: Seq<char>, pos: int, kind: CharClass)
    requires
        0 <= pos <= s.len(),
    ensures
        pos <= run_end(s, pos, kind) <= s.len(),
        forall|i: int| pos <= i < run_end(s, pos, kind) ==> in_class(kind, #[trigger] s[i]),
        run_end(s, pos, kind) < s.len() ==> !in_class(kind, s[run_end(s, pos, kind)]),
    decreases s.len() - pos,
{
    if pos < s.len() && in_class(kind, s[pos]) {
        lemma_run_end(s, pos + 1, kind);
    }
}

/// Identifiers are strict: what is read as an identifier starts with a
/// letter, goes on with letters, digits and underscores as far as they
/// reach, has at most 254 characters and is no reserved word. So a longer
/// word and a reserved word are never read as identifiers.
pub proof fn law_identifier_strict(s: Seq<char>, pos: int)
    ensures
        word_end(s, pos) - pos > MAX_IDENTIFIER ==> ident_at(s, pos) is None,
        is_keyword(word_at(s, pos)) ==> ident_at(s, pos) is None,
        ident_at(s, pos) matches Some((name, end)) ==> ({
            &&& name == s.subrange(pos, end)
            &&& 1 <= name.len() <= MAX_IDENTIFIER
            &&& !is_keyword(name)
            &&& is_letter(name[0])
            &&& forall|i: int| 0 <= i < name.len() ==> in_class(CharClass::Word, #[trigger] name[i])
            &&& (end < s.len() ==> !in_class(CharClass::Word, s[end]))
        }),
{
    if 0 <= pos < s.len() && is_letter(s[pos]) {
        lemma_run_end(s, pos + 1, CharClass::Word);
    }
}

/// String literals are strict: what is read as a string literal stands
/// between two quotes, has at most 65,535 characters, and holds characters
/// of the text class only. So a longer text between quotes, and one that
/// holds another character before the closing quote, is never read as a
/// string literal.
pub proof fn law_string_strict(s: Seq<char>, pos: int)
    ensures
        run_end(s, pos + 1, CharClass::Text) - (pos + 1) > MAX_STRING ==> string_at(s, pos) is None,
        !at(s, run_end(s, pos + 1, CharClass::Text), '"') ==> string_at(s, pos) is None,
        string_at(s, pos) matches Some((text, end)) ==> ({
            &&& at(s, pos, '"')
            &&& at(s, end - 1, '"')
            &&& text == s.subrange(pos + 1, end - 1)
            &&& text.len() <= MAX_STRING
            &&& forall|i: int| 0 <= i < text.len() ==> in_class(CharClass::Text, #[trigger] text[i])
        }),
{
    if 0 <= pos < s.len() {
        lemma_run_end(s, pos + 1, CharClass::Text);
    }
}

/// Comments are strict: a comment is two slashes and characters of the text
/// class, and it ends where the first other character stands.
pub proof fn law_comment_strict(s: Seq<char>, pos: int)
    ensures
        comment_at(s, pos) matches Some(end) ==> ({
            &&& pos + 2 <= end <= s.len()
            &&& forall|i: int| pos + 2 <= i < end ==> in_class(CharClass::Text, #[trigger] s[i])
            &&& (end < s.len() ==> !in_class(CharClass::Text, s[end]))
        }),
{
    if at(s, pos, '/') && at(s, pos + 1, '/') {
        lemma_run_end(s, pos + 2, CharClass::Text);
    }
}

/// Whether `w` is an identifier: a letter, then letters, digits and
/// underscores, at most 254 characters in all, and no reserved word.
pub open spec fn identifier_ok(w: Seq<char>) -> bool {
    &&& 1 <= w.len() <= MAX_IDENTIFIER
    &&& is_letter(w[0])
    &&& forall|i: int| 0 <= i < w.len() ==> in_class(CharClass::Word, #[trigger] w[i])
    &&& !is_keyword(w)
}

/// Whether `t` can stand between the quotes of a string literal: at most
/// 65,535 characters, each of the text class.
pub open spec fn string_ok(t: Seq<char>) -> bool {
    &&& t.len() <= MAX_STRING
    &&& forall|i: int| 0 <= i < t.len() ==> in_class(CharClass::Text, #[trigger] t[i])
}

/// Whether a variable reference is `x` or `x.y`, of identifiers.
pub open spec fn variable_ok(v: VariableSyntax) -> bool {
    match v {
        VariableSyntax::Variable(name) => identifier_ok(name),
        VariableSyntax::Member(name, rest) => identifier_ok(name) && match *rest {
            VariableSyntax::Variable(field) => identifier_ok(field),
            VariableSyntax::Member(_, _) => false,
        },
    }
}

/// Whether a variable reference is a plain identifier.
pub open spec fn plain_ok(v: VariableSyntax) -> bool {
    v matches VariableSyntax::Variable(name) && identifier_ok(name)
}

/// Whether a value keeps the lexical rules.
pub open spec fn value_ok(v: ValueSyntax) -> bool {
    match v {
        ValueSyntax::String(text) => string_ok(text),
        ValueSyntax::Variable(x) => variable_ok(x),
    }
}

/// Whether a field of a record literal is `x = v`, with `v` a value.
pub open spec fn field_ok(a: AssignmentSyntax) -> bool {
    plain_ok(a.variable) && (a.expr matches ExprSyntax::Value(v) && value_ok(v))
}

/// Whether an expression keeps the lexical rules, and holds no record or
/// list inside a record literal.
pub open spec fn expr_ok(e: ExprSyntax) -> bool {
    match e {
        ExprSyntax::Value(v) => value_ok(v),
        ExprSyntax::EmptyList => true,
        ExprSyntax::FieldVals(fields) => forall|i: int|
            0 <= i < fields.len() ==> field_ok(#[trigger] fields[i]),
    }
}

/// Whether a target keeps the lexical rules.
pub open spec fn target_ok(t: TargetSyntax) -> bool {
    match t {
        TargetSyntax::All => true,
        TargetSyntax::Variable(name) => identifier_ok(name),
    }
}

/// Whether a delegation keeps the lexical rules.
pub open spec fn delegation_ok(d: DelegationSyntax) -> bool {
    target_ok(d.target) && identifier_ok(d.delegator) && identifier_ok(d.delegated)
}

/// Whether a command keeps the lexical rules.
pub open spec fn primitive_ok(c: PrimitiveSyntax) -> bool {
    match c {
        PrimitiveSyntax::CreatePrincipal(c) => identifier_ok(c.principal),
        PrimitiveSyntax::ChangePassword(c) => identifier_ok(c.principal),
        PrimitiveSyntax::Assignment(a) => variable_ok(a.variable) && expr_ok(a.expr),
        PrimitiveSyntax::Append(a) => plain_ok(a.variable) && expr_ok(a.expr),
        PrimitiveSyntax::LocalAssignment(a) => plain_ok(a.variable) && expr_ok(a.expr),
        PrimitiveSyntax::ForEach(f) => plain_ok(f.value) && plain_ok(f.list) && expr_ok(f.expr),
        PrimitiveSyntax::SetDelegation(d) => delegation_ok(d),
        PrimitiveSyntax::DeleteDelegation(d) => delegation_ok(d),
        PrimitiveSyntax::DefaultDelegator(p) => identifier_ok(p),
    }
}

/// Whether a terminator keeps the lexical rules.
pub open spec fn terminator_ok(t: TerminatorSyntax) -> bool {
    match t {
        TerminatorSyntax::Exit => true,
        TerminatorSyntax::Return(e) => expr_ok(e),
    }
}

/// Whether a program keeps the lexical rules throughout.
pub open spec fn program_ok(p: ProgramSyntax) -> bool {
    &&& identifier_ok(p.principal)
    &&& forall|i: int| 0 <= i < p.commands.len() ==> primitive_ok(#[trigger] p.commands[i])
    &&& terminator_ok(p.terminator)
}

/// What is read as an identifier is one.
pub proof fn lemma_identifier_ok(s: Seq<char>, pos: int)
    ensures
        ident_at(s, pos) matches Some((name, _)) ==> identifier_ok(name),
{
    law_identifier_strict(s, pos);
}

/// What is read as a string literal is one.
pub proof fn lemma_string_ok(s: Seq<char>, pos: int)
    ensures
        string_at(s, pos) matches Some((text, _)) ==> string_ok(text),
{
    law_string_strict(s, pos);
}

/// What is read as a value keeps the lexical rules.
pub proof fn lemma_value_ok(s: Seq<char>, pos: int)
    ensures
        value_at(s, pos) matches Some((v, _)) ==> value_ok(v),
{
    lemma_string_ok(s, pos);
    lemma_identifier_ok(s, pos);
    if let Some((name, end)) = ident_at(s, pos) {
        let dot = run_end(s, end, CharClass::Space);
        lemma_identifier_ok(s, run_end(s, dot + 1, CharClass::Space));
    }
}

/// What is read as a field of a record literal keeps the lexical rules.
pub proof fn lemma_field_ok(s: Seq<char>, pos: int)
    ensures
        field_at(s, pos) matches Some((a, _)) ==> field_ok(a),
{
    lemma_identifier_ok(s, pos);
    if let Some((name, end)) = ident_at(s, pos) {
        if let Some(p) = crate::grammar::after_symbol(s, end, '=') {
            lemma_value_ok(s, p);
        }
    }
}

/// The fields that are read up to the closing brace keep the lexical rules.
pub proof fn lemma_fields_ok(s: Seq<char>, pos: int, done: Seq<AssignmentSyntax>)
    requires
        forall|i: int| 0 <= i < done.len() ==> field_ok(#[trigger] done[i]),
    ensures
        fields_from(s, pos, done) matches Some((fields, _)) ==> forall|i: int|
            0 <= i < fields.len() ==> field_ok(#[trigger] fields[i]),
    decreases s.len() - pos,
{
    lemma_field_ok(s, pos);
    if let Some((field, end)) = field_at(s, pos) {
        let p = run_end(s, end, CharClass::Space);
        let next = run_end(s, p + 1, CharClass::Space);
        let longer = done.push(field);
        assert forall|i: int| 0 <= i < longer.len() implies field_ok(#[trigger] longer[i]) by {
            if i < done.len() {
                assert(longer[i] == done[i]);
            }
        }
        if !at(s, p, '}') && at(s, p, ',') && pos < next <= s.len() {
            lemma_fields_ok(s, next, longer);
        }
    }
}

/// What is read as an expression keeps the lexical rules.
pub proof fn lemma_expr_ok(s: Seq<char>, pos: int)
    ensures
        expr_at(s, pos) matches Some((e, _)) ==> expr_ok(e),
{
    lemma_value_ok(s, pos);
    lemma_fields_ok(s, run_end(s, pos + 1, CharClass::Space), Seq::empty());
}

/// What is read behind `set` or `local` keeps the lexical rules.
pub proof fn lemma_assignment_ok(s: Seq<char>, pos: int, member: bool)
    ensures
        assignment_at(s, pos, member) matches Some((a, _)) ==> variable_ok(a.variable) && expr_ok(
            a.expr,
        ) && (!member ==> plain_ok(a.variable)),
{
    lemma_identifier_ok(s, pos);
    if let Some((name, end)) = ident_at(s, pos) {
        lemma_identifier_ok(s, end + 1);
        if let Some((field, e2)) = ident_at(s, end + 1) {
            if let Some(p) = crate::grammar::after_symbol(s, e2, '=') {
                lemma_expr_ok(s, p);
            }
        }
        if let Some(p) = crate::grammar::after_symbol(s, end, '=') {
            lemma_expr_ok(s, p);
        }
    }
}

/// What is read behind `append` keeps the lexical rules.
pub proof fn lemma_append_ok(s: Seq<char>, pos: int)
    ensures
        append_args(s, pos) matches Some((a, _)) ==> plain_ok(a.variable) && expr_ok(a.expr),
{
    if let Some(pos1) = after_word(s, pos, "to"@) {
        lemma_identifier_ok(s, pos1);
        if let Some((name, end)) = ident_at(s, pos1) {
            if let Some(pos2) = gap(s, end) {
                if let Some(pos3) = after_word(s, pos2, "with"@) {
                    lemma_expr_ok(s, pos3);
                }
            }
        }
    }
}

/// What is read behind `foreach` keeps the lexical rules.
pub proof fn lemma_foreach_ok(s: Seq<char>, pos: int)
    ensures
        foreach_args(s, pos) matches Some((f, _)) ==> plain_ok(f.value) && plain_ok(f.list)
            && expr_ok(f.expr),
{
    lemma_identifier_ok(s, pos);
    if let Some((y, e1)) = ident_at(s, pos) {
        if let Some(pos1) = gap(s, e1) {
            if let Some(pos2) = after_word(s, pos1, "in"@) {
                lemma_identifier_ok(s, pos2);
                if let Some((x, e2)) = ident_at(s, pos2) {
                    if let Some(pos3) = gap(s, e2) {
                        if let Some(pos4) = after_word(s, pos3, "replacewith"@) {
                            lemma_expr_ok(s, pos4);
                        }
                    }
                }
            }
        }
    }
}

/// What is read as a delegation keeps the lexical rules.
pub proof fn lemma_delegation_ok(s: Seq<char>, pos: int)
    ensures
        delegation_at(s, pos) matches Some((d, _)) ==> delegation_ok(d),
{
    if let Some(pos1) = after_word(s, pos, "delegation"@) {
        lemma_identifier_ok(s, pos1);
        if let Some((target, e1)) = target_at(s, pos1) {
            if let Some(pos2) = gap(s, e1) {
                lemma_identifier_ok(s, pos2);
                if let Some((delegator, e2)) = ident_at(s, pos2) {
                    if let Some(pos3) = gap(s, e2) {
                        if let Some((right, e3)) = crate::grammar::right_at(s, pos3) {
                            if let Some(pos4) = crate::grammar::after_arrow(s, e3) {
                                lemma_identifier_ok(s, pos4);
                            }
                        }
                    }
                }
            }
        }
    }
}

/// What is read as a principal with a password names an identifier.
pub proof fn lemma_password_ok(s: Seq<char>, pos: int)
    ensures
        password_args(s, pos) matches Some((c, _)) ==> identifier_ok(c.principal),
{
    lemma_identifier_ok(s, pos);
}

/// What is read behind `default` names an identifier.
pub proof fn lemma_default_ok(s: Seq<char>, pos: int)
    ensures
        default_args(s, pos) matches Some((name, _)) ==> identifier_ok(name),
{
    if let Some(q) = crate::grammar::after_symbol(s, word_end(s, pos), '=') {
        lemma_identifier_ok(s, q);
    }
}

/// What is read as a command keeps the lexical rules.
pub proof fn lemma_primitive_ok(s: Seq<char>, pos: int)
    ensures
        primitive_at(s, pos) matches Some((c, _)) ==> primitive_ok(c),
{
    let w = word_at(s, pos);
    match gap(s, word_end(s, pos)) {
        None => {},
        Some(p) => {
            if w == "create"@ {
                if let Some(q) = after_word(s, p, "principal"@) {
                    lemma_password_ok(s, q);
                }
            } else if w == "change"@ {
                if let Some(q) = after_word(s, p, "password"@) {
                    lemma_password_ok(s, q);
                }
            } else if w == "set"@ {
                if word_at(s, p) == "delegation"@ {
                    lemma_delegation_ok(s, p);
                } else {
                    lemma_assignment_ok(s, p, true);
                }
            } else if w == "append"@ {
                lemma_append_ok(s, p);
            } else if w == "local"@ {
                lemma_assignment_ok(s, p, false);
            } else if w == "foreach"@ {
                lemma_foreach_ok(s, p);
            } else if w == "delete"@ {
                lemma_delegation_ok(s, p);
            } else if w == "default"@ {
                lemma_default_ok(s, p);
            }
        },
    }
}

/// What is read as a command line keeps the lexical rules.
pub proof fn lemma_line_ok(s: Seq<char>, pos: int)
    ensures
        line_at(s, pos) matches Some((c, _)) ==> primitive_ok(c),
{
    lemma_primitive_ok(s, run_end(s, pos, CharClass::Space));
}

/// The commands that are read line by line keep the lexical rules.
pub proof fn lemma_lines_ok(s: Seq<char>, pos: int, done: Seq<PrimitiveSyntax>)
    requires
        forall|i: int| 0 <= i < done.len() ==> primitive_ok(#[trigger] done[i]),
    ensures
        forall|i: int|
            0 <= i < lines_from(s, pos, done).0.len() ==> primitive_ok(
                #[trigger] lines_from(s, pos, done).0[i],
            ),
    decreases s.len() - pos,
{
    lemma_line_ok(s, pos);
    match line_at(s, pos) {
        Some((cmd, end)) => {
            if at(s, end, '\n') && pos <= end {
                let longer = done.push(cmd);
                assert forall|i: int| 0 <= i < longer.len() implies primitive_ok(
                    #[trigger] longer[i],
                ) by {
                    if i < done.len() {
                        assert(longer[i] == done[i]);
                    }
                }
                lemma_lines_ok(s, end + 1, longer);
                assert(lines_from(s, pos, done) == lines_from(s, end + 1, longer));
            } else {
                assert(lines_from(s, pos, done) == (done, pos));
            }
        },
        None => {
            assert(lines_from(s, pos, done) == (done, pos));
        },
    }
}

/// What is read as a terminator keeps the lexical rules.
pub proof fn lemma_terminator_ok(s: Seq<char>, pos: int)
    ensures
        terminator_at(s, pos) matches Some((t, _)) ==> terminator_ok(t),
{
    let p = run_end(s, pos, CharClass::Space);
    if let Some(q) = after_word(s, p, "return"@) {
        lemma_expr_ok(s, q);
    }
}

/// What is read as the first line of a program names an identifier.
pub proof fn lemma_header_ok(s: Seq<char>, pos: int)
    ensures
        header_at(s, pos) matches Some((login, _)) ==> identifier_ok(login.principal),
{
    if let Some(pos1) = after_word(s, run_end(s, pos, CharClass::Space), "as"@) {
        if let Some(pos2) = after_word(s, pos1, "principal"@) {
            lemma_identifier_ok(s, pos2);
        }
    }
}

/// Parse strictness: a text is a program only if every identifier in it
/// keeps the rule on identifiers (at most 254 characters, no reserved word)
/// and every string literal the rule on strings (at most 65,535 characters
/// of the text class). A text in which a longer or reserved word stands
/// for an identifier, or a longer or other text between quotes, is no
/// program.
pub proof fn law_program_strict(s: Seq<char>)
    ensures
        program_of(s) matches Some(p) ==> program_ok(p),
{
    let start = crate::grammar::comment_lines(s, 0);
    lemma_header_ok(s, start);
    if let Some((login, pos1)) = header_at(s, start) {
        let body = crate::grammar::comment_lines(s, pos1);
        lemma_lines_ok(s, body, Seq::empty());
        let (commands, pos2) = lines_from(s, body, Seq::empty());
        lemma_terminator_ok(s, pos2);
    }
}

} // verus!
