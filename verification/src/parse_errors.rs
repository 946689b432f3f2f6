use crate::diagnostic::{label_view, Diagnostic, Label, Severity};
use crate::lexer::{kind_text, Token, TokenKind};
use crate::span::Span;
use vstd::prelude::*;
use vstd::string::*;

verus! {

/// An error diagnostic with code `scope(number)`, the given message and one label.
pub open spec fn shaped(d: Diagnostic, scope: Seq<char>, number: Seq<char>, span: Span) -> bool {
    &&& d@.severity == Severity::Error
    &&& d@.scope == Some(scope)
    &&& d@.number == Some(number)
    &&& d@.labels matches Some(ls) && ls.len() >= 1 && ls[0].0 == span
}

fn text(s: &str) -> (r: String)
    ensures
        r@ == s@,
{
    String::from_str(s)
}

fn join2(a: &str, b: &str) -> (r: String)
    ensures
        r@ == a@ + b@,
{
    let mut out = String::from_str(a);
    out.append(b);
    out
}

fn coded(message: String, scope: &str, number: &str, span: Span, label: String) -> (d: Diagnostic)
    ensures
        d@.message == message@,
        d@.severity == Severity::Error,
        d@.scope == Some(scope@),
        d@.number == Some(number@),
        d@.labels == Some(seq![(span, label@)]),
        d@.help is None,
{
    Diagnostic::error(message).with_code(scope, number).with_label(Label::new(span, label))
}

pub fn unexpected_character(span: Span) -> (d: Diagnostic)
    ensures
        shaped(d, "aes::lexer"@, "unexpected_character"@, span),
        d@.message == "unexpected character"@,
{
    coded(text("unexpected character"), "aes::lexer", "unexpected_character", span, text("not valid here"))
}

pub fn unterminated_str_literal(span: Span) -> (d: Diagnostic)
    ensures
        shaped(d, "aes::lexer"@, "unterminated_string_literal"@, span),
        d@.message == "unterminated string literal"@,
{
    coded(text("unterminated string literal"), "aes::lexer", "unterminated_string_literal", span, text("string starts here"))
        .with_help(text("add a closing `\"` to terminate the string"))
}

/// The source is not a program of the grammar, where parsing reported nothing more
/// precise.
pub fn not_a_program(at: Span) -> (d: Diagnostic)
    ensures
        shaped(d, "aes::parser"@, "invalid_schema"@, at),
        d@.message == "the schema does not follow the grammar"@,
{
    coded(text("the schema does not follow the grammar"), "aes::parser", "invalid_schema", at, text("here"))
}

pub fn expected(want: TokenKind, found: Token) -> (d: Diagnostic)
    ensures
        shaped(d, "aes::parser"@, "expected_token"@, found.span_spec()),
        d@.message == "expected "@ + kind_text(want) + ", found "@ + kind_text(found.kind_spec()),
{
    let mut message = join2("expected ", want.describe());
    message.append(", found ");
    message.append(found.kind().describe());
    coded(message, "aes::parser", "expected_token", found.span(), join2("expected ", want.describe()))
}

pub fn unexpected_token(found: Token) -> (d: Diagnostic)
    ensures
        shaped(d, "aes::parser"@, "unexpected_token"@, found.span_spec()),
        d@.message == "unexpected "@ + kind_text(found.kind_spec()),
{
    coded(join2("unexpected ", found.kind().describe()), "aes::parser", "unexpected_token", found.span(), text("not expected here"))
}

pub fn expected_term(found: Token) -> (d: Diagnostic)
    ensures
        shaped(d, "aes::parser"@, "expected_term"@, found.span_spec()),
        d@.message == "expected expression term, found "@ + kind_text(found.kind_spec()),
{
    coded(
        join2("expected expression term, found ", found.kind().describe()),
        "aes::parser",
        "expected_term",
        found.span(),
        text("expected `.relation`, `type`, `type::member`, or `(`"),
    )
}

pub fn assert_before_relations(found: Token) -> (d: Diagnostic)
    ensures
        shaped(d, "aes::parser"@, "assert_before_relations"@, found.span_spec()),
        d@.message == "assertion found before relations block"@,
{
    coded(
        text("assertion found before relations block"),
        "aes::parser",
        "assert_before_relations",
        found.span(),
        text("this assertion must come after the relations block"),
    ).with_help(text("move the `relations { ... }` block before any `assert` statements"))
}

pub fn duplicate_relations_block(found: Token) -> (d: Diagnostic)
    ensures
        shaped(d, "aes::parser"@, "duplicate_relations_block"@, found.span_spec()),
        d@.message == "duplicate relations block"@,
{
    coded(
        text("duplicate relations block"),
        "aes::parser",
        "duplicate_relations_block",
        found.span(),
        text("only one relations block is allowed per test"),
    ).with_help(text("merge all relation statements into a single `relations { ... }` block"))
}

pub fn missing_semicolon(after: Span) -> (d: Diagnostic)
    ensures
        shaped(d, "aes::parser"@, "missing_semicolon"@, after),
        d@.message == "missing semicolon"@,
{
    coded(text("missing semicolon"), "aes::parser", "missing_semicolon", after, text("expected ';' after this"))
}

pub fn unclosed_delimiter(open: Span, open_char: &str, found: Token) -> (d: Diagnostic)
    ensures
        shaped(d, "aes::parser"@, "unclosed_delimiter"@, open),
        d@.message == "unclosed "@ + open_char@,
        d@.labels matches Some(ls) && ls.len() == 2 && ls[1].0 == found.span_spec(),
{
    let first = coded(join2("unclosed ", open_char), "aes::parser", "unclosed_delimiter", open, join2("opening ", open_char));
    first.and_label(Label::new(found.span(), join2("expected matching close for ", open_char)))
}

pub fn missing_relations_block(found: Token) -> (d: Diagnostic)
    ensures
        shaped(d, "aes::parser"@, "missing_relations_block"@, found.span_spec()),
        d@.message == "expected 'relations' block, found "@ + kind_text(found.kind_spec()),
{
    coded(
        join2("expected 'relations' block, found ", found.kind().describe()),
        "aes::parser",
        "missing_relations_block",
        found.span(),
        text("expected 'relations' keyword here"),
    ).with_help(text("a test must begin with `relations { ... }` before any assertions"))
}

pub fn expected_relation_name_or_block(found: Token) -> (d: Diagnostic)
    ensures
        shaped(d, "aes::parser"@, "expected_relation_name_or_block"@, found.span_spec()),
        d@.message == "expected a relation name or `{` after `.`, found "@ + kind_text(found.kind_spec()),
{
    coded(
        join2("expected a relation name or `{` after `.`, found ", found.kind().describe()),
        "aes::parser",
        "expected_relation_name_or_block",
        found.span(),
        text("expected relation name or block here"),
    ).with_help(text("use `instance.relation: value;` or `instance .{ .relation: value; };`"))
}

pub fn expected_permission_after_colons(found: Token) -> (d: Diagnostic)
    ensures
        shaped(d, "aes::parser"@, "expected_permission_after_colons"@, found.span_spec()),
        d@.message == "expected a permission name after `::`, found "@ + kind_text(found.kind_spec()),
{
    coded(
        join2("expected a permission name after `::`, found ", found.kind().describe()),
        "aes::parser",
        "expected_permission_after_colons",
        found.span(),
        text("expected permission name here"),
    ).with_help(text("example: `team(\"infra\")::member`"))
}

pub fn expected_type_name(found: Token) -> (d: Diagnostic)
    ensures
        shaped(d, "aes::parser"@, "expected_type_name"@, found.span_spec()),
        d@.message == "expected a type name, found "@ + kind_text(found.kind_spec()),
{
    coded(
        join2("expected a type name, found ", found.kind().describe()),
        "aes::parser",
        "expected_type_name",
        found.span(),
        text("expected type name here"),
    ).with_help(text("example: `team(\"infra\")`"))
}

/// The diagnostic for an error token of the lexer: an unterminated string, or an
/// unexpected character.
pub fn from_lexer_error(token: Token) -> (d: Diagnostic)
    ensures
        token.kind_spec() == TokenKind::ErrUnterminatedString ==> shaped(d, "aes::lexer"@, "unterminated_string_literal"@, token.span_spec()),
        token.kind_spec() != TokenKind::ErrUnterminatedString ==> shaped(d, "aes::lexer"@, "unexpected_character"@, token.span_spec()),
{
    match token.kind() {
        TokenKind::ErrUnterminatedString => unterminated_str_literal(token.span()),
        _ => unexpected_character(token.span()),
    }
}

} // verus!
