//! The diagnostics of semantic analysis.
use crate::diagnostic::{Diagnostic, DiagnosticView, Label, Severity};
use crate::span::Span;
use vstd::prelude::*;
use vstd::string::*;

verus! {

/// An error of code `aes::semantic(number)`.
pub open spec fn semantic_error(
    message: Seq<char>,
    number: Seq<char>,
    labels: Seq<(Span, Seq<char>)>,
    help: Option<Seq<char>>,
) -> DiagnosticView {
    DiagnosticView {
        message,
        labels: Some(labels),
        help,
        severity: Severity::Error,
        scope: Some("aes::semantic"@),
        number: Some(number),
    }
}

fn text(s: &str) -> (r: String)
    ensures
        r@ == s@,
{
    String::from_str(s)
}

fn wrap(before: &str, name: &str, after: &str) -> (r: String)
    ensures
        r@ == before@ + name@ + after@,
{
    let mut out = String::from_str(before);
    out.append(name);
    out.append(after);
    out
}

fn error(message: String, number: &str, span: Span, label: String) -> (d: Diagnostic)
    ensures
        d@ == semantic_error(message@, number@, seq![(span, label@)], None),
{
    let d = Diagnostic::error(message).with_code("aes::semantic", number).with_label(Label::new(span, label));
    assert(d@.labels == Some(seq![(span, label@)]));
    d
}

fn error2(message: String, number: &str, span: Span, label: String, second: Span, second_label: String) -> (d: Diagnostic)
    ensures
        d@ == semantic_error(message@, number@, seq![(span, label@), (second, second_label@)], None),
{
    let d = error(message, number, span, label).and_label(Label::new(second, second_label));
    assert(seq![(span, label@)].push((second, second_label@)) =~= seq![(span, label@), (second, second_label@)]);
    d
}

pub open spec fn duplicate_type_view(span: Span, prev: Span, name: Seq<char>) -> DiagnosticView {
    semantic_error(
        "duplicate type `"@ + name + "`"@,
        "duplicate_type"@,
        seq![(span, "duplicate defined here"@), (prev, "previously defined here"@)],
        Some("rename one of the `"@ + name + "` types to make them unique"@),
    )
}

pub fn duplicate_type(span: Span, prev: Span, name: &str) -> (d: Diagnostic)
    ensures
        d@ == duplicate_type_view(span, prev, name@),
{
    error2(wrap("duplicate type `", name, "`"), "duplicate_type", span, text("duplicate defined here"), prev,
        text("previously defined here"))
        .with_help(wrap("rename one of the `", name, "` types to make them unique"))
}

pub open spec fn duplicate_relation_view(span: Span, prev: Span, name: Seq<char>) -> DiagnosticView {
    semantic_error(
        "duplicate relation `"@ + name + "`"@,
        "duplicate_relation"@,
        seq![(span, "duplicate defined here"@), (prev, "previously defined here"@)],
        Some("rename one of the `"@ + name + "` relations or merge them into one"@),
    )
}

pub fn duplicate_relation(span: Span, prev: Span, name: &str) -> (d: Diagnostic)
    ensures
        d@ == duplicate_relation_view(span, prev, name@),
{
    error2(wrap("duplicate relation `", name, "`"), "duplicate_relation", span, text("duplicate defined here"), prev,
        text("previously defined here"))
        .with_help(wrap("rename one of the `", name, "` relations or merge them into one"))
}

pub open spec fn duplicate_permission_view(span: Span, prev: Span, name: Seq<char>) -> DiagnosticView {
    semantic_error(
        "duplicate permission `"@ + name + "`"@,
        "duplicate_permission"@,
        seq![(span, "duplicate defined here"@), (prev, "previously defined here"@)],
        Some("rename one of the `"@ + name + "` permissions or merge them into one"@),
    )
}

pub fn duplicate_permission(span: Span, prev: Span, name: &str) -> (d: Diagnostic)
    ensures
        d@ == duplicate_permission_view(span, prev, name@),
{
    error2(wrap("duplicate permission `", name, "`"), "duplicate_permission", span, text("duplicate defined here"), prev,
        text("previously defined here"))
        .with_help(wrap("rename one of the `", name, "` permissions or merge them into one"))
}

pub open spec fn name_collision_view(perm_span: Span, rel_span: Span, name: Seq<char>) -> DiagnosticView {
    semantic_error(
        "`"@ + name + "` is defined as both a relation and a permission"@,
        "relation_permission_name_collision"@,
        seq![(perm_span, "defined as a permission here"@), (rel_span, "previously defined as a relation here"@)],
        Some("`let` defines stored relations, `def` defines computed permissions — they cannot share the name `"@ + name + "`"@),
    )
}

pub fn relation_permission_name_collision(perm_span: Span, rel_span: Span, name: &str) -> (d: Diagnostic)
    ensures
        d@ == name_collision_view(perm_span, rel_span, name@),
{
    error2(
        wrap("`", name, "` is defined as both a relation and a permission"),
        "relation_permission_name_collision",
        perm_span,
        text("defined as a permission here"),
        rel_span,
        text("previously defined as a relation here"),
    ).with_help(
        wrap("`let` defines stored relations, `def` defines computed permissions — they cannot share the name `", name, "`"),
    )
}

pub open spec fn unknown_type_view(span: Span) -> DiagnosticView {
    semantic_error("unknown type"@, "unknown_type"@, seq![(span, "this type is not defined in the schema"@)], None)
}

pub fn unknown_type(span: Span) -> (d: Diagnostic)
    ensures
        d@ == unknown_type_view(span),
{
    error(text("unknown type"), "unknown_type", span, text("this type is not defined in the schema"))
}

pub open spec fn unknown_member_view(span: Span, ty_name: Seq<char>) -> DiagnosticView {
    semantic_error(
        "unknown member on type `"@ + ty_name + "`"@,
        "unknown_member"@,
        seq![(span, "not defined on `"@ + ty_name + "`"@)],
        None,
    )
}

pub fn unknown_member(span: Span, ty_name: &str) -> (d: Diagnostic)
    ensures
        d@ == unknown_member_view(span, ty_name@),
{
    error(wrap("unknown member on type `", ty_name, "`"), "unknown_member", span, wrap("not defined on `", ty_name, "`"))
}

pub open spec fn unknown_relation_view(span: Span) -> DiagnosticView {
    semantic_error(
        "unknown relation"@,
        "unknown_relation"@,
        seq![(span, "not defined on this type"@)],
        Some("add a `let` member with this name to the enclosing type"@),
    )
}

pub fn unknown_relation(span: Span) -> (d: Diagnostic)
    ensures
        d@ == unknown_relation_view(span),
{
    error(text("unknown relation"), "unknown_relation", span, text("not defined on this type"))
        .with_help(text("add a `let` member with this name to the enclosing type"))
}

pub open spec fn unknown_permission_on_type_view(span: Span, permission_name: Seq<char>, ty_name: Seq<char>) -> DiagnosticView {
    semantic_error(
        "unknown permission or relation `"@ + permission_name + "` on type `"@ + ty_name + "`"@,
        "unknown_permission_on_type"@,
        seq![(span, "not defined on `"@ + ty_name + "`"@)],
        Some("add `"@ + permission_name + "` as a `let` or `def` member to `"@ + ty_name + "`"@),
    )
}

pub fn unknown_permission_on_type(span: Span, permission_name: &str, ty_name: &str) -> (d: Diagnostic)
    ensures
        d@ == unknown_permission_on_type_view(span, permission_name@, ty_name@),
{
    let mut message = wrap("unknown permission or relation `", permission_name, "` on type `");
    message.append(ty_name);
    message.append("`");
    let mut help = wrap("add `", permission_name, "` as a `let` or `def` member to `");
    help.append(ty_name);
    help.append("`");
    error(message, "unknown_permission_on_type", span, wrap("not defined on `", ty_name, "`")).with_help(help)
}

pub open spec fn self_ref_in_relation_view(span: Span) -> DiagnosticView {
    semantic_error(
        "self-reference not allowed in `let` body"@,
        "self_ref_in_relation"@,
        seq![(span, "`.relation` syntax is not valid here"@)],
        Some("`let` defines what external types can be stored as subjects — use `def` for permissions that reference the type's own relations"@),
    )
}

pub fn self_ref_in_relation(span: Span) -> (d: Diagnostic)
    ensures
        d@ == self_ref_in_relation_view(span),
{
    error(text("self-reference not allowed in `let` body"), "self_ref_in_relation", span, text("`.relation` syntax is not valid here"))
        .with_help(text("`let` defines what external types can be stored as subjects — use `def` for permissions that reference the type's own relations"))
}

pub open spec fn type_ref_in_permission_view(span: Span) -> DiagnosticView {
    semantic_error(
        "type reference not allowed in `def` body"@,
        "type_ref_in_permission"@,
        seq![(span, "bare type names are not valid here"@)],
        Some("`def` defines computed permissions using `.relation` or `.relation.permission` — use `let` to declare which types can be assigned to a relation"@),
    )
}

pub fn type_ref_in_permission(span: Span) -> (d: Diagnostic)
    ensures
        d@ == type_ref_in_permission_view(span),
{
    error(text("type reference not allowed in `def` body"), "type_ref_in_permission", span, text("bare type names are not valid here"))
        .with_help(text("`def` defines computed permissions using `.relation` or `.relation.permission` — use `let` to declare which types can be assigned to a relation"))
}

pub open spec fn userset_ref_to_permission_view(span: Span, ty_name: Seq<char>) -> DiagnosticView {
    semantic_error(
        "userset references a computed permission, not a relation"@,
        "userset_ref_to_permission"@,
        seq![(span, "this is a `def` on `"@ + ty_name + "`, but only `let` relations can be used in userset references"@)],
        Some("userset syntax `type::member` requires `member` to be a `let` relation, not a `def` permission"@),
    )
}

pub fn userset_ref_to_permission(span: Span, ty_name: &str) -> (d: Diagnostic)
    ensures
        d@ == userset_ref_to_permission_view(span, ty_name@),
{
    error(
        text("userset references a computed permission, not a relation"),
        "userset_ref_to_permission",
        span,
        wrap("this is a `def` on `", ty_name, "`, but only `let` relations can be used in userset references"),
    ).with_help(text("userset syntax `type::member` requires `member` to be a `let` relation, not a `def` permission"))
}

pub open spec fn traversal_on_permission_view(span: Span) -> DiagnosticView {
    semantic_error(
        "cannot traverse through a computed permission"@,
        "traversal_on_permission"@,
        seq![(span, "this is a `def`, but traversals require a `let` relation"@)],
        Some("traversal syntax `.relation.permission` requires the first part to be a `let` relation — computed permissions (`def`) cannot be traversed"@),
    )
}

pub fn traversal_on_permission(span: Span) -> (d: Diagnostic)
    ensures
        d@ == traversal_on_permission_view(span),
{
    error(text("cannot traverse through a computed permission"), "traversal_on_permission", span,
        text("this is a `def`, but traversals require a `let` relation"))
        .with_help(text("traversal syntax `.relation.permission` requires the first part to be a `let` relation — computed permissions (`def`) cannot be traversed"))
}

} // verus!
