//! The grammar of schema sources, over the token stream of a source:
//!
//! ```text
//! program  = (type_def | test_def)* ;
//! type_def = "type", ident, "{", member*, "}" ;
//! member   = ("let" | "def"), ident, "=", expr, ";" ;
//! expr     = term, (("|" | "&" | "-"), term)* ;
//! term     = ".", ident, (".", ident)?
//!          | ident, ("::", ident)?
//!          | "(", expr, ")" ;
//! test_def = "test", string, "{", "relations", "{", relation*, "}", assertion*, "}" ;
//! relation = instance, ".", ( assign | "{", (".", assign)*, "}", ";" ) ;
//! assign   = ident, ":", subject, ";" ;
//! subject  = instance, ("::", ident)? ;
//! assertion = ("assert" | "assert_not"), "(", instance, ".", ident,
//!             "(", instance, ")", ")", ";" ;
//! instance = ident, "(", string, ")" ;
//! ```
//!
//! A schema in the narrow sense is a program without tests.
//!
//! Each rule is a spec function from the offset where a construct starts to the
//! offset of the token after it, or `None` when the tokens there do not form the
//! construct. Whitespace and comments between tokens are skipped.
//!
//! Operators group by binding power, `|` loosest, then `&`, then `-`, and operators
//! of equal power to the left: [`prec_expr`] gives the shape of an expression so
//! grouped, and [`program_tree`] says when a syntax tree is the tree of a program.
use crate::span::Span;
use crate::ast::{Assert, AssertionKind, Ast, Instance, Relation, Subject, BinaryOp, DefMember, Expr, ExprTerm, LetMember, TestDef, TypeDef};
use crate::lexer::{is_error_kind, lemma_lex_step_bounds, lemma_skip_trivia, lex_step, skip_trivia, TokenKind};
use vstd::prelude::*;

verus! {

/// The kind of the token that starts at `p`.
pub open spec fn kind_at(src: Seq<u8>, p: int) -> TokenKind {
    lex_step(src, p).0
}

/// Where the token after the one at `p` starts.
pub open spec fn next_at(src: Seq<u8>, p: int) -> int {
    skip_trivia(src, lex_step(src, p).1)
}

/// A token of kind `k` at `p`: the offset after it.
pub open spec fn token_end(src: Seq<u8>, p: int, k: TokenKind) -> Option<int> {
    if 0 <= p < src.len() && kind_at(src, p) == k {
        Some(next_at(src, p))
    } else {
        None
    }
}

/// The binary operators `|`, `&` and `-`.
pub open spec fn is_operator(k: TokenKind) -> bool {
    k == TokenKind::Pipe || k == TokenKind::Amp || k == TokenKind::Minus
}

/// A token other than the end of the file is followed by a later one.
pub proof fn lemma_next_at(src: Seq<u8>, p: int)
    requires
        0 <= p < src.len(),
    ensures
        p < next_at(src, p) <= src.len(),
{
    lemma_lex_step_bounds(src, p);
    lemma_skip_trivia(src, lex_step(src, p).1);
}

/// `term = "." ident ("." ident)? | ident ("::" ident)? | "(" expr ")"`.
pub open spec fn term_end(src: Seq<u8>, p: int) -> Option<int>
    decreases src.len() - p, 1int,
{
    if !(0 <= p < src.len()) {
        None
    } else {
        proof {
            lemma_next_at(src, p);
        }
        let q = next_at(src, p);
        match kind_at(src, p) {
            TokenKind::Dot => match token_end(src, q, TokenKind::Ident) {
                Some(r) => match token_end(src, r, TokenKind::Dot) {
                    Some(s) => token_end(src, s, TokenKind::Ident),
                    None => Some(r),
                },
                None => None,
            },
            TokenKind::Ident => match token_end(src, q, TokenKind::ColonColon) {
                Some(r) => token_end(src, r, TokenKind::Ident),
                None => Some(q),
            },
            TokenKind::LParen => match expr_end(src, q) {
                Some(e) => token_end(src, e, TokenKind::RParen),
                None => None,
            },
            _ => None,
        }
    }
}

/// `expr = term (op term)*`.
pub open spec fn expr_end(src: Seq<u8>, p: int) -> Option<int>
    decreases src.len() - p, 2int,
{
    match term_end(src, p) {
        Some(t) => if p < t <= src.len() {
            ops_end(src, t)
        } else {
            None
        },
        None => None,
    }
}

/// `(op term)*`, as long as an operator follows.
pub open spec fn ops_end(src: Seq<u8>, q: int) -> Option<int>
    decreases src.len() - q, 0int,
{
    if 0 <= q < src.len() && is_operator(kind_at(src, q)) {
        proof {
            lemma_next_at(src, q);
        }
        match term_end(src, next_at(src, q)) {
            Some(t) => if q < t <= src.len() {
                ops_end(src, t)
            } else {
                None
            },
            None => None,
        }
    } else {
        Some(q)
    }
}

/// `member = ("let" | "def") ident "=" expr ";"`.
pub open spec fn member_end(src: Seq<u8>, p: int) -> Option<int> {
    if 0 <= p < src.len() && (kind_at(src, p) == TokenKind::KwLet || kind_at(src, p) == TokenKind::KwDef) {
        match token_end(src, next_at(src, p), TokenKind::Ident) {
            Some(q) => match token_end(src, q, TokenKind::Eq) {
                Some(r) => match expr_end(src, r) {
                    Some(e) => token_end(src, e, TokenKind::Semicolon),
                    None => None,
                },
                None => None,
            },
            None => None,
        }
    } else {
        None
    }
}

/// `member*`, as long as a `let` or `def` follows.
pub open spec fn members_end(src: Seq<u8>, q: int) -> Option<int>
    decreases src.len() - q,
{
    if 0 <= q < src.len() && (kind_at(src, q) == TokenKind::KwLet || kind_at(src, q) == TokenKind::KwDef) {
        match member_end(src, q) {
            Some(m) => if q < m <= src.len() {
                members_end(src, m)
            } else {
                None
            },
            None => None,
        }
    } else {
        Some(q)
    }
}

/// `type_def = "type" ident "{" member* "}"`.
pub open spec fn type_def_end(src: Seq<u8>, p: int) -> Option<int> {
    match token_end(src, p, TokenKind::KwType) {
        Some(q) => match token_end(src, q, TokenKind::Ident) {
            Some(r) => match token_end(src, r, TokenKind::LBrace) {
                Some(s) => match members_end(src, s) {
                    Some(m) => token_end(src, m, TokenKind::RBrace),
                    None => None,
                },
                None => None,
            },
            None => None,
        },
        None => None,
    }
}

/// `instance = ident "(" string ")"`.
pub open spec fn instance_end(src: Seq<u8>, p: int) -> Option<int> {
    match token_end(src, p, TokenKind::Ident) {
        Some(q) => match token_end(src, q, TokenKind::LParen) {
            Some(r) => match token_end(src, r, TokenKind::String) {
                Some(s) => token_end(src, s, TokenKind::RParen),
                None => None,
            },
            None => None,
        },
        None => None,
    }
}

/// `subject = instance ("::" ident)?`.
pub open spec fn subject_end(src: Seq<u8>, p: int) -> Option<int> {
    match instance_end(src, p) {
        Some(q) => match token_end(src, q, TokenKind::ColonColon) {
            Some(r) => token_end(src, r, TokenKind::Ident),
            None => Some(q),
        },
        None => None,
    }
}

/// `assign = ident ":" subject ";"`.
pub open spec fn assign_end(src: Seq<u8>, p: int) -> Option<int> {
    match token_end(src, p, TokenKind::Ident) {
        Some(q) => match token_end(src, q, TokenKind::Colon) {
            Some(r) => match subject_end(src, r) {
                Some(s) => token_end(src, s, TokenKind::Semicolon),
                None => None,
            },
            None => None,
        },
        None => None,
    }
}

/// `("." assign)*`, as long as a `.` follows.
pub open spec fn assigns_end(src: Seq<u8>, q: int) -> Option<int>
    decreases src.len() - q,
{
    if 0 <= q < src.len() && kind_at(src, q) == TokenKind::Dot {
        proof {
            lemma_next_at(src, q);
        }
        match assign_end(src, next_at(src, q)) {
            Some(a) => if q < a <= src.len() {
                assigns_end(src, a)
            } else {
                None
            },
            None => None,
        }
    } else {
        Some(q)
    }
}

/// `relation = instance "." (assign | "{" ("." assign)* "}" ";")`.
pub open spec fn relation_end(src: Seq<u8>, p: int) -> Option<int> {
    match instance_end(src, p) {
        Some(q) => match token_end(src, q, TokenKind::Dot) {
            Some(r) => if kind_at(src, r) == TokenKind::LBrace {
                match token_end(src, r, TokenKind::LBrace) {
                    Some(s) => match assigns_end(src, s) {
                        Some(t) => match token_end(src, t, TokenKind::RBrace) {
                            Some(u) => token_end(src, u, TokenKind::Semicolon),
                            None => None,
                        },
                        None => None,
                    },
                    None => None,
                }
            } else {
                assign_end(src, r)
            },
            None => None,
        },
        None => None,
    }
}

/// `relation*`, as long as an identifier follows.
pub open spec fn relations_end(src: Seq<u8>, q: int) -> Option<int>
    decreases src.len() - q,
{
    if 0 <= q < src.len() && kind_at(src, q) == TokenKind::Ident {
        match relation_end(src, q) {
            Some(m) => if q < m <= src.len() {
                relations_end(src, m)
            } else {
                None
            },
            None => None,
        }
    } else {
        Some(q)
    }
}

/// `assertion = ("assert" | "assert_not") "(" instance "." ident "(" instance ")" ")" ";"`.
pub open spec fn assertion_end(src: Seq<u8>, p: int) -> Option<int> {
    if 0 <= p < src.len() && (kind_at(src, p) == TokenKind::KwAssert || kind_at(src, p) == TokenKind::KwAssertNot) {
        match token_end(src, next_at(src, p), TokenKind::LParen) {
            Some(q) => match instance_end(src, q) {
                Some(r) => match token_end(src, r, TokenKind::Dot) {
                    Some(s) => match token_end(src, s, TokenKind::Ident) {
                        Some(t) => match token_end(src, t, TokenKind::LParen) {
                            Some(u) => match instance_end(src, u) {
                                Some(v) => match token_end(src, v, TokenKind::RParen) {
                                    Some(w) => match token_end(src, w, TokenKind::RParen) {
                                        Some(x) => token_end(src, x, TokenKind::Semicolon),
                                        None => None,
                                    },
                                    None => None,
                                },
                                None => None,
                            },
                            None => None,
                        },
                        None => None,
                    },
                    None => None,
                },
                None => None,
            },
            None => None,
        }
    } else {
        None
    }
}

/// `assertion*`, as long as an `assert` or `assert_not` follows.
pub open spec fn assertions_end(src: Seq<u8>, q: int) -> Option<int>
    decreases src.len() - q,
{
    if 0 <= q < src.len() && (kind_at(src, q) == TokenKind::KwAssert || kind_at(src, q) == TokenKind::KwAssertNot) {
        match assertion_end(src, q) {
            Some(m) => if q < m <= src.len() {
                assertions_end(src, m)
            } else {
                None
            },
            None => None,
        }
    } else {
        Some(q)
    }
}

/// `"relations" "{" relation* "}"`.
pub open spec fn relations_block_end(src: Seq<u8>, p: int) -> Option<int> {
    match token_end(src, p, TokenKind::KwRelations) {
        Some(q) => match token_end(src, q, TokenKind::LBrace) {
            Some(r) => match relations_end(src, r) {
                Some(s) => token_end(src, s, TokenKind::RBrace),
                None => None,
            },
            None => None,
        },
        None => None,
    }
}

/// `test_def = "test" string "{" "relations" "{" relation* "}" assertion* "}"`.
pub open spec fn test_def_end(src: Seq<u8>, p: int) -> Option<int> {
    match token_end(src, p, TokenKind::KwTest) {
        Some(q) => match token_end(src, q, TokenKind::String) {
            Some(r) => match token_end(src, r, TokenKind::LBrace) {
                Some(s) => match relations_block_end(src, s) {
                    Some(t) => match assertions_end(src, t) {
                        Some(u) => token_end(src, u, TokenKind::RBrace),
                        None => None,
                    },
                    None => None,
                },
                None => None,
            },
            None => None,
        },
        None => None,
    }
}

/// `(type_def | test_def)*`, as long as a `type` or a `test` follows.
pub open spec fn definitions_end(src: Seq<u8>, q: int) -> Option<int>
    decreases src.len() - q,
{
    if 0 <= q < src.len() && kind_at(src, q) == TokenKind::KwType {
        match type_def_end(src, q) {
            Some(t) => if q < t <= src.len() {
                definitions_end(src, t)
            } else {
                None
            },
            None => None,
        }
    } else if 0 <= q < src.len() && kind_at(src, q) == TokenKind::KwTest {
        match test_def_end(src, q) {
            Some(t) => if q < t <= src.len() {
                definitions_end(src, t)
            } else {
                None
            },
            None => None,
        }
    } else {
        Some(q)
    }
}

/// Where the names of the type definitions of `(type_def | test_def)*` start, in
/// order: each is the identifier after `type`.
pub open spec fn type_names(src: Seq<u8>, q: int) -> Seq<int>
    decreases src.len() - q,
{
    if 0 <= q < src.len() && kind_at(src, q) == TokenKind::KwType {
        match type_def_end(src, q) {
            Some(t) => if q < t <= src.len() {
                seq![next_at(src, q)] + type_names(src, t)
            } else {
                Seq::empty()
            },
            None => Seq::empty(),
        }
    } else if 0 <= q < src.len() && kind_at(src, q) == TokenKind::KwTest {
        match test_def_end(src, q) {
            Some(t) => if q < t <= src.len() {
                type_names(src, t)
            } else {
                Seq::empty()
            },
            None => Seq::empty(),
        }
    } else {
        Seq::empty()
    }
}

/// Where the names of the tests of `(type_def | test_def)*` start, in order: each is
/// the string after `test`.
pub open spec fn test_names(src: Seq<u8>, q: int) -> Seq<int>
    decreases src.len() - q,
{
    if 0 <= q < src.len() && kind_at(src, q) == TokenKind::KwType {
        match type_def_end(src, q) {
            Some(t) => if q < t <= src.len() {
                test_names(src, t)
            } else {
                Seq::empty()
            },
            None => Seq::empty(),
        }
    } else if 0 <= q < src.len() && kind_at(src, q) == TokenKind::KwTest {
        match test_def_end(src, q) {
            Some(t) => if q < t <= src.len() {
                seq![next_at(src, q)] + test_names(src, t)
            } else {
                Seq::empty()
            },
            None => Seq::empty(),
        }
    } else {
        Seq::empty()
    }
}

/// Where the names of the tests start, in order.
pub open spec fn test_name_starts(tests: Seq<TestDef>) -> Seq<int> {
    tests.map_values(|t: TestDef| t.name.start_spec() as int)
}

/// Every test is named by a whole token of `src`.
pub open spec fn test_names_are_tokens(tests: Seq<TestDef>, src: Seq<u8>) -> bool {
    forall|i: int| 0 <= i < tests.len() ==> (#[trigger] tests[i]).name.end_spec() == lex_step(src, tests[i].name.start_spec() as int).1
}

/// A test definition ends after it starts.
pub proof fn lemma_test_def_bounds(src: Seq<u8>, c: int)
    requires
        test_def_end(src, c) is Some,
    ensures
        c < test_def_end(src, c)->0 <= src.len(),
{
    let q = token_end(src, c, TokenKind::KwTest)->0;
    let r = token_end(src, q, TokenKind::String)->0;
    let s = token_end(src, r, TokenKind::LBrace)->0;
    let b = relations_block_end(src, s)->0;
    let u = assertions_end(src, b)->0;
    let rq = token_end(src, s, TokenKind::KwRelations)->0;
    let rr = token_end(src, rq, TokenKind::LBrace)->0;
    let rs = relations_end(src, rr)->0;
    lemma_token_end(src, c, TokenKind::KwTest);
    lemma_token_end(src, q, TokenKind::String);
    lemma_token_end(src, r, TokenKind::LBrace);
    lemma_token_end(src, s, TokenKind::KwRelations);
    lemma_token_end(src, rq, TokenKind::LBrace);
    lemma_relations_end(src, rr);
    lemma_token_end(src, rs, TokenKind::RBrace);
    lemma_assertions_end(src, b);
    lemma_token_end(src, u, TokenKind::RBrace);
}

/// A type definition at `c`, ending at `t`, names no test.
pub proof fn lemma_test_names_skip_type(src: Seq<u8>, c: int, t: int)
    requires
        0 <= c < src.len(),
        kind_at(src, c) == TokenKind::KwType,
        type_def_end(src, c) == Some(t),
    ensures
        test_names(src, c) == test_names(src, t),
{
    lemma_type_def_bounds(src, c);
}

/// A test definition at `c`, ending at `t`, names no type.
pub proof fn lemma_type_names_skip_test(src: Seq<u8>, c: int, t: int)
    requires
        0 <= c < src.len(),
        kind_at(src, c) == TokenKind::KwTest,
        test_def_end(src, c) == Some(t),
    ensures
        type_names(src, c) == type_names(src, t),
{
    lemma_test_def_bounds(src, c);
}

/// A test definition at `c`, ending at `t`, adds the string after its `test` to the
/// test names already collected.
#[verifier::spinoff_prover]
#[verifier::rlimit(40)]
pub proof fn lemma_test_names_step(before: Seq<TestDef>, after: Seq<TestDef>, src: Seq<u8>, c: int, t: int)
    requires
        0 <= c < src.len(),
        kind_at(src, c) == TokenKind::KwTest,
        test_def_end(src, c) == Some(t),
        after.len() == before.len() + 1,
        after.subrange(0, before.len() as int) == before,
        after.last().name.start_spec() == next_at(src, c),
        after.last().name.end_spec() == lex_step(src, next_at(src, c)).1,
        test_names_are_tokens(before, src),
    ensures
        test_name_starts(after) + test_names(src, t) == test_name_starts(before) + test_names(src, c),
        test_names_are_tokens(after, src),
{
    lemma_test_def_bounds(src, c);
    let x = next_at(src, c);
    assert(test_names(src, c) == seq![x] + test_names(src, t));
    assert(after =~= before.push(after.last()));
    assert(test_name_starts(after) =~= test_name_starts(before).push(x));
    assert(test_name_starts(after) + test_names(src, t) =~= test_name_starts(before) + (seq![x] + test_names(src, t)));
    assert forall|i: int| 0 <= i < after.len() implies (#[trigger] after[i]).name.end_spec()
        == lex_step(src, after[i].name.start_spec() as int).1 by {
        if i < before.len() {
            assert(after[i] == before[i]);
        }
    }
}

/// The instance node `i` is the instance `type("id")` at `p`: its type is the
/// identifier at `p` and its id the string after the `(`.
pub open spec fn instance_at(i: Instance, p: int, src: Seq<u8>) -> bool {
    &&& is_token_span(i.ty, p, src)
    &&& is_token_span(i.ident, next_at(src, next_at(src, p)), src)
}

/// The subject node `s` is the subject at `p`: the instance there, and the
/// permission after its `::` if it has one.
pub open spec fn subject_at(s: Subject, p: int, src: Seq<u8>) -> bool {
    &&& instance_at(s.instance, p, src)
    &&& match token_end(src, instance_end(src, p)->0, TokenKind::ColonColon) {
        Some(r) => s.permission matches Some(x) && is_token_span(x, r, src),
        None => s.permission is None,
    }
}

/// For each test of `(type_def | test_def)*`, in order, how many relations and how
/// many assertions it holds.
pub open spec fn test_counts(src: Seq<u8>, q: int) -> Seq<(nat, nat)>
    decreases src.len() - q,
{
    if 0 <= q < src.len() && kind_at(src, q) == TokenKind::KwType {
        match type_def_end(src, q) {
            Some(t) => if q < t <= src.len() {
                test_counts(src, t)
            } else {
                Seq::empty()
            },
            None => Seq::empty(),
        }
    } else if 0 <= q < src.len() && kind_at(src, q) == TokenKind::KwTest {
        match test_def_end(src, q) {
            Some(t) => if q < t <= src.len() {
                seq![(relations_names(src, test_relations_start(src, q)).len(),
                    assertion_starts(src, test_assertions_start(src, q)).len())] + test_counts(src, t)
            } else {
                Seq::empty()
            },
            None => Seq::empty(),
        }
    } else {
        Seq::empty()
    }
}

/// How many relations the first `i` tests hold.
pub open spec fn relations_before(counts: Seq<(nat, nat)>, i: int) -> nat
    decreases i,
{
    if i <= 0 {
        0
    } else {
        relations_before(counts, i - 1) + counts[i - 1].0
    }
}

/// How many assertions the first `i` tests hold.
pub open spec fn asserts_before(counts: Seq<(nat, nat)>, i: int) -> nat
    decreases i,
{
    if i <= 0 {
        0
    } else {
        asserts_before(counts, i - 1) + counts[i - 1].1
    }
}

/// Each test's ranges hold exactly its own relations and assertions: those that
/// follow the ones of the tests before it, as many as `counts` gives.
pub open spec fn ranges_follow(tests: Seq<TestDef>, counts: Seq<(nat, nat)>) -> bool {
    &&& tests.len() == counts.len()
    &&& forall|i: int| 0 <= i < tests.len() ==> {
        &&& (#[trigger] tests[i]).relations.lo() == relations_before(counts, i)
        &&& tests[i].relations.hi() == relations_before(counts, i) + counts[i].0
        &&& tests[i].asserts.lo() == asserts_before(counts, i)
        &&& tests[i].asserts.hi() == asserts_before(counts, i) + counts[i].1
    }
}

/// A test whose ranges start where the ranges so far end, holding `rels` relations
/// and `asserts` assertions, keeps the ranges following.
#[verifier::spinoff_prover]
pub proof fn lemma_ranges_follow_push(before: Seq<TestDef>, after: Seq<TestDef>, counts: Seq<(nat, nat)>, rels: nat, asserts: nat)
    requires
        ranges_follow(before, counts),
        after.len() == before.len() + 1,
        after.subrange(0, before.len() as int) == before,
        after.last().relations.lo() == relations_before(counts, counts.len() as int),
        after.last().relations.hi() == relations_before(counts, counts.len() as int) + rels,
        after.last().asserts.lo() == asserts_before(counts, counts.len() as int),
        after.last().asserts.hi() == asserts_before(counts, counts.len() as int) + asserts,
    ensures
        ranges_follow(after, counts.push((rels, asserts))),
        relations_before(counts.push((rels, asserts)), after.len() as int) == relations_before(counts, counts.len() as int) + rels,
        asserts_before(counts.push((rels, asserts)), after.len() as int) == asserts_before(counts, counts.len() as int) + asserts,
{
    let more = counts.push((rels, asserts));
    assert(more.subrange(0, counts.len() as int) =~= counts);
    lemma_before_prefix(counts, more, counts.len() as int);
    assert forall|i: int| 0 <= i < after.len() implies {
        &&& (#[trigger] after[i]).relations.lo() == relations_before(more, i)
        &&& after[i].relations.hi() == relations_before(more, i) + more[i].0
        &&& after[i].asserts.lo() == asserts_before(more, i)
        &&& after[i].asserts.hi() == asserts_before(more, i) + more[i].1
    } by {
        lemma_before_prefix(counts, more, i);
        if i < before.len() {
            assert(after[i] == after.subrange(0, before.len() as int)[i]);
            assert(more[i] == counts[i]);
        }
    }
}

/// A test at `c`, ending at `t`, adds its counts to those of the tests so far.
#[verifier::spinoff_prover]
#[verifier::rlimit(60)]
pub proof fn lemma_test_counts_test(done: Seq<(nat, nat)>, src: Seq<u8>, c: int, t: int, whole: Seq<(nat, nat)>)
    requires
        0 <= c < src.len(),
        kind_at(src, c) == TokenKind::KwTest,
        test_def_end(src, c) == Some(t),
        done + test_counts(src, c) == whole,
    ensures
        done.push((relations_names(src, test_relations_start(src, c)).len(),
            assertion_starts(src, test_assertions_start(src, c)).len())) + test_counts(src, t) == whole,
{
    lemma_test_def_bounds(src, c);
    let x = (relations_names(src, test_relations_start(src, c)).len(), assertion_starts(src, test_assertions_start(src, c)).len());
    assert(test_counts(src, c) == seq![x] + test_counts(src, t));
    assert(done.push(x) + test_counts(src, t) =~= done + (seq![x] + test_counts(src, t)));
}

/// The counts of the first `i` tests do not depend on the tests after them.
pub proof fn lemma_before_prefix(a: Seq<(nat, nat)>, b: Seq<(nat, nat)>, i: int)
    requires
        0 <= i <= a.len() <= b.len(),
        b.subrange(0, a.len() as int) == a,
    ensures
        relations_before(a, i) == relations_before(b, i),
        asserts_before(a, i) == asserts_before(b, i),
    decreases i,
{
    if i > 0 {
        lemma_before_prefix(a, b, i - 1);
        assert(b[i - 1] == b.subrange(0, a.len() as int)[i - 1]);
    }
}

/// After a type definition at `c`, ending at `t`, no test was added.
pub proof fn lemma_test_counts_type(done: Seq<(nat, nat)>, src: Seq<u8>, c: int, t: int, whole: Seq<(nat, nat)>)
    requires
        0 <= c < src.len(),
        kind_at(src, c) == TokenKind::KwType,
        type_def_end(src, c) == Some(t),
        done + test_counts(src, c) == whole,
    ensures
        done + test_counts(src, t) == whole,
{
    lemma_type_def_bounds(src, c);
}

/// Where the assertions of `assertion*` start, in order.
pub open spec fn assertion_starts(src: Seq<u8>, q: int) -> Seq<int>
    decreases src.len() - q,
{
    if 0 <= q < src.len() && (kind_at(src, q) == TokenKind::KwAssert || kind_at(src, q) == TokenKind::KwAssertNot) {
        match assertion_end(src, q) {
            Some(m) => if q < m <= src.len() {
                seq![q] + assertion_starts(src, m)
            } else {
                Seq::empty()
            },
            None => Seq::empty(),
        }
    } else {
        Seq::empty()
    }
}

/// Where the assertions of the test at `p` begin: after its relations block.
pub open spec fn test_assertions_start(src: Seq<u8>, p: int) -> int {
    relations_block_end(src, next_at(src, next_at(src, next_at(src, p))))->0
}

/// Where the assertions of the tests of `(type_def | test_def)*` start, in order.
pub open spec fn program_assertions(src: Seq<u8>, q: int) -> Seq<int>
    decreases src.len() - q,
{
    if 0 <= q < src.len() && kind_at(src, q) == TokenKind::KwType {
        match type_def_end(src, q) {
            Some(t) => if q < t <= src.len() {
                program_assertions(src, t)
            } else {
                Seq::empty()
            },
            None => Seq::empty(),
        }
    } else if 0 <= q < src.len() && kind_at(src, q) == TokenKind::KwTest {
        match test_def_end(src, q) {
            Some(t) => if q < t <= src.len() {
                assertion_starts(src, test_assertions_start(src, q)) + program_assertions(src, t)
            } else {
                Seq::empty()
            },
            None => Seq::empty(),
        }
    } else {
        Seq::empty()
    }
}

/// The node `a` is the assertion at `p`: `assert` or `assert_not` as its keyword says,
/// about the resource instance after the `(`, the permission named by the identifier
/// after the resource and its `.`, and the actor instance in the inner parentheses.
#[verifier::opaque]
pub open spec fn assertion_matches(a: Assert, p: int, src: Seq<u8>) -> bool {
    let resource = next_at(src, next_at(src, p));
    let permission = next_at(src, instance_end(src, resource)->0);
    let actor = next_at(src, next_at(src, permission));
    &&& a.kind == (if kind_at(src, p) == TokenKind::KwAssert { AssertionKind::Assert } else { AssertionKind::AssertNot })
    &&& is_token_span(a.permission, permission, src)
    &&& instance_at(a.resource, resource, src)
    &&& instance_at(a.actor, actor, src)
}

/// The assertion nodes are, one for one, the assertions that start at `starts`.
pub open spec fn assertions_match(asserts: Seq<Assert>, starts: Seq<int>, src: Seq<u8>) -> bool {
    &&& asserts.len() == starts.len()
    &&& forall|i: int| 0 <= i < asserts.len() ==> assertion_matches(#[trigger] asserts[i], starts[i], src)
}

/// Matching runs of assertions put one after the other still match.
pub proof fn lemma_assertions_match_append(a: Seq<Assert>, sa: Seq<int>, b: Seq<Assert>, sb: Seq<int>, src: Seq<u8>)
    requires
        assertions_match(a, sa, src),
        assertions_match(b, sb, src),
    ensures
        assertions_match(a + b, sa + sb, src),
{
    assert forall|i: int| 0 <= i < (a + b).len() implies assertion_matches(#[trigger] (a + b)[i], (sa + sb)[i], src) by {
        if i < a.len() {
            assert((a + b)[i] == a[i]);
            assert((sa + sb)[i] == sa[i]);
        } else {
            assert((a + b)[i] == b[i - a.len()]);
            assert((sa + sb)[i] == sb[i - a.len()]);
        }
    }
}

/// An assertion at `c`, ending at `m`, opens the run of assertions from `c`.
pub proof fn lemma_assertion_starts_step(src: Seq<u8>, c: int, m: int)
    requires
        0 <= c < src.len(),
        kind_at(src, c) == TokenKind::KwAssert || kind_at(src, c) == TokenKind::KwAssertNot,
        assertion_end(src, c) == Some(m),
        c < m <= src.len(),
    ensures
        assertion_starts(src, c) == seq![c] + assertion_starts(src, m),
{
}

/// A type definition holds no assertion; a test holds those after its relations
/// block.
pub proof fn lemma_program_assertions_step(src: Seq<u8>, c: int, t: int)
    requires
        0 <= c < src.len(),
        kind_at(src, c) == TokenKind::KwType && type_def_end(src, c) == Some(t)
            || kind_at(src, c) == TokenKind::KwTest && test_def_end(src, c) == Some(t),
    ensures
        kind_at(src, c) == TokenKind::KwType ==> program_assertions(src, c) == program_assertions(src, t),
        kind_at(src, c) == TokenKind::KwTest ==> program_assertions(src, c)
            == assertion_starts(src, test_assertions_start(src, c)) + program_assertions(src, t),
{
    if kind_at(src, c) == TokenKind::KwType {
        lemma_type_def_bounds(src, c);
    } else {
        lemma_test_def_bounds(src, c);
    }
}

/// After a test at `c`, ending at `t`, the assertion nodes so far are those of the
/// tests so far.
pub proof fn lemma_program_assertions_test(
    before: Seq<Assert>,
    after: Seq<Assert>,
    done: Seq<int>,
    src: Seq<u8>,
    c: int,
    t: int,
    whole: Seq<int>,
)
    requires
        0 <= c < src.len(),
        kind_at(src, c) == TokenKind::KwTest,
        test_def_end(src, c) == Some(t),
        assertions_match(before, done, src),
        done + program_assertions(src, c) == whole,
        before.len() <= after.len(),
        after.subrange(0, before.len() as int) == before,
        assertions_match(after.subrange(before.len() as int, after.len() as int), assertion_starts(src, test_assertions_start(src, c)), src),
    ensures
        assertions_match(after, done + assertion_starts(src, test_assertions_start(src, c)), src),
        done + assertion_starts(src, test_assertions_start(src, c)) + program_assertions(src, t) == whole,
{
    let starts = assertion_starts(src, test_assertions_start(src, c));
    lemma_assertions_match_extend(before, after, done, starts, src);
    lemma_program_assertions_step(src, c, t);
    lemma_seq_assoc(done, starts, program_assertions(src, t));
}

proof fn lemma_assertions_match_extend(before: Seq<Assert>, after: Seq<Assert>, done: Seq<int>, starts: Seq<int>, src: Seq<u8>)
    requires
        assertions_match(before, done, src),
        before.len() <= after.len(),
        after.subrange(0, before.len() as int) == before,
        assertions_match(after.subrange(before.len() as int, after.len() as int), starts, src),
    ensures
        assertions_match(after, done + starts, src),
{
    let added = after.subrange(before.len() as int, after.len() as int);
    assert(before + added =~= after);
    lemma_assertions_match_append(before, done, added, starts, src);
}

proof fn lemma_seq_assoc<A>(a: Seq<A>, b: Seq<A>, c: Seq<A>)
    ensures
        a + b + c == a + (b + c),
{
    assert(a + b + c =~= a + (b + c));
}

/// After a type definition at `c`, ending at `t`, no assertion was added.
pub proof fn lemma_program_assertions_type(done: Seq<int>, src: Seq<u8>, c: int, t: int, whole: Seq<int>)
    requires
        0 <= c < src.len(),
        kind_at(src, c) == TokenKind::KwType,
        type_def_end(src, c) == Some(t),
        done + program_assertions(src, c) == whole,
    ensures
        done + program_assertions(src, t) == whole,
{
    lemma_program_assertions_step(src, c, t);
}

/// Where the relation names of `("." assign)*` start, in order.
pub open spec fn assign_names(src: Seq<u8>, q: int) -> Seq<int>
    decreases src.len() - q,
{
    if 0 <= q < src.len() && kind_at(src, q) == TokenKind::Dot {
        match assign_end(src, next_at(src, q)) {
            Some(a) => if q < a <= src.len() {
                seq![next_at(src, q)] + assign_names(src, a)
            } else {
                Seq::empty()
            },
            None => Seq::empty(),
        }
    } else {
        Seq::empty()
    }
}

/// Where the relations of the relation statement at `p` stand, each as the offsets of
/// its resource (the statement's instance) and of its name: the identifier after the
/// resource and its `.`, or those of the grouped assignments.
pub open spec fn relation_names(src: Seq<u8>, p: int) -> Seq<(int, int)> {
    let r = next_at(src, instance_end(src, p)->0);
    if kind_at(src, r) == TokenKind::LBrace {
        assign_names(src, next_at(src, r)).map_values(|n: int| (p, n))
    } else {
        seq![(p, r)]
    }
}

/// Where the relations of `relation*` stand, in order.
pub open spec fn relations_names(src: Seq<u8>, q: int) -> Seq<(int, int)>
    decreases src.len() - q,
{
    if 0 <= q < src.len() && kind_at(src, q) == TokenKind::Ident {
        match relation_end(src, q) {
            Some(m) => if q < m <= src.len() {
                relation_names(src, q) + relations_names(src, m)
            } else {
                Seq::empty()
            },
            None => Seq::empty(),
        }
    } else {
        Seq::empty()
    }
}

/// Where the relation statements of the test at `p` begin: inside its relations block.
pub open spec fn test_relations_start(src: Seq<u8>, p: int) -> int {
    next_at(src, next_at(src, next_at(src, next_at(src, next_at(src, p)))))
}

/// Where the relations of the tests of `(type_def | test_def)*` stand, in order.
pub open spec fn program_relation_names(src: Seq<u8>, q: int) -> Seq<(int, int)>
    decreases src.len() - q,
{
    if 0 <= q < src.len() && kind_at(src, q) == TokenKind::KwType {
        match type_def_end(src, q) {
            Some(t) => if q < t <= src.len() {
                program_relation_names(src, t)
            } else {
                Seq::empty()
            },
            None => Seq::empty(),
        }
    } else if 0 <= q < src.len() && kind_at(src, q) == TokenKind::KwTest {
        match test_def_end(src, q) {
            Some(t) => if q < t <= src.len() {
                relations_names(src, test_relations_start(src, q)) + program_relation_names(src, t)
            } else {
                Seq::empty()
            },
            None => Seq::empty(),
        }
    } else {
        Seq::empty()
    }
}

/// The relation node `r` is the relation whose resource stands at `at.0` and whose
/// name at `at.1`: its resource is that instance, its name that identifier, and its
/// subject (among `subjects`) the subject after the name and its `:`.
#[verifier::opaque]
pub open spec fn relation_at(r: Relation, subjects: Seq<Subject>, at: (int, int), src: Seq<u8>) -> bool {
    &&& instance_at(r.resource, at.0, src)
    &&& is_token_span(r.relation, at.1, src)
    &&& r.subject.idx() < subjects.len()
    &&& subject_at(subjects[r.subject.idx() as int], next_at(src, next_at(src, at.1)), src)
}

/// The relation nodes are, one for one, the relations that stand at `names`.
pub open spec fn relations_named(rels: Seq<Relation>, subjects: Seq<Subject>, names: Seq<(int, int)>, src: Seq<u8>) -> bool {
    &&& rels.len() == names.len()
    &&& forall|i: int| 0 <= i < rels.len() ==> relation_at(#[trigger] rels[i], subjects, names[i], src)
}

/// Subject nodes appended after the ones the relations point at leave them as they
/// were.
pub proof fn lemma_relations_named_grow(rels: Seq<Relation>, s0: Seq<Subject>, s1: Seq<Subject>, names: Seq<(int, int)>, src: Seq<u8>)
    requires
        s0.len() <= s1.len(),
        s1.subrange(0, s0.len() as int) == s0,
        relations_named(rels, s0, names, src),
    ensures
        relations_named(rels, s1, names, src),
{
    reveal(relation_at);
    assert forall|i: int| 0 <= i < rels.len() implies relation_at(#[trigger] rels[i], s1, names[i], src) by {
        let k = rels[i].subject.idx() as int;
        assert(relation_at(rels[i], s0, names[i], src));
        assert(s1[k] == s1.subrange(0, s0.len() as int)[k]);
    }
}

/// Relation nodes appended after a run that stands at `done`, themselves standing at
/// `more`, make a run that stands at `done + more`.
pub proof fn lemma_relations_named_extend(
    r0: Seq<Relation>,
    before: Seq<Relation>,
    after: Seq<Relation>,
    s0: Seq<Subject>,
    s1: Seq<Subject>,
    done: Seq<(int, int)>,
    more: Seq<(int, int)>,
    src: Seq<u8>,
)
    requires
        r0.len() <= before.len() <= after.len(),
        before.subrange(0, r0.len() as int) == r0,
        after.subrange(0, before.len() as int) == before,
        s0.len() <= s1.len(),
        s1.subrange(0, s0.len() as int) == s0,
        relations_named(before.subrange(r0.len() as int, before.len() as int), s0, done, src),
        relations_named(after.subrange(before.len() as int, after.len() as int), s1, more, src),
    ensures
        after.subrange(0, r0.len() as int) == r0,
        relations_named(after.subrange(r0.len() as int, after.len() as int), s1, done + more, src),
{
    assert(after.subrange(0, r0.len() as int) =~= before.subrange(0, r0.len() as int));
    let a = before.subrange(r0.len() as int, before.len() as int);
    let b = after.subrange(before.len() as int, after.len() as int);
    let all = after.subrange(r0.len() as int, after.len() as int);
    lemma_relations_named_grow(a, s0, s1, done, src);
    assert(all =~= a + b);
    assert forall|i: int| 0 <= i < all.len() implies relation_at(#[trigger] all[i], s1, (done + more)[i], src) by {
        if i < a.len() {
            assert(all[i] == a[i]);
            assert((done + more)[i] == done[i]);
        } else {
            assert(all[i] == b[i - a.len()]);
            assert((done + more)[i] == more[i - a.len()]);
        }
    }
}

/// After the relation statement at `c`, the relation nodes of a run of statements so
/// far stand where the statements so far put them.
#[verifier::spinoff_prover]
pub proof fn lemma_relations_names_step(
    r0: Seq<Relation>,
    before: Seq<Relation>,
    after: Seq<Relation>,
    s0: Seq<Subject>,
    s1: Seq<Subject>,
    done: Seq<(int, int)>,
    src: Seq<u8>,
    c: int,
    whole: Seq<(int, int)>,
)
    requires
        0 <= c < src.len(),
        kind_at(src, c) == TokenKind::Ident,
        relations_end(src, c) is Some,
        r0.len() <= before.len() <= after.len(),
        before.subrange(0, r0.len() as int) == r0,
        after.subrange(0, before.len() as int) == before,
        s0.len() <= s1.len(),
        s1.subrange(0, s0.len() as int) == s0,
        relations_named(before.subrange(r0.len() as int, before.len() as int), s0, done, src),
        relations_named(after.subrange(before.len() as int, after.len() as int), s1, relation_names(src, c), src),
        done + relations_names(src, c) == whole,
    ensures
        after.subrange(0, r0.len() as int) == r0,
        relations_named(after.subrange(r0.len() as int, after.len() as int), s1, done + relation_names(src, c), src),
        done + relation_names(src, c) + relations_names(src, relation_end(src, c)->0) == whole,
{
    let m = relation_end(src, c)->0;
    assert(relations_names(src, c) == relation_names(src, c) + relations_names(src, m));
    lemma_relations_named_extend(r0, before, after, s0, s1, done, relation_names(src, c), src);
    lemma_seq_assoc(done, relation_names(src, c), relations_names(src, m));
}

/// After a test at `c`, ending at `t`, the relation nodes so far are those of the
/// tests so far.
#[verifier::spinoff_prover]
pub proof fn lemma_program_relations_test(
    before: Seq<Relation>,
    after: Seq<Relation>,
    s0: Seq<Subject>,
    s1: Seq<Subject>,
    done: Seq<(int, int)>,
    src: Seq<u8>,
    c: int,
    t: int,
    whole: Seq<(int, int)>,
)
    requires
        0 <= c < src.len(),
        kind_at(src, c) == TokenKind::KwTest,
        test_def_end(src, c) == Some(t),
        relations_named(before, s0, done, src),
        done + program_relation_names(src, c) == whole,
        before.len() <= after.len(),
        after.subrange(0, before.len() as int) == before,
        s0.len() <= s1.len(),
        s1.subrange(0, s0.len() as int) == s0,
        relations_named(after.subrange(before.len() as int, after.len() as int), s1, relations_names(src, test_relations_start(src, c)), src),
    ensures
        relations_named(after, s1, done + relations_names(src, test_relations_start(src, c)), src),
        done + relations_names(src, test_relations_start(src, c)) + program_relation_names(src, t) == whole,
{
    let more = relations_names(src, test_relations_start(src, c));
    assert(before.subrange(0, 0) =~= Seq::<Relation>::empty());
    assert(before.subrange(0, before.len() as int) =~= before);
    assert(after.subrange(0, after.len() as int) =~= after);
    lemma_relations_named_extend(Seq::empty(), before, after, s0, s1, done, more, src);
    lemma_test_def_bounds(src, c);
    lemma_seq_assoc(done, more, program_relation_names(src, t));
}

/// After a type definition at `c`, ending at `t`, no relation was added.
pub proof fn lemma_program_relations_type(done: Seq<(int, int)>, src: Seq<u8>, c: int, t: int, whole: Seq<(int, int)>)
    requires
        0 <= c < src.len(),
        kind_at(src, c) == TokenKind::KwType,
        type_def_end(src, c) == Some(t),
        done + program_relation_names(src, c) == whole,
    ensures
        done + program_relation_names(src, t) == whole,
{
    lemma_type_def_bounds(src, c);
}

/// Where the names of the members of kind `k` (`let` or `def`) of `member*` start, in
/// order.
pub open spec fn member_names(src: Seq<u8>, q: int, k: TokenKind) -> Seq<int>
    decreases src.len() - q,
{
    if 0 <= q < src.len() && (kind_at(src, q) == TokenKind::KwLet || kind_at(src, q) == TokenKind::KwDef) {
        match member_end(src, q) {
            Some(m) => if q < m <= src.len() {
                (if kind_at(src, q) == k { seq![next_at(src, q)] } else { Seq::empty() }) + member_names(src, m, k)
            } else {
                Seq::empty()
            },
            None => Seq::empty(),
        }
    } else {
        Seq::empty()
    }
}

/// Where the body of the type definition whose name starts at `name` starts: after
/// the name and the `{`.
pub open spec fn body_start(src: Seq<u8>, name: int) -> int {
    next_at(src, next_at(src, name))
}

/// The shape of an expression that the grammar derives, each reference given by the
/// offset where its identifier starts.
pub enum Syntax {
    SelfRef(int),
    Traversal(int, int),
    TypeRef(int),
    Userset(int, int),
    Paren(Box<Syntax>),
    Binary(BinaryOp, Box<Syntax>, Box<Syntax>),
}

/// The operation of an operator token.
pub open spec fn op_of(k: TokenKind) -> BinaryOp {
    match k {
        TokenKind::Pipe => BinaryOp::Union,
        TokenKind::Amp => BinaryOp::Intersection,
        _ => BinaryOp::Exclusion,
    }
}

/// The shape of the term at `p`.
pub open spec fn term_syntax(src: Seq<u8>, p: int) -> Syntax
    decreases src.len() - p, 1int,
{
    if !(0 <= p < src.len()) {
        Syntax::TypeRef(p)
    } else {
        proof {
            lemma_next_at(src, p);
        }
        let q = next_at(src, p);
        match kind_at(src, p) {
            TokenKind::Dot => if 0 <= q < src.len() && kind_at(src, next_at(src, q)) == TokenKind::Dot {
                Syntax::Traversal(q, next_at(src, next_at(src, q)))
            } else {
                Syntax::SelfRef(q)
            },
            TokenKind::LParen => Syntax::Paren(Box::new(prec_expr(src, q, 0).0)),
            _ => if kind_at(src, q) == TokenKind::ColonColon {
                Syntax::Userset(p, next_at(src, q))
            } else {
                Syntax::TypeRef(p)
            },
        }
    }
}

/// An expression whose operators bind at least as tightly as `min_bp`, as a
/// precedence-climbing parser groups it: operators of equal power to the left. The
/// offset after it comes second.
pub open spec fn prec_expr(src: Seq<u8>, p: int, min_bp: int) -> (Syntax, int)
    decreases src.len() - p, 2int,
{
    match term_end(src, p) {
        Some(t) => if p < t <= src.len() {
            climb(src, term_syntax(src, p), t, min_bp)
        } else {
            (term_syntax(src, p), p)
        },
        None => (term_syntax(src, p), p),
    }
}

/// Extends `lhs` with the operators at `q` that bind at least as tightly as `min_bp`.
pub open spec fn climb(src: Seq<u8>, lhs: Syntax, q: int, min_bp: int) -> (Syntax, int)
    decreases src.len() - q, 0int,
{
    if 0 <= q < src.len() && is_operator(kind_at(src, q)) && op_power(kind_at(src, q)) >= min_bp {
        proof {
            lemma_next_at(src, q);
        }
        let r = prec_expr(src, next_at(src, q), op_power(kind_at(src, q)) + 1);
        if q < r.1 <= src.len() {
            climb(src, Syntax::Binary(op_of(kind_at(src, q)), Box::new(lhs), Box::new(r.0)), r.1, min_bp)
        } else {
            (lhs, q)
        }
    } else {
        (lhs, q)
    }
}

/// The node `id` of the arena `exprs`, with the nodes below it, has the shape `t`.
pub open spec fn represents(exprs: Seq<Expr>, id: int, t: Syntax, src: Seq<u8>) -> bool
    decreases t,
{
    0 <= id < exprs.len() && match t {
        Syntax::SelfRef(q) => exprs[id].term matches ExprTerm::SelfRef(e) && is_token_span(e.span, q, src),
        Syntax::Traversal(q, r) => exprs[id].term matches ExprTerm::Traversal(e)
            && is_token_span(e.relation, q, src) && is_token_span(e.permission, r, src),
        Syntax::TypeRef(q) => exprs[id].term matches ExprTerm::TypeRef(e) && is_token_span(e.span, q, src),
        Syntax::Userset(q, r) => exprs[id].term matches ExprTerm::UsersetTypeRef(e)
            && is_token_span(e.ty, q, src) && is_token_span(e.member, r, src),
        Syntax::Paren(inner) => exprs[id].term matches ExprTerm::Paren(e) && represents(exprs, e.inner.idx() as int, *inner, src),
        Syntax::Binary(op, l, r) => exprs[id].term matches ExprTerm::Binary(e) && e.op == op
            && represents(exprs, e.lhs.idx() as int, *l, src) && represents(exprs, e.rhs.idx() as int, *r, src),
    }
}

/// `span` is the whole token of `src` that starts at `q`.
pub open spec fn is_token_span(span: Span, q: int, src: Seq<u8>) -> bool {
    span.start_spec() == q && span.end_spec() == lex_step(src, q).1
}

/// Nodes appended to an arena leave the shapes below earlier nodes as they were.
pub proof fn lemma_represents_extend(exprs: Seq<Expr>, more: Seq<Expr>, id: int, t: Syntax, src: Seq<u8>)
    requires
        represents(exprs, id, t, src),
        exprs.len() <= more.len(),
        more.subrange(0, exprs.len() as int) == exprs,
    ensures
        represents(more, id, t, src),
    decreases t,
{
    assert(more[id] == exprs[id]);
    match t {
        Syntax::Paren(inner) => {
            if let ExprTerm::Paren(e) = exprs[id].term {
                lemma_represents_extend(exprs, more, e.inner.idx() as int, *inner, src);
            }
        },
        Syntax::Binary(op, l, r) => {
            if let ExprTerm::Binary(e) = exprs[id].term {
                lemma_represents_extend(exprs, more, e.lhs.idx() as int, *l, src);
                lemma_represents_extend(exprs, more, e.rhs.idx() as int, *r, src);
            }
        },
        _ => {},
    }
}

/// A prefix of a prefix is a prefix.
pub proof fn lemma_prefix_trans<T>(a: Seq<T>, b: Seq<T>, c: Seq<T>)
    requires
        a.len() <= b.len(),
        b.subrange(0, a.len() as int) == a,
        b.len() <= c.len(),
        c.subrange(0, b.len() as int) == b,
    ensures
        a.len() <= c.len(),
        c.subrange(0, a.len() as int) == a,
{
    assert(c.subrange(0, a.len() as int) =~= b.subrange(0, a.len() as int));
}

/// Where the expression of the member whose name starts at `name` starts: after the
/// name and the `=`.
pub open spec fn member_expr_start(src: Seq<u8>, name: int) -> int {
    next_at(src, next_at(src, name))
}

/// Every member is named by a whole token, and its expression node has the shape
/// that the grammar gives its expression.
pub open spec fn members_represent(lets: Seq<LetMember>, defs: Seq<DefMember>, exprs: Seq<Expr>, src: Seq<u8>) -> bool {
    &&& forall|i: int| 0 <= i < lets.len() ==> (#[trigger] lets[i]).name.end_spec() == lex_step(src, lets[i].name.start_spec() as int).1
    &&& forall|i: int| 0 <= i < defs.len() ==> (#[trigger] defs[i]).name.end_spec() == lex_step(src, defs[i].name.start_spec() as int).1
    &&& forall|i: int| 0 <= i < lets.len() ==> represents(exprs, (#[trigger] lets[i]).expr.idx() as int,
        prec_expr(src, member_expr_start(src, lets[i].name.start_spec() as int), 0).0, src)
    &&& forall|i: int| 0 <= i < defs.len() ==> represents(exprs, (#[trigger] defs[i]).expr.idx() as int,
        prec_expr(src, member_expr_start(src, defs[i].name.start_spec() as int), 0).0, src)
}

/// Appending expression nodes, and a member whose expression node has its shape,
/// keeps the shapes of the members.
#[verifier::spinoff_prover]
#[verifier::rlimit(40)]
pub proof fn lemma_members_represent_grow(
    lets: Seq<LetMember>,
    defs: Seq<DefMember>,
    exprs: Seq<Expr>,
    lets2: Seq<LetMember>,
    defs2: Seq<DefMember>,
    exprs2: Seq<Expr>,
    src: Seq<u8>,
)
    requires
        members_represent(lets, defs, exprs, src),
        exprs.len() <= exprs2.len(),
        exprs2.subrange(0, exprs.len() as int) == exprs,
        lets == lets2 || (lets2.len() == lets.len() + 1 && lets2.subrange(0, lets.len() as int) == lets
            && lets2.last().name.end_spec() == lex_step(src, lets2.last().name.start_spec() as int).1
            && represents(exprs2, lets2.last().expr.idx() as int,
                prec_expr(src, member_expr_start(src, lets2.last().name.start_spec() as int), 0).0, src)),
        defs == defs2 || (defs2.len() == defs.len() + 1 && defs2.subrange(0, defs.len() as int) == defs
            && defs2.last().name.end_spec() == lex_step(src, defs2.last().name.start_spec() as int).1
            && represents(exprs2, defs2.last().expr.idx() as int,
                prec_expr(src, member_expr_start(src, defs2.last().name.start_spec() as int), 0).0, src)),
    ensures
        members_represent(lets2, defs2, exprs2, src),
{
    assert forall|i: int| 0 <= i < lets2.len() implies (#[trigger] lets2[i]).name.end_spec()
        == lex_step(src, lets2[i].name.start_spec() as int).1 by {
        if i < lets.len() {
            assert(lets2[i] == lets[i]);
        }
    }
    assert forall|i: int| 0 <= i < defs2.len() implies (#[trigger] defs2[i]).name.end_spec()
        == lex_step(src, defs2[i].name.start_spec() as int).1 by {
        if i < defs.len() {
            assert(defs2[i] == defs[i]);
        }
    }
    assert forall|i: int| 0 <= i < lets2.len() implies represents(exprs2, (#[trigger] lets2[i]).expr.idx() as int,
        prec_expr(src, member_expr_start(src, lets2[i].name.start_spec() as int), 0).0, src) by {
        if i < lets.len() {
            assert(lets2[i] == lets[i]);
            lemma_represents_extend(exprs, exprs2, lets[i].expr.idx() as int,
                prec_expr(src, member_expr_start(src, lets[i].name.start_spec() as int), 0).0, src);
        }
    }
    assert forall|i: int| 0 <= i < defs2.len() implies represents(exprs2, (#[trigger] defs2[i]).expr.idx() as int,
        prec_expr(src, member_expr_start(src, defs2[i].name.start_spec() as int), 0).0, src) by {
        if i < defs.len() {
            assert(defs2[i] == defs[i]);
            lemma_represents_extend(exprs, exprs2, defs[i].expr.idx() as int,
                prec_expr(src, member_expr_start(src, defs[i].name.start_spec() as int), 0).0, src);
        }
    }
}

/// Where the names of `let` members start, in order.
pub open spec fn let_name_starts(lets: Seq<LetMember>) -> Seq<int> {
    lets.map_values(|l: LetMember| l.name.start_spec() as int)
}

/// Where the names of `def` members start, in order.
pub open spec fn def_name_starts(defs: Seq<DefMember>) -> Seq<int> {
    defs.map_values(|d: DefMember| d.name.start_spec() as int)
}

/// Each type definition holds the members of its body, in order: its `let` range
/// names the `let` members, its `def` range the `def` members.
pub open spec fn members_match(types: Seq<TypeDef>, lets: Seq<LetMember>, defs: Seq<DefMember>, src: Seq<u8>) -> bool {
    forall|i: int| 0 <= i < types.len() ==> {
        let body = body_start(src, (#[trigger] types[i]).name.start_spec() as int);
        &&& let_name_starts(lets.subrange(types[i].lets.lo() as int, types[i].lets.hi() as int))
            == member_names(src, body, TokenKind::KwLet)
        &&& def_name_starts(defs.subrange(types[i].defs.lo() as int, types[i].defs.hi() as int))
            == member_names(src, body, TokenKind::KwDef)
    }
}

/// One member at `c`, ending at `m`, opens the names of the run of members there.
pub proof fn lemma_member_names_step(src: Seq<u8>, c: int)
    requires
        0 <= c < src.len(),
        kind_at(src, c) == TokenKind::KwLet || kind_at(src, c) == TokenKind::KwDef,
        member_end(src, c) is Some,
    ensures
        c < member_end(src, c)->0 <= src.len(),
        member_names(src, c, TokenKind::KwLet) == (if kind_at(src, c) == TokenKind::KwLet {
            seq![next_at(src, c)]
        } else {
            Seq::empty()
        }) + member_names(src, member_end(src, c)->0, TokenKind::KwLet),
        member_names(src, c, TokenKind::KwDef) == (if kind_at(src, c) == TokenKind::KwDef {
            seq![next_at(src, c)]
        } else {
            Seq::empty()
        }) + member_names(src, member_end(src, c)->0, TokenKind::KwDef),
{
    lemma_next_at(src, c);
    let q = next_at(src, c);
    let r = token_end(src, q, TokenKind::Ident)->0;
    let s = token_end(src, r, TokenKind::Eq)->0;
    let e = expr_end(src, s)->0;
    lemma_token_end(src, q, TokenKind::Ident);
    lemma_token_end(src, r, TokenKind::Eq);
    lemma_term_bounds(src, s);
    lemma_token_end(src, e, TokenKind::Semicolon);
}

/// Appending a `let` member adds its name to the names of a range that reaches the end.
pub proof fn lemma_let_names_push(before: Seq<LetMember>, after: Seq<LetMember>, lo: int, x: int)
    requires
        0 <= lo <= before.len(),
        after.len() == before.len() + 1,
        after.subrange(0, before.len() as int) == before,
        after.last().name.start_spec() == x,
    ensures
        let_name_starts(after.subrange(lo, after.len() as int)) == let_name_starts(before.subrange(lo, before.len() as int)).push(x),
{
    assert(after.subrange(lo, after.len() as int) =~= before.subrange(lo, before.len() as int).push(after.last()));
    assert(let_name_starts(after.subrange(lo, after.len() as int))
        =~= let_name_starts(before.subrange(lo, before.len() as int)).push(x));
}

/// Appending a `def` member adds its name to the names of a range that reaches the end.
pub proof fn lemma_def_names_push(before: Seq<DefMember>, after: Seq<DefMember>, lo: int, x: int)
    requires
        0 <= lo <= before.len(),
        after.len() == before.len() + 1,
        after.subrange(0, before.len() as int) == before,
        after.last().name.start_spec() == x,
    ensures
        def_name_starts(after.subrange(lo, after.len() as int)) == def_name_starts(before.subrange(lo, before.len() as int)).push(x),
{
    assert(after.subrange(lo, after.len() as int) =~= before.subrange(lo, before.len() as int).push(after.last()));
    assert(def_name_starts(after.subrange(lo, after.len() as int))
        =~= def_name_starts(before.subrange(lo, before.len() as int)).push(x));
}

/// Appending a type definition whose ranges name its members keeps the members of
/// the earlier ones, whose ranges lie in the unchanged prefix of the pools.
pub proof fn lemma_members_match_push(
    types_b: Seq<TypeDef>,
    types_a: Seq<TypeDef>,
    lets_b: Seq<LetMember>,
    lets_a: Seq<LetMember>,
    defs_b: Seq<DefMember>,
    defs_a: Seq<DefMember>,
    src: Seq<u8>,
)
    requires
        types_a.len() == types_b.len() + 1,
        types_a.subrange(0, types_b.len() as int) == types_b,
        lets_b.len() <= lets_a.len(),
        lets_a.subrange(0, lets_b.len() as int) == lets_b,
        defs_b.len() <= defs_a.len(),
        defs_a.subrange(0, defs_b.len() as int) == defs_b,
        forall|i: int| 0 <= i < types_b.len() ==> (#[trigger] types_b[i]).lets.lo() <= types_b[i].lets.hi() <= lets_b.len()
            && types_b[i].defs.lo() <= types_b[i].defs.hi() <= defs_b.len(),
        members_match(types_b, lets_b, defs_b, src),
        ({
            let t = types_a.last();
            let body = body_start(src, t.name.start_spec() as int);
            &&& let_name_starts(lets_a.subrange(t.lets.lo() as int, t.lets.hi() as int)) == member_names(src, body, TokenKind::KwLet)
            &&& def_name_starts(defs_a.subrange(t.defs.lo() as int, t.defs.hi() as int)) == member_names(src, body, TokenKind::KwDef)
        }),
    ensures
        members_match(types_a, lets_a, defs_a, src),
{
    assert forall|i: int| 0 <= i < types_a.len() implies {
        let body = body_start(src, (#[trigger] types_a[i]).name.start_spec() as int);
        &&& let_name_starts(lets_a.subrange(types_a[i].lets.lo() as int, types_a[i].lets.hi() as int))
            == member_names(src, body, TokenKind::KwLet)
        &&& def_name_starts(defs_a.subrange(types_a[i].defs.lo() as int, types_a[i].defs.hi() as int))
            == member_names(src, body, TokenKind::KwDef)
    } by {
        if i < types_b.len() {
            let t = types_b[i];
            assert(types_a[i] == types_b[i]);
            assert(lets_a.subrange(t.lets.lo() as int, t.lets.hi() as int) =~= lets_b.subrange(t.lets.lo() as int, t.lets.hi() as int));
            assert(defs_a.subrange(t.defs.lo() as int, t.defs.hi() as int) =~= defs_b.subrange(t.defs.lo() as int, t.defs.hi() as int));
        }
    }
}

/// Where the names of the type definitions start, in order.
pub open spec fn name_starts(types: Seq<TypeDef>) -> Seq<int> {
    types.map_values(|t: TypeDef| t.name.start_spec() as int)
}

/// Every type definition is named by a whole token of `src`.
pub open spec fn names_are_tokens(types: Seq<TypeDef>, src: Seq<u8>) -> bool {
    forall|i: int| 0 <= i < types.len() ==> (#[trigger] types[i]).name.end_spec() == lex_step(src, types[i].name.start_spec() as int).1
}

/// A type definition at `c`, ending at `t`, adds the name after its `type` to the
/// names already collected.
pub proof fn lemma_type_names_step(before: Seq<TypeDef>, after: Seq<TypeDef>, src: Seq<u8>, c: int, t: int)
    requires
        0 <= c < src.len(),
        kind_at(src, c) == TokenKind::KwType,
        type_def_end(src, c) == Some(t),
        after.len() == before.len() + 1,
        after.subrange(0, before.len() as int) == before,
        after.last().name.start_spec() == next_at(src, c),
        after.last().name.end_spec() == lex_step(src, next_at(src, c)).1,
        names_are_tokens(before, src),
    ensures
        name_starts(after) + type_names(src, t) == name_starts(before) + type_names(src, c),
        names_are_tokens(after, src),
{
    lemma_type_names_unfold(src, c, t);
    lemma_names_push(before, after, next_at(src, c), type_names(src, t));
    assert forall|i: int| 0 <= i < after.len() implies (#[trigger] after[i]).name.end_spec()
        == lex_step(src, after[i].name.start_spec() as int).1 by {
        if i < before.len() {
            assert(after[i] == before[i]);
        }
    }
}

proof fn lemma_type_names_unfold(src: Seq<u8>, c: int, t: int)
    requires
        0 <= c < src.len(),
        kind_at(src, c) == TokenKind::KwType,
        type_def_end(src, c) == Some(t),
    ensures
        type_names(src, c) == seq![next_at(src, c)] + type_names(src, t),
{
    lemma_type_def_bounds(src, c);
}

proof fn lemma_names_push(before: Seq<TypeDef>, after: Seq<TypeDef>, x: int, rest: Seq<int>)
    requires
        after.len() == before.len() + 1,
        after.subrange(0, before.len() as int) == before,
        after.last().name.start_spec() == x,
    ensures
        name_starts(after) + rest == name_starts(before) + (seq![x] + rest),
{
    assert(after =~= before.push(after.last()));
    assert(name_starts(after) =~= name_starts(before).push(x));
    assert(name_starts(after) + rest =~= name_starts(before) + (seq![x] + rest));
}

/// A type definition ends after it starts.
pub proof fn lemma_type_def_bounds(src: Seq<u8>, c: int)
    requires
        type_def_end(src, c) is Some,
    ensures
        c < type_def_end(src, c)->0 <= src.len(),
{
    let q = token_end(src, c, TokenKind::KwType)->0;
    let r = token_end(src, q, TokenKind::Ident)->0;
    let s = token_end(src, r, TokenKind::LBrace)->0;
    let m = members_end(src, s)->0;
    lemma_token_end(src, c, TokenKind::KwType);
    lemma_token_end(src, q, TokenKind::Ident);
    lemma_token_end(src, r, TokenKind::LBrace);
    lemma_members_end(src, s);
    lemma_token_end(src, m, TokenKind::RBrace);
}

/// The source is a program: a sequence of type and test definitions, and nothing
/// after them.
pub open spec fn is_program(src: Seq<u8>) -> bool {
    match definitions_end(src, skip_trivia(src, 0)) {
        Some(e) => kind_at(src, e) == TokenKind::Eof,
        None => false,
    }
}

/// A token that the grammar matched is not a lexer error, and the offset after it
/// lies further on.
pub proof fn lemma_token_end(src: Seq<u8>, p: int, k: TokenKind)
    requires
        token_end(src, p, k) is Some,
    ensures
        kind_at(src, p) == k,
        p < token_end(src, p, k)->0 <= src.len(),
{
    lemma_next_at(src, p);
}

/// A term starts with `.`, an identifier or `(`; so does an expression.
pub proof fn lemma_term_start(src: Seq<u8>, p: int)
    requires
        term_end(src, p) is Some || expr_end(src, p) is Some,
    ensures
        0 <= p < src.len(),
        kind_at(src, p) == TokenKind::Dot || kind_at(src, p) == TokenKind::Ident || kind_at(src, p) == TokenKind::LParen,
        term_end(src, p) is Some,
{
}

/// A term, and an expression, span at least one token.
pub proof fn lemma_term_bounds(src: Seq<u8>, p: int)
    ensures
        term_end(src, p) is Some ==> p < term_end(src, p)->0 <= src.len(),
        expr_end(src, p) is Some ==> p < expr_end(src, p)->0 <= src.len(),
    decreases src.len() - p,
{
    if 0 <= p < src.len() {
        lemma_next_at(src, p);
        let q = next_at(src, p);
        if token_end(src, q, TokenKind::Ident) is Some {
            lemma_token_end(src, q, TokenKind::Ident);
            let r = token_end(src, q, TokenKind::Ident)->0;
            if token_end(src, r, TokenKind::Dot) is Some {
                lemma_token_end(src, r, TokenKind::Dot);
                let s = token_end(src, r, TokenKind::Dot)->0;
                if token_end(src, s, TokenKind::Ident) is Some {
                    lemma_token_end(src, s, TokenKind::Ident);
                }
            }
        }
        if token_end(src, q, TokenKind::ColonColon) is Some {
            lemma_token_end(src, q, TokenKind::ColonColon);
            let r = token_end(src, q, TokenKind::ColonColon)->0;
            if token_end(src, r, TokenKind::Ident) is Some {
                lemma_token_end(src, r, TokenKind::Ident);
            }
        }
        lemma_term_bounds(src, q);
        if expr_end(src, q) is Some {
            let e = expr_end(src, q)->0;
            if token_end(src, e, TokenKind::RParen) is Some {
                lemma_token_end(src, e, TokenKind::RParen);
            }
        }
        if term_end(src, p) is Some {
            let t = term_end(src, p)->0;
            if p < t <= src.len() && ops_end(src, t) is Some {
                lemma_ops_end(src, t);
            }
        }
    }
}

/// One step of a run of operators: the operator at `q`, then an expression that
/// ends where the run does.
pub proof fn lemma_ops_step(src: Seq<u8>, q: int)
    requires
        0 <= q < src.len(),
        is_operator(kind_at(src, q)),
        ops_end(src, q) is Some,
    ensures
        token_end(src, q, kind_at(src, q)) == Some(next_at(src, q)),
        expr_end(src, next_at(src, q)) == ops_end(src, q),
        term_end(src, next_at(src, q)) is Some,
{
    lemma_next_at(src, q);
    let r = next_at(src, q);
    lemma_term_bounds(src, r);
}

/// The binding power of an operator: `|` binds loosest, `-` tightest.
pub open spec fn op_power(k: TokenKind) -> int {
    match k {
        TokenKind::Pipe => 1,
        TokenKind::Amp => 3,
        _ => 5,
    }
}

/// Where a run of operators and terms ends, the token is not a lexer error if the
/// token that ends the run is not; the run ends no earlier than it starts.
pub proof fn lemma_ops_end(src: Seq<u8>, q: int)
    requires
        0 <= q <= src.len(),
        ops_end(src, q) is Some,
    ensures
        q <= ops_end(src, q)->0 <= src.len(),
        !is_error_kind(kind_at(src, ops_end(src, q)->0)) ==> !is_error_kind(kind_at(src, q)),
    decreases src.len() - q,
{
    if 0 <= q < src.len() && is_operator(kind_at(src, q)) {
        lemma_next_at(src, q);
        let t = term_end(src, next_at(src, q))->0;
        lemma_ops_end(src, t);
    }
}

/// The same for a run of members.
pub proof fn lemma_members_end(src: Seq<u8>, q: int)
    requires
        0 <= q <= src.len(),
        members_end(src, q) is Some,
    ensures
        q <= members_end(src, q)->0 <= src.len(),
        !is_error_kind(kind_at(src, members_end(src, q)->0)) ==> !is_error_kind(kind_at(src, q)),
    decreases src.len() - q,
{
    if 0 <= q < src.len() && (kind_at(src, q) == TokenKind::KwLet || kind_at(src, q) == TokenKind::KwDef) {
        let m = member_end(src, q)->0;
        lemma_members_end(src, m);
    }
}

/// The same for a run of definitions.
pub proof fn lemma_definitions_end(src: Seq<u8>, q: int)
    requires
        0 <= q <= src.len(),
        definitions_end(src, q) is Some,
    ensures
        q <= definitions_end(src, q)->0 <= src.len(),
        !is_error_kind(kind_at(src, definitions_end(src, q)->0)) ==> !is_error_kind(kind_at(src, q)),
    decreases src.len() - q,
{
    if 0 <= q < src.len() && kind_at(src, q) == TokenKind::KwType {
        lemma_definitions_end(src, type_def_end(src, q)->0);
    } else if 0 <= q < src.len() && kind_at(src, q) == TokenKind::KwTest {
        lemma_definitions_end(src, test_def_end(src, q)->0);
    }
}

/// The same for a run of grouped assignments.
pub proof fn lemma_assigns_end(src: Seq<u8>, q: int)
    requires
        0 <= q <= src.len(),
        assigns_end(src, q) is Some,
    ensures
        q <= assigns_end(src, q)->0 <= src.len(),
        !is_error_kind(kind_at(src, assigns_end(src, q)->0)) ==> !is_error_kind(kind_at(src, q)),
    decreases src.len() - q,
{
    if 0 <= q < src.len() && kind_at(src, q) == TokenKind::Dot {
        lemma_next_at(src, q);
        lemma_assigns_end(src, assign_end(src, next_at(src, q))->0);
    }
}

/// The same for a run of relations.
pub proof fn lemma_relations_end(src: Seq<u8>, q: int)
    requires
        0 <= q <= src.len(),
        relations_end(src, q) is Some,
    ensures
        q <= relations_end(src, q)->0 <= src.len(),
        !is_error_kind(kind_at(src, relations_end(src, q)->0)) ==> !is_error_kind(kind_at(src, q)),
    decreases src.len() - q,
{
    if 0 <= q < src.len() && kind_at(src, q) == TokenKind::Ident {
        lemma_relations_end(src, relation_end(src, q)->0);
    }
}

/// The same for a run of assertions.
pub proof fn lemma_assertions_end(src: Seq<u8>, q: int)
    requires
        0 <= q <= src.len(),
        assertions_end(src, q) is Some,
    ensures
        q <= assertions_end(src, q)->0 <= src.len(),
        !is_error_kind(kind_at(src, assertions_end(src, q)->0)) ==> !is_error_kind(kind_at(src, q)),
    decreases src.len() - q,
{
    if 0 <= q < src.len() && (kind_at(src, q) == TokenKind::KwAssert || kind_at(src, q) == TokenKind::KwAssertNot) {
        lemma_assertions_end(src, assertion_end(src, q)->0);
    }
}


/// `ast` is the tree of the program `src`: its type definitions are those of the
/// program, in order, each named by the identifier after its `type`; each holds its
/// `let` and `def` members in order, named by the identifiers after their keywords;
/// the expression of each member has the shape that the grammar gives it; and its
/// tests are those of the program, in order, each named by the string after its
/// `test`; its relations are those of the tests, in order, each named by the
/// identifier of its assignment; and its assertions are those of the tests, in
/// order, each of the kind that its keyword gives and about the permission that it
/// names.
pub open spec fn program_tree(ast: Ast, src: Seq<u8>) -> bool {
    &&& name_starts(ast.type_nodes()) == type_names(src, skip_trivia(src, 0))
    &&& names_are_tokens(ast.type_nodes(), src)
    &&& members_match(ast.type_nodes(), ast.let_nodes(), ast.def_nodes(), src)
    &&& members_represent(ast.let_nodes(), ast.def_nodes(), ast.expr_nodes(), src)
    &&& test_name_starts(ast.test_nodes()) == test_names(src, skip_trivia(src, 0))
    &&& test_names_are_tokens(ast.test_nodes(), src)
    &&& assertions_match(ast.assert_nodes(), program_assertions(src, skip_trivia(src, 0)), src)
    &&& relations_named(ast.relation_nodes(), ast.subject_nodes(), program_relation_names(src, skip_trivia(src, 0)), src)
    &&& ranges_follow(ast.test_nodes(), test_counts(src, skip_trivia(src, 0)))
}

} // verus!
