//! Decides whether a source is a program of the grammar of [`crate::grammar`].
use crate::grammar::{
    assertion_end, assertions_end, assign_end, assigns_end, definitions_end, expr_end, instance_end,
    is_operator, is_program, kind_at, lemma_next_at, member_end, members_end, next_at, ops_end, relation_end,
    relations_block_end, relations_end, subject_end, term_end, test_def_end, token_end, type_def_end,
};
use crate::lexer::{lemma_lex_step_bounds, lemma_skip_trivia, skip_trivia, Lexer, TokenKind};
use vstd::prelude::*;

verus! {

/// An offset as a mathematical integer, if there is one.
pub open spec fn offset(r: Option<u32>) -> Option<int> {
    match r {
        Some(x) => Some(x as int),
        None => None,
    }
}

/// The kind of the token at `p` and where the next one starts.
fn kind_next(src: &[u8], p: u32) -> (r: (TokenKind, u32))
    requires
        src@.len() <= u32::MAX,
        p <= src@.len(),
    ensures
        r.0 == kind_at(src@, p as int),
        r.1 == next_at(src@, p as int),
        p <= r.1 <= src@.len(),
{
    let mut lexer = Lexer::at(src, p);
    let t = lexer.next_token();
    proof {
        lemma_lex_step_bounds(src@, p as int);
        lemma_skip_trivia(src@, lexer.pos());
    }
    let n = lexer.next_nontrivial();
    (t.kind(), n.span().start())
}

/// Where the token of kind `k` at `p` ends, counting the trivia after it.
fn token_end_at(src: &[u8], p: u32, k: TokenKind) -> (r: Option<u32>)
    requires
        src@.len() <= u32::MAX,
        p <= src@.len(),
    ensures
        offset(r) == token_end(src@, p as int, k),
        r matches Some(x) ==> p <= x <= src@.len(),
{
    if (p as usize) < src.len() {
        let (kind, next) = kind_next(src, p);
        if kind == k {
            return Some(next);
        }
    }
    None
}

/// [`term_end`], computed.
fn term_end_at(src: &[u8], p: u32) -> (r: Option<u32>)
    requires
        src@.len() <= u32::MAX,
        p <= src@.len(),
    ensures
        offset(r) == term_end(src@, p as int),
        r matches Some(x) ==> p <= x <= src@.len(),
    decreases src@.len() - p, 1int,
{
    if (p as usize) >= src.len() {
        return None;
    }
    proof {
        lemma_next_at(src@, p as int);
    }
    let (kind, q) = kind_next(src, p);
    match kind {
        TokenKind::Dot => match token_end_at(src, q, TokenKind::Ident) {
            Some(r) => match token_end_at(src, r, TokenKind::Dot) {
                Some(s) => token_end_at(src, s, TokenKind::Ident),
                None => Some(r),
            },
            None => None,
        },
        TokenKind::Ident => match token_end_at(src, q, TokenKind::ColonColon) {
            Some(r) => token_end_at(src, r, TokenKind::Ident),
            None => Some(q),
        },
        TokenKind::LParen => match expr_end_at(src, q) {
            Some(e) => token_end_at(src, e, TokenKind::RParen),
            None => None,
        },
        _ => None,
    }
}

/// [`expr_end`], computed.
fn expr_end_at(src: &[u8], p: u32) -> (r: Option<u32>)
    requires
        src@.len() <= u32::MAX,
        p <= src@.len(),
    ensures
        offset(r) == expr_end(src@, p as int),
        r matches Some(x) ==> p <= x <= src@.len(),
    decreases src@.len() - p, 2int,
{
    match term_end_at(src, p) {
        Some(t) => if p < t {
            ops_end_at(src, t)
        } else {
            None
        },
        None => None,
    }
}

/// [`ops_end`], computed.
fn ops_end_at(src: &[u8], q0: u32) -> (r: Option<u32>)
    requires
        src@.len() <= u32::MAX,
        q0 <= src@.len(),
    ensures
        offset(r) == ops_end(src@, q0 as int),
        r matches Some(x) ==> q0 <= x <= src@.len(),
    decreases src@.len() - q0, 0int,
{
    let mut q = q0;
    loop
        invariant
            src@.len() <= u32::MAX,
            q0 <= q <= src@.len(),
            ops_end(src@, q as int) == ops_end(src@, q0 as int),
        decreases src@.len() - q,
    {
        if (q as usize) >= src.len() {
            return Some(q);
        }
        let (kind, next) = kind_next(src, q);
        if !(kind == TokenKind::Pipe || kind == TokenKind::Amp || kind == TokenKind::Minus) {
            return Some(q);
        }
        proof {
            lemma_next_at(src@, q as int);
        }
        match term_end_at(src, next) {
            Some(t) => if q < t {
                q = t;
            } else {
                return None;
            },
            None => return None,
        }
    }
}

/// [`member_end`], computed.
fn member_end_at(src: &[u8], p: u32) -> (r: Option<u32>)
    requires
        src@.len() <= u32::MAX,
        p <= src@.len(),
    ensures
        offset(r) == member_end(src@, p as int),
        r matches Some(x) ==> p <= x <= src@.len(),
{
    if (p as usize) >= src.len() {
        return None;
    }
    let (kind, next) = kind_next(src, p);
    if !(kind == TokenKind::KwLet || kind == TokenKind::KwDef) {
        return None;
    }
    match token_end_at(src, next, TokenKind::Ident) {
        Some(q) => match token_end_at(src, q, TokenKind::Eq) {
            Some(r) => match expr_end_at(src, r) {
                Some(e) => token_end_at(src, e, TokenKind::Semicolon),
                None => None,
            },
            None => None,
        },
        None => None,
    }
}

/// [`members_end`], computed.
fn members_end_at(src: &[u8], q0: u32) -> (r: Option<u32>)
    requires
        src@.len() <= u32::MAX,
        q0 <= src@.len(),
    ensures
        offset(r) == members_end(src@, q0 as int),
        r matches Some(x) ==> q0 <= x <= src@.len(),
{
    let mut q = q0;
    loop
        invariant
            src@.len() <= u32::MAX,
            q0 <= q <= src@.len(),
            members_end(src@, q as int) == members_end(src@, q0 as int),
        decreases src@.len() - q,
    {
        if (q as usize) >= src.len() {
            return Some(q);
        }
        let (kind, _) = kind_next(src, q);
        if !(kind == TokenKind::KwLet || kind == TokenKind::KwDef) {
            return Some(q);
        }
        match member_end_at(src, q) {
            Some(m) => if q < m {
                q = m;
            } else {
                return None;
            },
            None => return None,
        }
    }
}

/// [`type_def_end`], computed.
fn type_def_end_at(src: &[u8], p: u32) -> (r: Option<u32>)
    requires
        src@.len() <= u32::MAX,
        p <= src@.len(),
    ensures
        offset(r) == type_def_end(src@, p as int),
        r matches Some(x) ==> p <= x <= src@.len(),
{
    match token_end_at(src, p, TokenKind::KwType) {
        Some(q) => match token_end_at(src, q, TokenKind::Ident) {
            Some(r) => match token_end_at(src, r, TokenKind::LBrace) {
                Some(s) => match members_end_at(src, s) {
                    Some(m) => token_end_at(src, m, TokenKind::RBrace),
                    None => None,
                },
                None => None,
            },
            None => None,
        },
        None => None,
    }
}

/// [`instance_end`], computed.
fn instance_end_at(src: &[u8], p: u32) -> (r: Option<u32>)
    requires
        src@.len() <= u32::MAX,
        p <= src@.len(),
    ensures
        offset(r) == instance_end(src@, p as int),
        r matches Some(x) ==> p <= x <= src@.len(),
{
    match token_end_at(src, p, TokenKind::Ident) {
        Some(q) => match token_end_at(src, q, TokenKind::LParen) {
            Some(r) => match token_end_at(src, r, TokenKind::String) {
                Some(s) => token_end_at(src, s, TokenKind::RParen),
                None => None,
            },
            None => None,
        },
        None => None,
    }
}

/// [`subject_end`], computed.
fn subject_end_at(src: &[u8], p: u32) -> (r: Option<u32>)
    requires
        src@.len() <= u32::MAX,
        p <= src@.len(),
    ensures
        offset(r) == subject_end(src@, p as int),
        r matches Some(x) ==> p <= x <= src@.len(),
{
    match instance_end_at(src, p) {
        Some(q) => match token_end_at(src, q, TokenKind::ColonColon) {
            Some(r) => token_end_at(src, r, TokenKind::Ident),
            None => Some(q),
        },
        None => None,
    }
}

/// [`assign_end`], computed.
fn assign_end_at(src: &[u8], p: u32) -> (r: Option<u32>)
    requires
        src@.len() <= u32::MAX,
        p <= src@.len(),
    ensures
        offset(r) == assign_end(src@, p as int),
        r matches Some(x) ==> p <= x <= src@.len(),
{
    match token_end_at(src, p, TokenKind::Ident) {
        Some(q) => match token_end_at(src, q, TokenKind::Colon) {
            Some(r) => match subject_end_at(src, r) {
                Some(s) => token_end_at(src, s, TokenKind::Semicolon),
                None => None,
            },
            None => None,
        },
        None => None,
    }
}

/// [`assigns_end`], computed.
fn assigns_end_at(src: &[u8], q0: u32) -> (r: Option<u32>)
    requires
        src@.len() <= u32::MAX,
        q0 <= src@.len(),
    ensures
        offset(r) == assigns_end(src@, q0 as int),
        r matches Some(x) ==> q0 <= x <= src@.len(),
{
    let mut q = q0;
    loop
        invariant
            src@.len() <= u32::MAX,
            q0 <= q <= src@.len(),
            assigns_end(src@, q as int) == assigns_end(src@, q0 as int),
        decreases src@.len() - q,
    {
        if (q as usize) >= src.len() {
            return Some(q);
        }
        let (kind, next) = kind_next(src, q);
        if kind != TokenKind::Dot {
            return Some(q);
        }
        match assign_end_at(src, next) {
            Some(a) => if q < a {
                q = a;
            } else {
                return None;
            },
            None => return None,
        }
    }
}

/// [`relation_end`], computed.
fn relation_end_at(src: &[u8], p: u32) -> (r: Option<u32>)
    requires
        src@.len() <= u32::MAX,
        p <= src@.len(),
    ensures
        offset(r) == relation_end(src@, p as int),
        r matches Some(x) ==> p <= x <= src@.len(),
{
    match instance_end_at(src, p) {
        Some(q) => match token_end_at(src, q, TokenKind::Dot) {
            Some(r) => {
                let (kind, _) = kind_next(src, r);
                if kind == TokenKind::LBrace {
                    match token_end_at(src, r, TokenKind::LBrace) {
                        Some(s) => match assigns_end_at(src, s) {
                            Some(t) => match token_end_at(src, t, TokenKind::RBrace) {
                                Some(u) => token_end_at(src, u, TokenKind::Semicolon),
                                None => None,
                            },
                            None => None,
                        },
                        None => None,
                    }
                } else {
                    assign_end_at(src, r)
                }
            },
            None => None,
        },
        None => None,
    }
}

/// [`relations_end`], computed.
fn relations_end_at(src: &[u8], q0: u32) -> (r: Option<u32>)
    requires
        src@.len() <= u32::MAX,
        q0 <= src@.len(),
    ensures
        offset(r) == relations_end(src@, q0 as int),
        r matches Some(x) ==> q0 <= x <= src@.len(),
{
    let mut q = q0;
    loop
        invariant
            src@.len() <= u32::MAX,
            q0 <= q <= src@.len(),
            relations_end(src@, q as int) == relations_end(src@, q0 as int),
        decreases src@.len() - q,
    {
        if (q as usize) >= src.len() {
            return Some(q);
        }
        let (kind, _) = kind_next(src, q);
        if kind != TokenKind::Ident {
            return Some(q);
        }
        match relation_end_at(src, q) {
            Some(m) => if q < m {
                q = m;
            } else {
                return None;
            },
            None => return None,
        }
    }
}

/// [`assertion_end`], computed.
fn assertion_end_at(src: &[u8], p: u32) -> (r: Option<u32>)
    requires
        src@.len() <= u32::MAX,
        p <= src@.len(),
    ensures
        offset(r) == assertion_end(src@, p as int),
        r matches Some(x) ==> p <= x <= src@.len(),
{
    if (p as usize) >= src.len() {
        return None;
    }
    let (kind, next) = kind_next(src, p);
    if !(kind == TokenKind::KwAssert || kind == TokenKind::KwAssertNot) {
        return None;
    }
    match token_end_at(src, next, TokenKind::LParen) {
        Some(q) => match instance_end_at(src, q) {
            Some(r) => match token_end_at(src, r, TokenKind::Dot) {
                Some(s) => match token_end_at(src, s, TokenKind::Ident) {
                    Some(t) => match token_end_at(src, t, TokenKind::LParen) {
                        Some(u) => match instance_end_at(src, u) {
                            Some(v) => match token_end_at(src, v, TokenKind::RParen) {
                                Some(w) => match token_end_at(src, w, TokenKind::RParen) {
                                    Some(x) => token_end_at(src, x, TokenKind::Semicolon),
                                    None => None,
                                },
                                None => None,
                            },
                            None => None,
                        },
                        None => None,
                    },
                    None => None,
                },
                None => None,
            },
            None => None,
        },
        None => None,
    }
}

/// [`assertions_end`], computed.
fn assertions_end_at(src: &[u8], q0: u32) -> (r: Option<u32>)
    requires
        src@.len() <= u32::MAX,
        q0 <= src@.len(),
    ensures
        offset(r) == assertions_end(src@, q0 as int),
        r matches Some(x) ==> q0 <= x <= src@.len(),
{
    let mut q = q0;
    loop
        invariant
            src@.len() <= u32::MAX,
            q0 <= q <= src@.len(),
            assertions_end(src@, q as int) == assertions_end(src@, q0 as int),
        decreases src@.len() - q,
    {
        if (q as usize) >= src.len() {
            return Some(q);
        }
        let (kind, _) = kind_next(src, q);
        if !(kind == TokenKind::KwAssert || kind == TokenKind::KwAssertNot) {
            return Some(q);
        }
        match assertion_end_at(src, q) {
            Some(m) => if q < m {
                q = m;
            } else {
                return None;
            },
            None => return None,
        }
    }
}

/// [`relations_block_end`], computed.
fn relations_block_end_at(src: &[u8], p: u32) -> (r: Option<u32>)
    requires
        src@.len() <= u32::MAX,
        p <= src@.len(),
    ensures
        offset(r) == relations_block_end(src@, p as int),
        r matches Some(x) ==> p <= x <= src@.len(),
{
    match token_end_at(src, p, TokenKind::KwRelations) {
        Some(q) => match token_end_at(src, q, TokenKind::LBrace) {
            Some(r) => match relations_end_at(src, r) {
                Some(s) => token_end_at(src, s, TokenKind::RBrace),
                None => None,
            },
            None => None,
        },
        None => None,
    }
}

/// [`test_def_end`], computed.
fn test_def_end_at(src: &[u8], p: u32) -> (r: Option<u32>)
    requires
        src@.len() <= u32::MAX,
        p <= src@.len(),
    ensures
        offset(r) == test_def_end(src@, p as int),
        r matches Some(x) ==> p <= x <= src@.len(),
{
    match token_end_at(src, p, TokenKind::KwTest) {
        Some(q) => match token_end_at(src, q, TokenKind::String) {
            Some(r) => match token_end_at(src, r, TokenKind::LBrace) {
                Some(s) => match relations_block_end_at(src, s) {
                    Some(t) => match assertions_end_at(src, t) {
                        Some(u) => token_end_at(src, u, TokenKind::RBrace),
                        None => None,
                    },
                    None => None,
                },
                None => None,
            },
            None => None,
        },
        None => None,
    }
}

/// [`definitions_end`], computed.
fn definitions_end_at(src: &[u8], q0: u32) -> (r: Option<u32>)
    requires
        src@.len() <= u32::MAX,
        q0 <= src@.len(),
    ensures
        offset(r) == definitions_end(src@, q0 as int),
        r matches Some(x) ==> q0 <= x <= src@.len(),
{
    let mut q = q0;
    loop
        invariant
            src@.len() <= u32::MAX,
            q0 <= q <= src@.len(),
            definitions_end(src@, q as int) == definitions_end(src@, q0 as int),
        decreases src@.len() - q,
    {
        if (q as usize) >= src.len() {
            return Some(q);
        }
        let (kind, _) = kind_next(src, q);
        let end = if kind == TokenKind::KwType {
            type_def_end_at(src, q)
        } else if kind == TokenKind::KwTest {
            test_def_end_at(src, q)
        } else {
            return Some(q);
        };
        match end {
            Some(t) => if q < t {
                q = t;
            } else {
                return None;
            },
            None => return None,
        }
    }
}

/// Whether the source is a program: a sequence of type and test definitions, and
/// nothing after them.
pub fn is_program_source(src: &[u8]) -> (r: bool)
    requires
        src@.len() <= u32::MAX,
    ensures
        r == is_program(src@),
{
    let mut lexer = Lexer::new(src);
    proof {
        lemma_skip_trivia(src@, 0);
    }
    let first = lexer.next_nontrivial();
    let start = first.span().start();
    match definitions_end_at(src, start) {
        Some(e) => {
            let (kind, _) = kind_next(src, e);
            kind == TokenKind::Eof
        },
        None => false,
    }
}

} // verus!
