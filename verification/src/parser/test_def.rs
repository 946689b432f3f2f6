use crate::ast::{Assert, instance_fits, AssertRange, AssertionKind, Instance, RelationRange, SubjectId};
use crate::diagnostic::Reporter;
use crate::grammar::{
    relation_at, lemma_prefix_trans,
    instance_at, subject_at,
    test_relations_start, lemma_relations_names_step, assign_names, relations_named, relation_names, relations_names, lemma_relations_named_extend,
    assertion_matches, assertion_starts, assertions_match, lemma_assertion_starts_step, lemma_assertions_match_append,
    test_assertions_start,
    assertion_end, assertions_end, assign_end, assigns_end, instance_end, kind_at, lemma_assertions_end,
    lemma_assigns_end, lemma_next_at, lemma_relations_end, lemma_token_end, next_at, relation_end,
    relations_block_end, relations_end, subject_end, test_def_end, token_end, is_token_span,
};
use crate::lexer::{is_error_kind, lemma_lex_step_bounds, lex_step, TokenKind};
use crate::parse_errors as errors;
use crate::parser::Parser;
use crate::span::Span;
use vstd::prelude::*;

verus! {

/// Pushing keeps what was there and puts the new item last.
proof fn lemma_push_prefix<T>(s: Seq<T>, x: T)
    ensures
        s.push(x).len() == s.len() + 1,
        s.push(x).subrange(0, s.len() as int) == s,
        s.push(x).last() == x,
{
    assert(s.push(x).subrange(0, s.len() as int) =~= s);
}

/// An assertion node pushed after a run that matches `done` extends the run by the
/// assertion at `c`.
proof fn lemma_assert_pushed(a0: Seq<Assert>, before: Seq<Assert>, after: Seq<Assert>, done: Seq<int>, c: int, src: Seq<u8>)
    requires
        a0.len() <= before.len(),
        before.subrange(0, a0.len() as int) == a0,
        assertions_match(before.subrange(a0.len() as int, before.len() as int), done, src),
        after.len() == before.len() + 1,
        after.subrange(0, before.len() as int) == before,
        assertion_matches(after.last(), c, src),
    ensures
        after.subrange(0, a0.len() as int) == a0,
        assertions_match(after.subrange(a0.len() as int, after.len() as int), done.push(c), src),
{
    assert(after.subrange(0, a0.len() as int) =~= before.subrange(0, a0.len() as int));
    let mid = before.subrange(a0.len() as int, before.len() as int);
    assert(after.subrange(a0.len() as int, after.len() as int) =~= mid + seq![after.last()]);
    assert(done.push(c) =~= done + seq![c]);
    assert(assertions_match(seq![after.last()], seq![c], src));
    lemma_assertions_match_append(mid, done, seq![after.last()], seq![c], src);
}

impl<'src, R: Reporter> Parser<'src, R> {
    /// Parses `test "name" { relations { ... } assert...; }`.
    #[verifier::spinoff_prover]
    #[verifier::rlimit(100)]
    pub(crate) fn test_def(&mut self)
        requires
            old(self).inv(),
            old(self).kind() == TokenKind::KwTest,
        ensures
            old(self).ast.subjects.nodes().len() <= final(self).ast.subjects.nodes().len(),
            final(self).ast.subjects.nodes().subrange(0, old(self).ast.subjects.nodes().len() as int) == old(self).ast.subjects.nodes(),
            final(self).ast.types == old(self).ast.types,
            final(self).ast.lets == old(self).ast.lets,
            final(self).ast.defs == old(self).ast.defs,
            final(self).ast.exprs == old(self).ast.exprs,
            final(self).inv(),
            final(self).settled(),
            old(self).grows(&*final(self)),
            final(self).measure() < old(self).measure(),
            final(self).credit() >= old(self).credit(),
            old(self).derives(test_def_end(old(self).src(), old(self).tstart()))
                ==> old(self).reached(&*final(self), test_def_end(old(self).src(), old(self).tstart())),
            old(self).derives(test_def_end(old(self).src(), old(self).tstart())) ==> {
                let tests = final(self).ast.tests.nodes();
                let q = next_at(old(self).src(), old(self).tstart());
                &&& tests.len() == old(self).ast.tests.nodes().len() + 1
                &&& tests.subrange(0, old(self).ast.tests.nodes().len() as int) == old(self).ast.tests.nodes()
                &&& tests.last().name.start_spec() == q
                &&& tests.last().name.end_spec() == lex_step(old(self).src(), q).1
                &&& tests.last().relations.lo() == old(self).ast.relations.nodes().len()
                &&& tests.last().relations.hi() == final(self).ast.relations.nodes().len()
                &&& tests.last().asserts.lo() == old(self).ast.asserts.nodes().len()
                &&& tests.last().asserts.hi() == final(self).ast.asserts.nodes().len()
            },
            old(self).derives(test_def_end(old(self).src(), old(self).tstart())) ==> {
                let r0 = old(self).ast.relations.nodes();
                let rs = final(self).ast.relations.nodes();
                &&& r0.len() <= rs.len()
                &&& rs.subrange(0, r0.len() as int) == r0
                &&& relations_named(rs.subrange(r0.len() as int, rs.len() as int), final(self).ast.subjects.nodes(),
                    relations_names(old(self).src(), test_relations_start(old(self).src(), old(self).tstart())), old(self).src())
            },
            old(self).derives(test_def_end(old(self).src(), old(self).tstart())) ==> {
                let a0 = old(self).ast.asserts.nodes();
                let a = final(self).ast.asserts.nodes();
                &&& a0.len() <= a.len()
                &&& a.subrange(0, a0.len() as int) == a0
                &&& assertions_match(a.subrange(a0.len() as int, a.len() as int),
                    assertion_starts(old(self).src(), test_assertions_start(old(self).src(), old(self).tstart())), old(self).src())
            },
    {
        let ghost src = self.src();
        let ghost p = self.tstart();
        proof {
            if old(self).derives(test_def_end(src, p)) {
                let q = next_at(src, p);
                let r = next_at(src, q);
                let s = next_at(src, r);
                let t = relations_block_end(src, s)->0;
                let u = assertions_end(src, t)->0;
                lemma_token_end(src, p, TokenKind::KwTest);
                lemma_token_end(src, q, TokenKind::String);
                lemma_token_end(src, r, TokenKind::LBrace);
                lemma_token_end(src, s, TokenKind::KwRelations);
                lemma_token_end(src, u, TokenKind::RBrace);
                lemma_assertions_end(src, t);
            }
        }
        let start = self.start_span();
        let _ = self.expect(TokenKind::KwTest);
        let ghost valid = old(self).derives(test_def_end(src, p));
        let ghost q = next_at(src, p);
        let ghost at = self.tstart();
        let ghost tok = self.token;
        let ghost pos = self.lexer.pos();
        assert(valid ==> at == q);
        assert(valid ==> tok.kind_spec() == TokenKind::String) by {
            if valid {
                assert(lex_step(src, at).0 == tok.kind_spec());
            }
        }
        let name = self.string();
        assert(valid ==> name.start_spec() == q && name.end_spec() == lex_step(src, q).1) by {
            if valid {
                assert(name == tok.span_spec());
                assert(lex_step(src, at).1 == pos);
            }
        }
        let open = self.expect(TokenKind::LBrace);
        self.test_contents(start, name);
        self.close(open, TokenKind::RBrace, "'{'");
    }

    /// Parses the relations block and the assertions of a test body and records the
    /// test, named `name`.
    #[verifier::spinoff_prover]
    fn test_contents(&mut self, start: u32, name: Span)
        requires
            old(self).inv(),
            old(self).settled(),
            old(self).credit() >= 1,
            start <= old(self).src().len(),
            name.fits(old(self).src()),
        ensures
            old(self).ast.subjects.nodes().len() <= final(self).ast.subjects.nodes().len(),
            final(self).ast.subjects.nodes().subrange(0, old(self).ast.subjects.nodes().len() as int) == old(self).ast.subjects.nodes(),
            final(self).ast.types == old(self).ast.types,
            final(self).ast.lets == old(self).ast.lets,
            final(self).ast.defs == old(self).ast.defs,
            final(self).ast.exprs == old(self).ast.exprs,
            final(self).inv(),
            final(self).settled(),
            old(self).grows(&*final(self)),
            final(self).credit() >= old(self).credit() - 1,
            ({
                let src = old(self).src();
                let t = relations_block_end(src, old(self).tstart());
                old(self).derives(t) && t is Some && old(self).pending is None
                    && assertions_end(src, t->0) is Some
                    && !is_error_kind(kind_at(src, assertions_end(src, t->0)->0))
                    && kind_at(src, assertions_end(src, t->0)->0) == TokenKind::RBrace
                    ==> old(self).reached(&*final(self), assertions_end(src, t->0)) && {
                        let tests = final(self).ast.tests.nodes();
                        &&& tests.len() == old(self).ast.tests.nodes().len() + 1
                        &&& tests.subrange(0, old(self).ast.tests.nodes().len() as int) == old(self).ast.tests.nodes()
                        &&& tests.last().name == name
                        &&& tests.last().relations.lo() == old(self).ast.relations.nodes().len()
                        &&& tests.last().relations.hi() == final(self).ast.relations.nodes().len()
                        &&& tests.last().asserts.lo() == old(self).ast.asserts.nodes().len()
                        &&& tests.last().asserts.hi() == final(self).ast.asserts.nodes().len()
                    } && {
                        let r0 = old(self).ast.relations.nodes();
                        let rs = final(self).ast.relations.nodes();
                        &&& r0.len() <= rs.len()
                        &&& rs.subrange(0, r0.len() as int) == r0
                        &&& relations_named(rs.subrange(r0.len() as int, rs.len() as int), final(self).ast.subjects.nodes(),
                            relations_names(src, next_at(src, next_at(src, old(self).tstart()))), src)
                    } && {
                        let a0 = old(self).ast.asserts.nodes();
                        let a = final(self).ast.asserts.nodes();
                        &&& a0.len() <= a.len()
                        &&& a.subrange(0, a0.len() as int) == a0
                        &&& assertions_match(a.subrange(a0.len() as int, a.len() as int), assertion_starts(src, t->0), src)
                    }
            }),
    {
        let ghost tests0 = self.ast.tests.nodes();
        if let Some(relations) = self.relations(start, name) {
            let asserts = self.asserts();
            let span = self.end_span(start);
            let _ = self.ast.test_def(span, name, relations, asserts);
            proof {
                lemma_push_prefix(tests0, crate::ast::TestDef { span, name, relations, asserts });
            }
        }
    }

    /// Parses the `relations { ... }` block that opens a test body. Without it the test
    /// is recorded with no relations and no assertions, the rest of the body up to its
    /// closing brace is skipped, and `None` is returned.
    fn relations(&mut self, start: u32, name: Span) -> (r: Option<RelationRange>)
        requires
            old(self).inv(),
            old(self).settled(),
            old(self).credit() >= 1,
            start <= old(self).src().len(),
            name.fits(old(self).src()),
        ensures
            old(self).ast.subjects.nodes().len() <= final(self).ast.subjects.nodes().len(),
            final(self).ast.subjects.nodes().subrange(0, old(self).ast.subjects.nodes().len() as int) == old(self).ast.subjects.nodes(),
            final(self).ast.types == old(self).ast.types,
            final(self).ast.lets == old(self).ast.lets,
            final(self).ast.defs == old(self).ast.defs,
            final(self).ast.exprs == old(self).ast.exprs,
            r is Some ==> final(self).ast.tests == old(self).ast.tests,
            final(self).ast.asserts == old(self).ast.asserts,
            final(self).inv(),
            final(self).settled(),
            old(self).grows(&*final(self)),
            final(self).credit() >= old(self).credit() - 1,
            r matches Some(range) ==> range.wf() && range.hi() <= final(self).ast.relations.nodes().len()
                && final(self).credit() >= old(self).credit(),
            r matches Some(range) ==> range.lo() == old(self).ast.relations.nodes().len()
                && range.hi() == final(self).ast.relations.nodes().len(),
            old(self).kind() != TokenKind::KwRelations ==> r is None && {
                let tests = final(self).ast.tests.nodes();
                &&& tests.len() == old(self).ast.tests.nodes().len() + 1
                &&& tests.subrange(0, old(self).ast.tests.nodes().len() as int) == old(self).ast.tests.nodes()
                &&& tests.last().name == name
                &&& tests.last().relations.lo() == old(self).ast.relations.nodes().len()
                &&& tests.last().relations.hi() == old(self).ast.relations.nodes().len()
                &&& tests.last().asserts.lo() == old(self).ast.asserts.nodes().len()
                &&& tests.last().asserts.hi() == old(self).ast.asserts.nodes().len()
                &&& final(self).ast.relations == old(self).ast.relations
                &&& (final(self).kind() == TokenKind::RBrace || final(self).kind() == TokenKind::Eof)
            },
            old(self).kind() != TokenKind::KwRelations && !old(self).quiet ==> old(self).diags().len() < final(self).diags().len()
                && final(self).diags().subrange(0, old(self).diags().len() as int) == old(self).diags()
                && errors::shaped(final(self).diags()[old(self).diags().len() as int], "aes::parser"@, "missing_relations_block"@,
                    old(self).token.span_spec()),
            old(self).derives(relations_block_end(old(self).src(), old(self).tstart()))
                ==> r is Some && old(self).reached(&*final(self), relations_block_end(old(self).src(), old(self).tstart())),
            old(self).derives(relations_block_end(old(self).src(), old(self).tstart())) ==> {
                let r0 = old(self).ast.relations.nodes();
                let rs = final(self).ast.relations.nodes();
                &&& r0.len() <= rs.len()
                &&& rs.subrange(0, r0.len() as int) == r0
                &&& relations_named(rs.subrange(r0.len() as int, rs.len() as int), final(self).ast.subjects.nodes(),
                    relations_names(old(self).src(), next_at(old(self).src(), next_at(old(self).src(), old(self).tstart()))), old(self).src())
            },
    {
        proof {
            reveal(Parser::diags_kept);
        }
        let ghost src = self.src();
        let ghost p = self.tstart();
        let ghost valid = old(self).derives(relations_block_end(src, p));
        let ghost q = next_at(src, p);
        let ghost body = next_at(src, q);
        let ghost close_at = relations_end(src, body)->0;
        proof {
            if valid {
                lemma_token_end(src, p, TokenKind::KwRelations);
                lemma_token_end(src, q, TokenKind::LBrace);
                lemma_token_end(src, close_at, TokenKind::RBrace);
                lemma_relations_end(src, body);
            }
        }
        if !self.eat(TokenKind::KwRelations) {
            let d = errors::missing_relations_block(self.token);
            self.report(d);
            let ghost reported = self.diags();
            let span = self.end_span(start);
            let relations = self.ast.relations.empty_range();
            let asserts = self.ast.asserts.empty_range();
            let ghost tests0 = self.ast.tests.nodes();
            let _ = self.ast.test_def(span, name, relations, asserts);
            proof {
                lemma_push_prefix(tests0, crate::ast::TestDef { span, name, relations, asserts });
            }
            let stop = [TokenKind::RBrace];
            self.skip_until(&stop);
            proof {
                if !old(self).quiet {
                    assert(reported.subrange(0, old(self).diags().len() as int) =~= old(self).diags());
                    lemma_prefix_trans(old(self).diags(), reported, self.diags());
                    assert(self.diags()[old(self).diags().len() as int] == reported[old(self).diags().len() as int]);
                }
            }
            return None;
        }
        let open = self.expect(TokenKind::LBrace);
        let cp = self.ast.relations.checkpoint();
        self.relation_stmts();
        let range = self.ast.relations.since(cp);
        self.close(open, TokenKind::RBrace, "'{'");
        Some(range)
    }

    /// Parses relation statements up to the closing brace of the relations block. An
    /// assertion there ends the block early and is reported.
    #[verifier::rlimit(100)]
    #[verifier::spinoff_prover]
    fn relation_stmts(&mut self)
        requires
            old(self).inv(),
            old(self).settled(),
        ensures
            old(self).ast.subjects.nodes().len() <= final(self).ast.subjects.nodes().len(),
            final(self).ast.subjects.nodes().subrange(0, old(self).ast.subjects.nodes().len() as int) == old(self).ast.subjects.nodes(),
            final(self).ast.types == old(self).ast.types,
            final(self).ast.lets == old(self).ast.lets,
            final(self).ast.defs == old(self).ast.defs,
            final(self).ast.exprs == old(self).ast.exprs,
            final(self).ast.tests == old(self).ast.tests,
            final(self).ast.asserts == old(self).ast.asserts,
            final(self).inv(),
            final(self).settled(),
            old(self).grows(&*final(self)),
            final(self).credit() >= old(self).credit(),
            old(self).derives(relations_end(old(self).src(), old(self).tstart()))
                && kind_at(old(self).src(), relations_end(old(self).src(), old(self).tstart())->0) == TokenKind::RBrace
                ==> old(self).reached(&*final(self), relations_end(old(self).src(), old(self).tstart())),
            old(self).derives(relations_end(old(self).src(), old(self).tstart()))
                && kind_at(old(self).src(), relations_end(old(self).src(), old(self).tstart())->0) == TokenKind::RBrace ==> {
                let r0 = old(self).ast.relations.nodes();
                let r = final(self).ast.relations.nodes();
                &&& r0.len() <= r.len()
                &&& r.subrange(0, r0.len() as int) == r0
                &&& relations_named(r.subrange(r0.len() as int, r.len() as int), final(self).ast.subjects.nodes(), relations_names(old(self).src(), old(self).tstart()), old(self).src())
            },
            (final(self).kind() == TokenKind::KwAssert || final(self).kind() == TokenKind::KwAssertNot) && !final(self).quiet
                ==> errors::shaped(final(self).diags().last(), "aes::parser"@, "assert_before_relations"@, final(self).token.span_spec()),
    {
        let ghost src = self.src();
        let ghost valid = old(self).derives(relations_end(src, old(self).tstart()))
            && kind_at(src, relations_end(src, old(self).tstart())->0) == TokenKind::RBrace;
        let ghost close_at = relations_end(src, old(self).tstart())->0;
        let stop = [TokenKind::Ident, TokenKind::RBrace];
        let ghost p0 = self.tstart();
        let ghost r0 = self.ast.relations.nodes();
        let ghost s0 = self.ast.subjects.nodes();
        let ghost mut done: Seq<(int, int)> = Seq::empty();
        proof {
            assert(r0.subrange(0, r0.len() as int) =~= r0);
            assert(r0.subrange(r0.len() as int, r0.len() as int) =~= Seq::<crate::ast::Relation>::empty());
            assert(done + relations_names(src, p0) =~= relations_names(src, p0));
            assert(s0.subrange(0, s0.len() as int) =~= s0);
        }
        loop
            invariant
                self.ast.types == old(self).ast.types,
                self.ast.lets == old(self).ast.lets,
                self.ast.defs == old(self).ast.defs,
                self.ast.exprs == old(self).ast.exprs,
                self.ast.tests == old(self).ast.tests,
                self.ast.asserts == old(self).ast.asserts,
                self.inv(),
                self.settled(),
                old(self).grows(&*self),
                self.credit() >= old(self).credit(),
                stop@ == seq![TokenKind::Ident, TokenKind::RBrace],
                src == self.src(),
                valid ==> self.reporter == old(self).reporter && self.pending is None
                    && relations_end(src, self.tstart()) == Some(close_at) && kind_at(src, close_at) == TokenKind::RBrace,
                s0 == old(self).ast.subjects.nodes(),
                s0.len() <= self.ast.subjects.nodes().len(),
                self.ast.subjects.nodes().subrange(0, s0.len() as int) == s0,
                valid ==> r0.len() <= self.ast.relations.nodes().len()
                    && self.ast.relations.nodes().subrange(0, r0.len() as int) == r0
                    && relations_named(self.ast.relations.nodes().subrange(r0.len() as int, self.ast.relations.nodes().len() as int),
                        self.ast.subjects.nodes(), done, src)
                    && done + relations_names(src, self.tstart()) == relations_names(src, p0),
            ensures
                valid ==> self.tstart() == close_at,
                (self.kind() == TokenKind::KwAssert || self.kind() == TokenKind::KwAssertNot) && !self.quiet
                    ==> errors::shaped(self.diags().last(), "aes::parser"@, "assert_before_relations"@, self.token.span_spec()),
                s0.len() <= self.ast.subjects.nodes().len(),
                self.ast.subjects.nodes().subrange(0, s0.len() as int) == s0,
                valid ==> r0.len() <= self.ast.relations.nodes().len()
                    && self.ast.relations.nodes().subrange(0, r0.len() as int) == r0
                    && relations_named(self.ast.relations.nodes().subrange(r0.len() as int, self.ast.relations.nodes().len() as int),
                        self.ast.subjects.nodes(), done, src)
                    && done == relations_names(src, p0),
            decreases self.measure(),
        {
            proof {
                if valid {
                    let c = self.tstart();
                    lemma_lex_step_bounds(src, c);
                    if self.kind() == TokenKind::Ident {
                        lemma_relations_end(src, relation_end(src, c)->0);
                    } else {
                        assert(relations_end(src, c) == Some(c));
                    }
                }
            }
            match self.token.kind() {
                TokenKind::RBrace | TokenKind::Eof => break,
                TokenKind::Ident => {
                    let ghost c = self.tstart();
                    let ghost before = self.ast.relations.nodes();
                    let ghost sb = self.ast.subjects.nodes();
                    self.relation_stmt();
                    proof {
                        lemma_prefix_trans(s0, sb, self.ast.subjects.nodes());
                        if valid {
                            lemma_relations_names_step(r0, before, self.ast.relations.nodes(), sb, self.ast.subjects.nodes(),
                                done, src, c, relations_names(src, p0));
                            done = done + relation_names(src, c);
                        }
                    }
                },
                TokenKind::KwAssert | TokenKind::KwAssertNot => {
                    let d = errors::assert_before_relations(self.token);
                    self.report(d);
                    break;
                },
                _ => {
                    let d = errors::unexpected_token(self.token);
                    self.report(d);
                    self.skip_until(&stop);
                },
            }
        }
    }

    /// Parses `type("id").relation: subject;` or the grouped form
    /// `type("id").{ .relation: subject; ... };`.
    #[verifier::spinoff_prover]
    #[verifier::rlimit(100)]
    fn relation_stmt(&mut self)
        requires
            old(self).inv(),
            old(self).kind() == TokenKind::Ident,
        ensures
            old(self).ast.subjects.nodes().len() <= final(self).ast.subjects.nodes().len(),
            final(self).ast.subjects.nodes().subrange(0, old(self).ast.subjects.nodes().len() as int) == old(self).ast.subjects.nodes(),
            final(self).ast.types == old(self).ast.types,
            final(self).ast.lets == old(self).ast.lets,
            final(self).ast.defs == old(self).ast.defs,
            final(self).ast.exprs == old(self).ast.exprs,
            final(self).ast.tests == old(self).ast.tests,
            final(self).ast.asserts == old(self).ast.asserts,
            final(self).inv(),
            final(self).settled(),
            old(self).grows(&*final(self)),
            final(self).measure() < old(self).measure(),
            final(self).credit() >= old(self).credit(),
            old(self).derives(relation_end(old(self).src(), old(self).tstart()))
                ==> old(self).reached(&*final(self), relation_end(old(self).src(), old(self).tstart())),
            old(self).derives(relation_end(old(self).src(), old(self).tstart())) ==> {
                let r0 = old(self).ast.relations.nodes();
                let r = final(self).ast.relations.nodes();
                &&& r0.len() <= r.len()
                &&& r.subrange(0, r0.len() as int) == r0
                &&& relations_named(r.subrange(r0.len() as int, r.len() as int), final(self).ast.subjects.nodes(), relation_names(old(self).src(), old(self).tstart()), old(self).src())
            },
    {
        let ghost src = self.src();
        let ghost p = self.tstart();
        let ghost valid = old(self).derives(relation_end(src, p));
        let ghost r0 = self.ast.relations.nodes();
        let ghost q = instance_end(src, p)->0;
        let ghost r = next_at(src, q);
        let ghost s = next_at(src, r);
        let ghost t = assigns_end(src, s)->0;
        let ghost u = next_at(src, t);
        proof {
            if valid {
                lemma_token_end(src, q, TokenKind::Dot);
                if kind_at(src, r) == TokenKind::LBrace {
                    lemma_token_end(src, r, TokenKind::LBrace);
                    lemma_token_end(src, t, TokenKind::RBrace);
                    lemma_token_end(src, u, TokenKind::Semicolon);
                    lemma_assigns_end(src, s);
                } else {
                    lemma_token_end(src, r, TokenKind::Ident);
                }
            }
        }
        let ghost s0 = self.ast.subjects.nodes();
        let resource = self.instance();
        assert(valid ==> instance_at(resource, p, src));
        let ghost pair = |n: int| (p, n);
        let _ = self.expect(TokenKind::Dot);
        match self.token.kind() {
            TokenKind::LBrace => {
                let open = self.expect(TokenKind::LBrace);
                let stop = [TokenKind::Dot, TokenKind::RBrace];
                let ghost mut done: Seq<(int, int)> = Seq::empty();
                proof {
                    assert(r0.subrange(0, r0.len() as int) =~= r0);
                    assert(r0.subrange(r0.len() as int, r0.len() as int) =~= Seq::<crate::ast::Relation>::empty());
                    assert(done + assign_names(src, s).map_values(pair) =~= assign_names(src, s).map_values(pair));
                    assert(s0.subrange(0, s0.len() as int) =~= s0);
                }
                loop
                    invariant
                        self.ast.types == old(self).ast.types,
                        self.ast.lets == old(self).ast.lets,
                        self.ast.defs == old(self).ast.defs,
                        self.ast.exprs == old(self).ast.exprs,
                        self.ast.tests == old(self).ast.tests,
                        self.ast.asserts == old(self).ast.asserts,
                        self.inv(),
                        self.settled(),
                        old(self).grows(&*self),
                        self.measure() < old(self).measure(),
                        self.credit() >= old(self).credit(),
                        instance_fits(resource, old(self).src()),
                        stop@ == seq![TokenKind::Dot, TokenKind::RBrace],
                        src == self.src(),
                        valid == old(self).derives(relation_end(src, p)),
                        valid ==> kind_at(src, r) == TokenKind::LBrace ==> self.reporter == old(self).reporter
                            && self.pending is None && assigns_end(src, self.tstart()) == Some(t)
                            && kind_at(src, t) == TokenKind::RBrace && kind_at(src, u) == TokenKind::Semicolon
                            && !is_error_kind(kind_at(src, next_at(src, u))),
                        s0 == old(self).ast.subjects.nodes(),
                        s0.len() <= self.ast.subjects.nodes().len(),
                        self.ast.subjects.nodes().subrange(0, s0.len() as int) == s0,
                        valid ==> instance_at(resource, p, src),
                        pair == (|n: int| (p, n)),
                        valid ==> kind_at(src, r) == TokenKind::LBrace ==> r0.len() <= self.ast.relations.nodes().len()
                            && self.ast.relations.nodes().subrange(0, r0.len() as int) == r0
                            && relations_named(self.ast.relations.nodes().subrange(r0.len() as int, self.ast.relations.nodes().len() as int),
                                self.ast.subjects.nodes(), done, src)
                            && done + assign_names(src, self.tstart()).map_values(pair) == assign_names(src, s).map_values(pair),
                    ensures
                        valid ==> kind_at(src, r) == TokenKind::LBrace ==> self.tstart() == t,
                        s0.len() <= self.ast.subjects.nodes().len(),
                        self.ast.subjects.nodes().subrange(0, s0.len() as int) == s0,
                        valid ==> kind_at(src, r) == TokenKind::LBrace ==> r0.len() <= self.ast.relations.nodes().len()
                            && self.ast.relations.nodes().subrange(0, r0.len() as int) == r0
                            && relations_named(self.ast.relations.nodes().subrange(r0.len() as int, self.ast.relations.nodes().len() as int),
                                self.ast.subjects.nodes(), done, src)
                            && done == assign_names(src, s).map_values(pair),
                    decreases self.measure(),
                {
                    proof {
                        if valid && kind_at(src, r) == TokenKind::LBrace {
                            let c = self.tstart();
                            lemma_lex_step_bounds(src, c);
                            if self.kind() == TokenKind::Dot {
                                lemma_next_at(src, c);
                                let a = next_at(src, c);
                                lemma_token_end(src, a, TokenKind::Ident);
                                lemma_assigns_end(src, assign_end(src, a)->0);
                            }
                        }
                    }
                    match self.token.kind() {
                        TokenKind::RBrace | TokenKind::Eof => break,
                        TokenKind::Dot => {
                            let ghost c = self.tstart();
                            let _ = self.expect(TokenKind::Dot);
                            let ghost before = self.ast.relations.nodes();
                            let ghost sb = self.ast.subjects.nodes();
                            self.relation_assign(resource, Ghost(p));
                            proof {
                                lemma_prefix_trans(s0, sb, self.ast.subjects.nodes());
                                if valid && kind_at(src, r) == TokenKind::LBrace {
                                    let a = assign_end(src, next_at(src, c))->0;
                                    let nc = next_at(src, c);
                                    assert(assign_names(src, c) == seq![nc] + assign_names(src, a));
                                    lemma_relations_named_extend(r0, before, self.ast.relations.nodes(), sb, self.ast.subjects.nodes(),
                                        done, seq![(p, nc)], src);
                                    assert(assign_names(src, c).map_values(pair) =~= seq![(p, nc)] + assign_names(src, a).map_values(pair));
                                    assert(done + seq![(p, nc)] + assign_names(src, a).map_values(pair)
                                        =~= done + assign_names(src, c).map_values(pair));
                                    done = done + seq![(p, nc)];
                                }
                            }
                        },
                        _ => {
                            let d = errors::expected_relation_name_or_block(self.token);
                            self.report(d);
                            self.skip_until(&stop);
                        },
                    }
                }
                self.close(open, TokenKind::RBrace, "'{'");
                self.semicolon();
            },
            TokenKind::Ident => self.relation_assign(resource, Ghost(p)),
            _ => {
                let d = errors::unexpected_token(self.token);
                self.report(d);
                let stop = [TokenKind::Ident, TokenKind::RBrace];
                self.skip_until(&stop);
            },
        }
    }

    /// Parses `relation: subject;` for the given resource.
    #[verifier::spinoff_prover]
    #[verifier::rlimit(80)]
    fn relation_assign(&mut self, resource: Instance, Ghost(at): Ghost<int>)
        requires
            old(self).inv(),
            old(self).settled(),
            old(self).credit() >= 2 || old(self).kind() == TokenKind::Ident,
            instance_fits(resource, old(self).src()),
        ensures
            old(self).ast.subjects.nodes().len() <= final(self).ast.subjects.nodes().len(),
            final(self).ast.subjects.nodes().subrange(0, old(self).ast.subjects.nodes().len() as int) == old(self).ast.subjects.nodes(),
            final(self).ast.types == old(self).ast.types,
            final(self).ast.lets == old(self).ast.lets,
            final(self).ast.defs == old(self).ast.defs,
            final(self).ast.exprs == old(self).ast.exprs,
            final(self).ast.tests == old(self).ast.tests,
            final(self).ast.asserts == old(self).ast.asserts,
            final(self).inv(),
            final(self).settled(),
            old(self).grows(&*final(self)),
            final(self).credit() >= old(self).credit() - 2,
            old(self).kind() == TokenKind::Ident ==> final(self).measure() < old(self).measure()
                && final(self).credit() >= old(self).credit(),
            old(self).derives(assign_end(old(self).src(), old(self).tstart()))
                ==> old(self).reached(&*final(self), assign_end(old(self).src(), old(self).tstart())),
            old(self).derives(assign_end(old(self).src(), old(self).tstart())) ==> {
                let r0 = old(self).ast.relations.nodes();
                let r = final(self).ast.relations.nodes();
                &&& r0.len() <= r.len()
                &&& r.subrange(0, r0.len() as int) == r0
                &&& (instance_at(resource, at, old(self).src()) ==> relations_named(r.subrange(r0.len() as int, r.len() as int),
                    final(self).ast.subjects.nodes(), seq![(at, old(self).tstart())], old(self).src()))
            },
    {
        let ghost src = self.src();
        let ghost p = self.tstart();
        proof {
            if old(self).derives(assign_end(src, p)) {
                let q = next_at(src, p);
                let r = next_at(src, q);
                let s = subject_end(src, r)->0;
                lemma_token_end(src, p, TokenKind::Ident);
                lemma_token_end(src, q, TokenKind::Colon);
                lemma_token_end(src, r, TokenKind::Ident);
                lemma_token_end(src, s, TokenKind::Semicolon);
            }
        }
        let start = self.start_span();
        let ghost valid = old(self).derives(assign_end(src, p));
        let ghost tok = self.token;
        let ghost pos = self.lexer.pos();
        assert(valid ==> tok.kind_spec() == TokenKind::Ident) by {
            if valid {
                assert(lex_step(src, p).0 == tok.kind_spec());
            }
        }
        let relation = self.ident();
        assert(valid ==> is_token_span(relation, p, src)) by {
            if valid {
                assert(relation == tok.span_spec());
                assert(lex_step(src, p).1 == pos);
            }
        }
        let _ = self.expect(TokenKind::Colon);
        let ghost subject_pos = self.tstart();
        assert(valid ==> subject_pos == next_at(src, next_at(src, p)));
        let subject = self.subject();
        self.semicolon();
        let span = self.end_span(start);
        let ghost before = self.ast.relations.nodes();
        let _ = self.ast.relation(span, resource, relation, subject);
        proof {
            let x = crate::ast::Relation { span, resource, relation, subject };
            lemma_push_prefix(before, x);
            assert(self.ast.relations.nodes().subrange(before.len() as int, self.ast.relations.nodes().len() as int) =~= seq![x]);
            if valid && instance_at(resource, at, src) {
                reveal(relation_at);
                assert(relation_at(x, self.ast.subjects.nodes(), (at, p), src));
                assert(seq![x][0] == x);
            }
        }
    }

    /// Parses the assertions that follow the relations block, up to the closing brace.
    #[verifier::spinoff_prover]
    #[verifier::rlimit(100)]
    fn asserts(&mut self) -> (r: AssertRange)
        requires
            old(self).inv(),
            old(self).settled(),
        ensures
            final(self).ast.types == old(self).ast.types,
            final(self).ast.lets == old(self).ast.lets,
            final(self).ast.defs == old(self).ast.defs,
            final(self).ast.exprs == old(self).ast.exprs,
            final(self).ast.tests == old(self).ast.tests,
            final(self).ast.relations == old(self).ast.relations,
            final(self).ast.subjects == old(self).ast.subjects,
            final(self).inv(),
            final(self).settled(),
            old(self).grows(&*final(self)),
            final(self).credit() >= old(self).credit(),
            r.wf(),
            r.hi() <= final(self).ast.asserts.nodes().len(),
            r.lo() == old(self).ast.asserts.nodes().len(),
            r.hi() == final(self).ast.asserts.nodes().len(),
            old(self).derives(assertions_end(old(self).src(), old(self).tstart()))
                && kind_at(old(self).src(), assertions_end(old(self).src(), old(self).tstart())->0) == TokenKind::RBrace
                ==> old(self).reached(&*final(self), assertions_end(old(self).src(), old(self).tstart())),
            old(self).derives(assertions_end(old(self).src(), old(self).tstart()))
                && kind_at(old(self).src(), assertions_end(old(self).src(), old(self).tstart())->0) == TokenKind::RBrace ==> {
                let a0 = old(self).ast.asserts.nodes();
                let a = final(self).ast.asserts.nodes();
                &&& a0.len() <= a.len()
                &&& a.subrange(0, a0.len() as int) == a0
                &&& assertions_match(a.subrange(a0.len() as int, a.len() as int), assertion_starts(old(self).src(), old(self).tstart()), old(self).src())
            },
    {
        let ghost src = self.src();
        let ghost p = self.tstart();
        let ghost valid = old(self).derives(assertions_end(src, p))
            && kind_at(src, assertions_end(src, p)->0) == TokenKind::RBrace;
        let ghost a0 = self.ast.asserts.nodes();
        let ghost mut done: Seq<int> = Seq::empty();
        proof {
            assert(a0.subrange(0, a0.len() as int) =~= a0);
            assert(assertions_match(a0.subrange(a0.len() as int, a0.len() as int), done, src));
            assert(done + assertion_starts(src, p) =~= assertion_starts(src, p));
        }
        let ghost end = assertions_end(src, p)->0;
        proof {
            if valid {
                lemma_assertions_end(src, p);
            }
        }
        let cp = self.ast.asserts.checkpoint();
        let stop = [TokenKind::KwAssert, TokenKind::KwAssertNot, TokenKind::KwRelations, TokenKind::RBrace];
        loop
            invariant
                self.ast.types == old(self).ast.types,
                self.ast.lets == old(self).ast.lets,
                self.ast.defs == old(self).ast.defs,
                self.ast.exprs == old(self).ast.exprs,
                self.ast.tests == old(self).ast.tests,
                self.ast.relations == old(self).ast.relations,
                self.ast.subjects == old(self).ast.subjects,
                self.inv(),
                self.settled(),
                old(self).grows(&*self),
                self.credit() >= old(self).credit(),
                cp.at() <= self.ast.asserts.nodes().len(),
                stop@ == seq![TokenKind::KwAssert, TokenKind::KwAssertNot, TokenKind::KwRelations, TokenKind::RBrace],
                src == self.src(),
                valid ==> self.reporter == old(self).reporter && self.pending is None
                    && assertions_end(src, self.tstart()) == Some(end) && kind_at(src, end) == TokenKind::RBrace,
                valid ==> a0.len() <= self.ast.asserts.nodes().len()
                    && self.ast.asserts.nodes().subrange(0, a0.len() as int) == a0
                    && assertions_match(self.ast.asserts.nodes().subrange(a0.len() as int, self.ast.asserts.nodes().len() as int), done, src)
                    && done + assertion_starts(src, self.tstart()) == assertion_starts(src, p),
            ensures
                valid ==> self.tstart() == end,
                valid ==> a0.len() <= self.ast.asserts.nodes().len()
                    && self.ast.asserts.nodes().subrange(0, a0.len() as int) == a0
                    && assertions_match(self.ast.asserts.nodes().subrange(a0.len() as int, self.ast.asserts.nodes().len() as int), done, src)
                    && done == assertion_starts(src, p),
            decreases self.measure(),
        {
            proof {
                if valid {
                    let c = self.tstart();
                    lemma_lex_step_bounds(src, c);
                    if self.kind() == TokenKind::KwAssert || self.kind() == TokenKind::KwAssertNot {
                        lemma_assertions_end(src, assertion_end(src, c)->0);
                    }
                }
            }
            match self.token.kind() {
                TokenKind::RBrace | TokenKind::Eof => break,
                TokenKind::KwAssert | TokenKind::KwAssertNot => {
                    let ghost c = self.tstart();
                    let ghost before = self.ast.asserts.nodes();
                    self.assert_stmt();
                    proof {
                        if valid {
                            let m = assertion_end(src, c)->0;
                            lemma_assertion_starts_step(src, c, m);
                            lemma_assert_pushed(a0, before, self.ast.asserts.nodes(), done, c, src);
                            assert(done.push(c) + assertion_starts(src, m) =~= done + assertion_starts(src, c));
                            done = done.push(c);
                        }
                    }
                },
                TokenKind::KwRelations => self.skip_duplicate_relations(),
                _ => {
                    let d = errors::unexpected_token(self.token);
                    self.report(d);
                    self.skip_until(&stop);
                },
            }
        }
        self.ast.asserts.since(cp)
    }

    /// Reports a second `relations` block of a test and skips it, up to and including
    /// its closing brace.
    fn skip_duplicate_relations(&mut self)
        requires
            old(self).inv(),
            old(self).kind() == TokenKind::KwRelations,
        ensures
            final(self).inv(),
            final(self).settled(),
            old(self).grows(&*final(self)),
            final(self).measure() < old(self).measure(),
            final(self).credit() >= old(self).credit(),
            final(self).ast == old(self).ast,
            !old(self).quiet ==> old(self).diags().len() < final(self).diags().len()
                && final(self).diags().subrange(0, old(self).diags().len() as int) == old(self).diags()
                && errors::shaped(final(self).diags()[old(self).diags().len() as int], "aes::parser"@, "duplicate_relations_block"@,
                    old(self).token.span_spec()),
    {
        proof {
            reveal(Parser::diags_kept);
        }
        let d = errors::duplicate_relations_block(self.token);
        self.report(d);
        let ghost reported = self.diags();
        proof {
            assert(reported.subrange(0, old(self).diags().len() as int) =~= old(self).diags());
        }
        self.skip();
        proof {
            lemma_prefix_trans(old(self).diags(), reported, self.diags());
        }
        let ghost skipped = self.diags();
        let open = self.expect(TokenKind::LBrace);
        let ghost entry = *self;
        proof {
            lemma_prefix_trans(old(self).diags(), skipped, self.diags());
            assert(self.diags().subrange(0, self.diags().len() as int) =~= self.diags());
        }
        while !self.at(TokenKind::RBrace) && !self.at(TokenKind::Eof)
            invariant
                self.inv(),
                self.settled(),
                entry.grows(&*self),
                self.credit() >= entry.credit(),
                self.ast == entry.ast,
                entry.diags_kept(&*self),
            decreases self.measure(),
        {
            let ghost d1 = self.diags();
            self.skip();
            proof {
                reveal(Parser::diags_kept);
                lemma_prefix_trans(entry.diags(), d1, self.diags());
            }
        }
        let ghost looped = self.diags();
        self.close(open, TokenKind::RBrace, "'{'");
        proof {
            lemma_prefix_trans(entry.diags(), looped, self.diags());
            lemma_prefix_trans(old(self).diags(), entry.diags(), self.diags());
            if !old(self).quiet {
                lemma_prefix_trans(reported, skipped, entry.diags());
                lemma_prefix_trans(reported, entry.diags(), self.diags());
                assert(self.diags()[old(self).diags().len() as int] == reported[old(self).diags().len() as int]);
            }
        }
    }

    /// Parses `assert(resource.permission(actor));` or `assert_not(...)`.
    #[verifier::rlimit(30)]
    fn assert_stmt(&mut self)
        requires
            old(self).inv(),
            old(self).kind() == TokenKind::KwAssert || old(self).kind() == TokenKind::KwAssertNot,
        ensures
            final(self).ast.types == old(self).ast.types,
            final(self).ast.lets == old(self).ast.lets,
            final(self).ast.defs == old(self).ast.defs,
            final(self).ast.exprs == old(self).ast.exprs,
            final(self).ast.tests == old(self).ast.tests,
            final(self).ast.relations == old(self).ast.relations,
            final(self).ast.subjects == old(self).ast.subjects,
            final(self).inv(),
            final(self).settled(),
            old(self).grows(&*final(self)),
            final(self).measure() < old(self).measure(),
            final(self).credit() >= old(self).credit(),
            old(self).derives(assertion_end(old(self).src(), old(self).tstart()))
                ==> old(self).reached(&*final(self), assertion_end(old(self).src(), old(self).tstart())),
            old(self).derives(assertion_end(old(self).src(), old(self).tstart())) ==> {
                let a = final(self).ast.asserts.nodes();
                &&& a.len() == old(self).ast.asserts.nodes().len() + 1
                &&& a.subrange(0, old(self).ast.asserts.nodes().len() as int) == old(self).ast.asserts.nodes()
                &&& assertion_matches(a.last(), old(self).tstart(), old(self).src())
            },
    {
        let ghost src = self.src();
        let ghost p = self.tstart();
        proof {
            if old(self).derives(assertion_end(src, p)) {
                let a = next_at(src, p);
                let b = next_at(src, a);
                let c = instance_end(src, b)->0;
                let d = next_at(src, c);
                let f = next_at(src, d);
                let g = next_at(src, f);
                let h = instance_end(src, g)->0;
                let i = next_at(src, h);
                let j = next_at(src, i);
                lemma_next_at(src, p);
                lemma_token_end(src, a, TokenKind::LParen);
                lemma_token_end(src, b, TokenKind::Ident);
                lemma_token_end(src, c, TokenKind::Dot);
                lemma_token_end(src, d, TokenKind::Ident);
                lemma_token_end(src, f, TokenKind::LParen);
                lemma_token_end(src, g, TokenKind::Ident);
                lemma_token_end(src, h, TokenKind::RParen);
                lemma_token_end(src, i, TokenKind::RParen);
                lemma_token_end(src, j, TokenKind::Semicolon);
            }
        }
        let start = self.start_span();
        let kind = match self.token.kind() {
            TokenKind::KwAssert => {
                self.skip();
                AssertionKind::Assert
            },
            TokenKind::KwAssertNot => {
                self.skip();
                AssertionKind::AssertNot
            },
            _ => {
                let d = errors::unexpected_token(self.token);
                self.report(d);
                return;
            },
        };
        let open = self.expect(TokenKind::LParen);
        let ghost res_at = self.tstart();
        let resource = self.instance();
        let _ = self.expect(TokenKind::Dot);
        let ghost valid = old(self).derives(assertion_end(src, p));
        let ghost at = self.tstart();
        let ghost tok = self.token;
        let ghost pos = self.lexer.pos();
        let ghost d = next_at(src, instance_end(src, next_at(src, next_at(src, p)))->0);
        assert(valid ==> at == d && tok.kind_spec() == TokenKind::Ident) by {
            if valid {
                assert(lex_step(src, at).0 == tok.kind_spec());
            }
        }
        let permission = self.ident();
        assert(valid ==> is_token_span(permission, d, src)) by {
            if valid {
                assert(permission == tok.span_spec());
                assert(lex_step(src, at).1 == pos);
            }
        }
        let open_actor = self.expect(TokenKind::LParen);
        let ghost actor_at = self.tstart();
        let actor = self.instance();
        assert(valid ==> res_at == next_at(src, next_at(src, p)) && actor_at == next_at(src, next_at(src, d)));
        assert(valid ==> instance_at(resource, res_at, src) && instance_at(actor, actor_at, src));
        self.close(open_actor, TokenKind::RParen, "'('");
        self.close(open, TokenKind::RParen, "'('");
        self.semicolon();
        let span = self.end_span(start);
        let ghost before = self.ast.asserts.nodes();
        let _ = self.ast.assertion(span, kind, resource, permission, actor);
        proof {
            lemma_push_prefix(before, Assert { span, kind, resource, permission, actor });
            reveal(assertion_matches);
        }
    }

    /// Parses `type("id")` optionally followed by `::permission`.
    fn subject(&mut self) -> (id: SubjectId)
        requires
            old(self).inv(),
            old(self).settled(),
            old(self).credit() >= 1,
        ensures
            final(self).ast.types == old(self).ast.types,
            final(self).ast.lets == old(self).ast.lets,
            final(self).ast.defs == old(self).ast.defs,
            final(self).ast.exprs == old(self).ast.exprs,
            final(self).ast.tests == old(self).ast.tests,
            final(self).ast.asserts == old(self).ast.asserts,
            final(self).ast.relations == old(self).ast.relations,
            final(self).inv(),
            final(self).settled(),
            old(self).grows(&*final(self)),
            final(self).credit() >= old(self).credit() - 1,
            id.idx() < final(self).ast.subjects.nodes().len(),
            old(self).derives(subject_end(old(self).src(), old(self).tstart()))
                ==> old(self).reached(&*final(self), subject_end(old(self).src(), old(self).tstart())),
            final(self).ast.subjects.nodes().len() == old(self).ast.subjects.nodes().len() + 1,
            final(self).ast.subjects.nodes().subrange(0, old(self).ast.subjects.nodes().len() as int) == old(self).ast.subjects.nodes(),
            id.idx() == old(self).ast.subjects.nodes().len(),
            old(self).derives(subject_end(old(self).src(), old(self).tstart()))
                ==> subject_at(final(self).ast.subjects.nodes().last(), old(self).tstart(), old(self).src()),
    {
        let ghost src = self.src();
        let ghost p = self.tstart();
        let ghost valid = old(self).derives(subject_end(src, p));
        proof {
            if old(self).derives(subject_end(src, p)) {
                let q = instance_end(src, p)->0;
                if token_end(src, q, TokenKind::ColonColon) is Some {
                    lemma_token_end(src, q, TokenKind::ColonColon);
                    lemma_token_end(src, next_at(src, q), TokenKind::Ident);
                }
            }
        }
        let start = self.start_span();
        let instance = self.instance();
        let ghost q = self.tstart();
        let permission = if self.eat(TokenKind::ColonColon) {
            if !self.at(TokenKind::Ident) {
                let d = errors::expected_permission_after_colons(self.token);
                self.report(d);
            }
            let ghost tok = self.token;
            let ghost pos = self.lexer.pos();
            let ghost at = self.tstart();
            assert(valid ==> at == next_at(src, q) && tok.kind_spec() == TokenKind::Ident && lex_step(src, at).1 == pos) by {
                if valid {
                    assert(lex_step(src, at).0 == tok.kind_spec());
                }
            }
            let perm = self.ident();
            assert(valid ==> is_token_span(perm, next_at(src, q), src));
            Some(perm)
        } else {
            None
        };
        let span = self.end_span(start);
        let ghost before = self.ast.subjects.nodes();
        let id = self.ast.subject(span, instance, permission);
        proof {
            lemma_push_prefix(before, crate::ast::Subject { span, instance, permission });
        }
        id
    }

    /// Parses `type("id")`.
    fn instance(&mut self) -> (r: Instance)
        requires
            old(self).inv(),
            old(self).settled(),
        ensures
            final(self).inv(),
            final(self).settled(),
            old(self).grows(&*final(self)),
            final(self).ast == old(self).ast,
            instance_fits(r, old(self).src()),
            final(self).credit() >= old(self).credit(),
            old(self).kind() == TokenKind::Ident ==> final(self).measure() < old(self).measure()
                && final(self).credit() >= old(self).credit() + 2,
            old(self).derives(instance_end(old(self).src(), old(self).tstart()))
                ==> old(self).reached(&*final(self), instance_end(old(self).src(), old(self).tstart())),
            old(self).derives(instance_end(old(self).src(), old(self).tstart()))
                ==> instance_at(r, old(self).tstart(), old(self).src()),
    {
        let ghost src = self.src();
        let ghost p = self.tstart();
        let ghost valid = old(self).derives(instance_end(src, p));
        proof {
            if old(self).derives(instance_end(src, p)) {
                let q = next_at(src, p);
                let r = next_at(src, q);
                let s = next_at(src, r);
                lemma_token_end(src, p, TokenKind::Ident);
                lemma_token_end(src, q, TokenKind::LParen);
                lemma_token_end(src, r, TokenKind::String);
                lemma_token_end(src, s, TokenKind::RParen);
            }
        }
        if !self.at(TokenKind::Ident) {
            let d = errors::expected_type_name(self.token);
            self.report(d);
        }
        let ghost tok0 = self.token;
        let ghost pos0 = self.lexer.pos();
        assert(valid ==> self.tstart() == p && tok0.kind_spec() == TokenKind::Ident && lex_step(src, p).1 == pos0) by {
            if valid {
                assert(lex_step(src, p).0 == tok0.kind_spec());
            }
        }
        let ty = self.ident();
        assert(valid ==> is_token_span(ty, p, src));
        let open = self.expect(TokenKind::LParen);
        let ghost r = next_at(src, next_at(src, p));
        let ghost tok1 = self.token;
        let ghost pos1 = self.lexer.pos();
        let ghost at1 = self.tstart();
        assert(valid ==> at1 == r && tok1.kind_spec() == TokenKind::String && lex_step(src, r).1 == pos1) by {
            if valid {
                assert(lex_step(src, at1).0 == tok1.kind_spec());
            }
        }
        let ident = self.string();
        assert(valid ==> is_token_span(ident, r, src)) by {
            if valid {
                assert(ident == tok1.span_spec());
            }
        }
        self.close(open, TokenKind::RParen, "'('");
        Instance::new(ty, ident)
    }
}

} // verus!
