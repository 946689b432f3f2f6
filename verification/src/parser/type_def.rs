use crate::diagnostic::Reporter;
use crate::grammar::{lemma_members_represent_grow, lemma_prefix_trans, member_expr_start, members_represent, prec_expr, represents, body_start, def_name_starts, lemma_def_names_push, lemma_let_names_push, lemma_member_names_step, let_name_starts, member_names, expr_end, kind_at, lemma_members_end, lemma_next_at, lemma_term_start, lemma_token_end, member_end, members_end, next_at, type_def_end};
use crate::lexer::{is_error_kind, lemma_lex_step_bounds, lex_step, TokenKind};
use crate::parse_errors as errors;
use crate::parser::Parser;
use vstd::prelude::*;

verus! {

impl<'src, R: Reporter> Parser<'src, R> {
    /// Parses `type name { (let ...; | def ...;)* }`. Any other token in the body is
    /// reported, and tokens are skipped up to the next member or the closing brace.
    #[verifier::spinoff_prover]
    #[verifier::rlimit(60)]
    pub(crate) fn type_def(&mut self)
        requires
            old(self).inv(),
            old(self).kind() == TokenKind::KwType,
        ensures
            final(self).inv(),
            final(self).settled(),
            final(self).ast.tests == old(self).ast.tests,
            final(self).ast.asserts == old(self).ast.asserts,
            final(self).ast.relations == old(self).ast.relations,
            final(self).ast.subjects == old(self).ast.subjects,
            old(self).grows(&*final(self)),
            final(self).measure() < old(self).measure(),
            final(self).credit() >= old(self).credit(),
            old(self).derives(type_def_end(old(self).src(), old(self).tstart()))
                ==> old(self).reached(&*final(self), type_def_end(old(self).src(), old(self).tstart())),
            final(self).ast.types.nodes().len() == old(self).ast.types.nodes().len() + 1,
            final(self).ast.types.nodes().subrange(0, old(self).ast.types.nodes().len() as int) == old(self).ast.types.nodes(),
            old(self).derives(type_def_end(old(self).src(), old(self).tstart())) ==> {
                let name = final(self).ast.types.nodes().last().name;
                let q = next_at(old(self).src(), old(self).tstart());
                &&& name.start_spec() == q
                &&& name.end_spec() == lex_step(old(self).src(), q).1
            },
            old(self).ast.lets.nodes().len() <= final(self).ast.lets.nodes().len(),
            final(self).ast.lets.nodes().subrange(0, old(self).ast.lets.nodes().len() as int) == old(self).ast.lets.nodes(),
            old(self).ast.defs.nodes().len() <= final(self).ast.defs.nodes().len(),
            final(self).ast.defs.nodes().subrange(0, old(self).ast.defs.nodes().len() as int) == old(self).ast.defs.nodes(),
            old(self).derives(type_def_end(old(self).src(), old(self).tstart())) ==> {
                let t = final(self).ast.types.nodes().last();
                let body = body_start(old(self).src(), t.name.start_spec() as int);
                &&& let_name_starts(final(self).ast.lets.nodes().subrange(t.lets.lo() as int, t.lets.hi() as int))
                    == member_names(old(self).src(), body, TokenKind::KwLet)
                &&& def_name_starts(final(self).ast.defs.nodes().subrange(t.defs.lo() as int, t.defs.hi() as int))
                    == member_names(old(self).src(), body, TokenKind::KwDef)
            },
            old(self).exprs_kept(&*final(self)),
            old(self).derives(type_def_end(old(self).src(), old(self).tstart()))
                && members_represent(old(self).ast.lets.nodes(), old(self).ast.defs.nodes(), old(self).ast.exprs.nodes(), old(self).src())
                ==> members_represent(final(self).ast.lets.nodes(), final(self).ast.defs.nodes(), final(self).ast.exprs.nodes(), old(self).src()),
    {
        let ghost src = self.src();
        let ghost p = self.tstart();
        let ghost valid = old(self).derives(type_def_end(src, p));
        let ghost q = next_at(src, p);
        let ghost r = next_at(src, q);
        let ghost body = next_at(src, r);
        let ghost m = members_end(src, body)->0;
        proof {
            if valid {
                lemma_token_end(src, p, TokenKind::KwType);
                lemma_token_end(src, q, TokenKind::Ident);
                lemma_token_end(src, r, TokenKind::LBrace);
                lemma_token_end(src, m, TokenKind::RBrace);
                lemma_members_end(src, body);
            }
        }
        let start = self.start_span();
        let _ = self.expect(TokenKind::KwType);
        let name = self.ident();
        proof {
            if valid {
                assert(name.start_spec() == q);
                assert(name.end_spec() == lex_step(src, q).1);
            }
        }
        let open = self.expect(TokenKind::LBrace);
        let let_cp = self.ast.lets.checkpoint();
        let def_cp = self.ast.defs.checkpoint();
        let stop = [TokenKind::KwLet, TokenKind::KwDef, TokenKind::RBrace];
        let ghost types = self.ast.types.nodes();
        let ghost lets0 = self.ast.lets.nodes();
        let ghost defs0 = self.ast.defs.nodes();
        proof {
            assert(self.ast.exprs.nodes().subrange(0, old(self).ast.exprs.nodes().len() as int) =~= old(self).ast.exprs.nodes());
            if valid {
                assert(let_name_starts(lets0.subrange(lets0.len() as int, lets0.len() as int)) =~= Seq::<int>::empty());
                assert(def_name_starts(defs0.subrange(defs0.len() as int, defs0.len() as int)) =~= Seq::<int>::empty());
                assert(Seq::<int>::empty() + member_names(src, body, TokenKind::KwLet) =~= member_names(src, body, TokenKind::KwLet));
                assert(Seq::<int>::empty() + member_names(src, body, TokenKind::KwDef) =~= member_names(src, body, TokenKind::KwDef));
            }
        }
        loop
            invariant
                self.inv(),
                self.settled(),
                old(self).grows(&*self),
                self.measure() < old(self).measure(),
                self.credit() >= old(self).credit() + 2,
                let_cp.at() <= self.ast.lets.nodes().len(),
                def_cp.at() <= self.ast.defs.nodes().len(),
                name.fits(old(self).src()),
                start == old(self).tstart(),
                stop@ == seq![TokenKind::KwLet, TokenKind::KwDef, TokenKind::RBrace],
                self.ast.types.nodes() == types,
                self.ast.tests == old(self).ast.tests,
                self.ast.asserts == old(self).ast.asserts,
                self.ast.relations == old(self).ast.relations,
                self.ast.subjects == old(self).ast.subjects,
                forall|k: int| 0 <= k < types.len() ==> (#[trigger] types[k]).lets.hi() <= let_cp.at() && types[k].defs.hi() <= def_cp.at(),
                src == self.src(),
                valid == old(self).derives(type_def_end(src, p)),
                valid ==> self.reporter == old(self).reporter && self.pending is None
                    && members_end(src, self.tstart()) == Some(m) && kind_at(src, m) == TokenKind::RBrace
                    && !is_error_kind(kind_at(src, next_at(src, m))),
                valid ==> name.start_spec() == q && name.end_spec() == lex_step(src, q).1,
                let_cp.at() == lets0.len(),
                def_cp.at() == defs0.len(),
                lets0.len() <= self.ast.lets.nodes().len(),
                self.ast.lets.nodes().subrange(0, lets0.len() as int) == lets0,
                defs0.len() <= self.ast.defs.nodes().len(),
                self.ast.defs.nodes().subrange(0, defs0.len() as int) == defs0,
                valid ==> let_name_starts(self.ast.lets.nodes().subrange(lets0.len() as int, self.ast.lets.nodes().len() as int))
                    + member_names(src, self.tstart(), TokenKind::KwLet) == member_names(src, body, TokenKind::KwLet),
                valid ==> def_name_starts(self.ast.defs.nodes().subrange(defs0.len() as int, self.ast.defs.nodes().len() as int))
                    + member_names(src, self.tstart(), TokenKind::KwDef) == member_names(src, body, TokenKind::KwDef),
                old(self).exprs_kept(&*self),
                valid && members_represent(old(self).ast.lets.nodes(), old(self).ast.defs.nodes(), old(self).ast.exprs.nodes(), src)
                    ==> members_represent(self.ast.lets.nodes(), self.ast.defs.nodes(), self.ast.exprs.nodes(), src),
            ensures
                valid ==> self.tstart() == m,
            decreases self.measure(),
        {
            proof {
                if valid {
                    let c = self.tstart();
                    lemma_lex_step_bounds(src, c);
                    if self.kind() == TokenKind::KwLet || self.kind() == TokenKind::KwDef {
                        let mm = member_end(src, c)->0;
                        lemma_members_end(src, mm);
                    }
                }
            }
            let ghost lets_b = self.ast.lets.nodes();
            let ghost defs_b = self.ast.defs.nodes();
            let ghost exprs_b = self.ast.exprs.nodes();
            match self.token.kind() {
                TokenKind::KwLet | TokenKind::KwDef => {
                    self.member(Ghost(lets0.len() as int), Ghost(defs0.len() as int));
                    proof {
                        lemma_prefix_trans(old(self).ast.exprs.nodes(), exprs_b, self.ast.exprs.nodes());
                        lemma_prefix_trans(lets0, lets_b, self.ast.lets.nodes());
                        lemma_prefix_trans(defs0, defs_b, self.ast.defs.nodes());
                    }
                },
                TokenKind::RBrace | TokenKind::Eof => break,
                _ => {
                    let d = errors::unexpected_token(self.token);
                    self.report(d);
                    self.skip_until(&stop);
                },
            }
        }
        let lets = self.ast.lets.since(let_cp);
        let defs = self.ast.defs.since(def_cp);
        self.close(open, TokenKind::RBrace, "'{'");
        let span = self.end_span(start);
        let _ = self.ast.type_def(span, name, lets, defs);
        proof {
            assert(self.ast.types.nodes().subrange(0, types.len() as int) =~= types);
            if valid {
                assert(member_names(src, m, TokenKind::KwLet) =~= Seq::<int>::empty());
                assert(member_names(src, m, TokenKind::KwDef) =~= Seq::<int>::empty());
                assert(let_name_starts(self.ast.lets.nodes().subrange(lets0.len() as int, self.ast.lets.nodes().len() as int))
                    =~= member_names(src, body, TokenKind::KwLet));
                assert(def_name_starts(self.ast.defs.nodes().subrange(defs0.len() as int, self.ast.defs.nodes().len() as int))
                    =~= member_names(src, body, TokenKind::KwDef));
            }
        }
    }

    /// Parses one `let` or `def` member, keeping count of the members of the type body
    /// that the ranges from `lets_lo` and `defs_lo` hold.
    #[verifier::spinoff_prover]
    #[verifier::rlimit(60)]
    fn member(&mut self, Ghost(lets_lo): Ghost<int>, Ghost(defs_lo): Ghost<int>)
        requires
            old(self).inv(),
            old(self).kind() == TokenKind::KwLet || old(self).kind() == TokenKind::KwDef,
            0 <= lets_lo <= old(self).ast.lets.nodes().len(),
            0 <= defs_lo <= old(self).ast.defs.nodes().len(),
        ensures
            final(self).inv(),
            final(self).settled(),
            final(self).ast.tests == old(self).ast.tests,
            final(self).ast.asserts == old(self).ast.asserts,
            final(self).ast.relations == old(self).ast.relations,
            final(self).ast.subjects == old(self).ast.subjects,
            old(self).grows(&*final(self)),
            final(self).measure() < old(self).measure(),
            final(self).credit() >= old(self).credit(),
            final(self).ast.types == old(self).ast.types,
            old(self).ast.lets.nodes().len() <= final(self).ast.lets.nodes().len(),
            final(self).ast.lets.nodes().subrange(0, old(self).ast.lets.nodes().len() as int) == old(self).ast.lets.nodes(),
            old(self).ast.defs.nodes().len() <= final(self).ast.defs.nodes().len(),
            final(self).ast.defs.nodes().subrange(0, old(self).ast.defs.nodes().len() as int) == old(self).ast.defs.nodes(),
            old(self).exprs_kept(&*final(self)),
            old(self).derives(member_end(old(self).src(), old(self).tstart())) ==> {
                let src = old(self).src();
                let c = old(self).tstart();
                &&& old(self).reached(&*final(self), member_end(src, c))
                &&& let_name_starts(final(self).ast.lets.nodes().subrange(lets_lo, final(self).ast.lets.nodes().len() as int))
                    + member_names(src, final(self).tstart(), TokenKind::KwLet)
                    == let_name_starts(old(self).ast.lets.nodes().subrange(lets_lo, old(self).ast.lets.nodes().len() as int))
                    + member_names(src, c, TokenKind::KwLet)
                &&& def_name_starts(final(self).ast.defs.nodes().subrange(defs_lo, final(self).ast.defs.nodes().len() as int))
                    + member_names(src, final(self).tstart(), TokenKind::KwDef)
                    == def_name_starts(old(self).ast.defs.nodes().subrange(defs_lo, old(self).ast.defs.nodes().len() as int))
                    + member_names(src, c, TokenKind::KwDef)
                &&& members_represent(old(self).ast.lets.nodes(), old(self).ast.defs.nodes(), old(self).ast.exprs.nodes(), src)
                    ==> members_represent(final(self).ast.lets.nodes(), final(self).ast.defs.nodes(), final(self).ast.exprs.nodes(), src)
            },
    {
        let ghost src = self.src();
        let ghost c = self.tstart();
        let ghost valid = old(self).derives(member_end(src, c));
        let ghost lets_b = self.ast.lets.nodes();
        let ghost defs_b = self.ast.defs.nodes();
        let ghost exprs_b = self.ast.exprs.nodes();
        proof {
            lemma_lex_step_bounds(src, c);
            if valid {
                lemma_member_names_step(src, c);
            }
        }
        if self.at(TokenKind::KwLet) {
            self.let_member();
            proof {
                if valid {
                    lemma_let_names_push(lets_b, self.ast.lets.nodes(), lets_lo, next_at(src, c));
                    assert(let_name_starts(self.ast.lets.nodes().subrange(lets_lo, self.ast.lets.nodes().len() as int))
                        + member_names(src, self.tstart(), TokenKind::KwLet)
                        =~= let_name_starts(lets_b.subrange(lets_lo, lets_b.len() as int))
                        + member_names(src, c, TokenKind::KwLet));
                    assert(member_names(src, c, TokenKind::KwDef) =~= member_names(src, self.tstart(), TokenKind::KwDef));
                    if members_represent(lets_b, defs_b, exprs_b, src) {
                        lemma_members_represent_grow(lets_b, defs_b, exprs_b, self.ast.lets.nodes(), self.ast.defs.nodes(),
                            self.ast.exprs.nodes(), src);
                    }
                }
            }
        } else {
            self.def_member();
            proof {
                if valid {
                    lemma_def_names_push(defs_b, self.ast.defs.nodes(), defs_lo, next_at(src, c));
                    assert(def_name_starts(self.ast.defs.nodes().subrange(defs_lo, self.ast.defs.nodes().len() as int))
                        + member_names(src, self.tstart(), TokenKind::KwDef)
                        =~= def_name_starts(defs_b.subrange(defs_lo, defs_b.len() as int))
                        + member_names(src, c, TokenKind::KwDef));
                    assert(member_names(src, c, TokenKind::KwLet) =~= member_names(src, self.tstart(), TokenKind::KwLet));
                    if members_represent(lets_b, defs_b, exprs_b, src) {
                        lemma_members_represent_grow(lets_b, defs_b, exprs_b, self.ast.lets.nodes(), self.ast.defs.nodes(),
                            self.ast.exprs.nodes(), src);
                    }
                }
            }
        }
    }

    /// Parses `let name = expr;`.
    fn let_member(&mut self)
        requires
            old(self).inv(),
            old(self).kind() == TokenKind::KwLet,
        ensures
            final(self).inv(),
            final(self).settled(),
            final(self).ast.tests == old(self).ast.tests,
            final(self).ast.asserts == old(self).ast.asserts,
            final(self).ast.relations == old(self).ast.relations,
            final(self).ast.subjects == old(self).ast.subjects,
            old(self).grows(&*final(self)),
            final(self).measure() < old(self).measure(),
            final(self).credit() >= old(self).credit(),
            final(self).ast.types == old(self).ast.types,
            old(self).derives(member_end(old(self).src(), old(self).tstart()))
                ==> old(self).reached(&*final(self), member_end(old(self).src(), old(self).tstart())),
            final(self).ast.lets.nodes().len() == old(self).ast.lets.nodes().len() + 1,
            final(self).ast.lets.nodes().subrange(0, old(self).ast.lets.nodes().len() as int) == old(self).ast.lets.nodes(),
            final(self).ast.defs == old(self).ast.defs,
            old(self).derives(member_end(old(self).src(), old(self).tstart()))
                ==> final(self).ast.lets.nodes().last().name.start_spec() == next_at(old(self).src(), old(self).tstart()),
            old(self).exprs_kept(&*final(self)),
            old(self).derives(member_end(old(self).src(), old(self).tstart()))
                ==> represents(final(self).ast.exprs.nodes(), final(self).ast.lets.nodes().last().expr.idx() as int,
                    prec_expr(old(self).src(), member_expr_start(old(self).src(), next_at(old(self).src(), old(self).tstart())), 0).0, old(self).src())
                    && final(self).ast.lets.nodes().last().name.end_spec() == lex_step(old(self).src(), next_at(old(self).src(), old(self).tstart())).1,
    {
        let ghost src = self.src();
        let ghost p = self.tstart();
        let ghost before = self.ast.lets.nodes();
        proof {
            if old(self).derives(member_end(src, p)) {
                let q = next_at(src, p);
                let r = next_at(src, q);
                let s = next_at(src, r);
                let e = expr_end(src, s)->0;
                lemma_next_at(src, p);
                lemma_token_end(src, q, TokenKind::Ident);
                lemma_token_end(src, r, TokenKind::Eq);
                lemma_term_start(src, s);
                lemma_token_end(src, e, TokenKind::Semicolon);
            }
        }
        let start = self.start_span();
        let _ = self.expect(TokenKind::KwLet);
        let name = self.ident();
        let _ = self.expect(TokenKind::Eq);
        let expr = self.expr();
        self.semicolon();
        let span = self.end_span(start);
        let _ = self.ast.let_member(span, name, expr);
        proof {
            assert(self.ast.exprs.nodes().subrange(0, old(self).ast.exprs.nodes().len() as int)
                =~= old(self).ast.exprs.nodes());
            assert(self.ast.lets.nodes().subrange(0, before.len() as int) =~= before);
        }
    }

    /// Parses `def name = expr;`.
    fn def_member(&mut self)
        requires
            old(self).inv(),
            old(self).kind() == TokenKind::KwDef,
        ensures
            final(self).inv(),
            final(self).settled(),
            final(self).ast.tests == old(self).ast.tests,
            final(self).ast.asserts == old(self).ast.asserts,
            final(self).ast.relations == old(self).ast.relations,
            final(self).ast.subjects == old(self).ast.subjects,
            old(self).grows(&*final(self)),
            final(self).measure() < old(self).measure(),
            final(self).credit() >= old(self).credit(),
            final(self).ast.types == old(self).ast.types,
            old(self).derives(member_end(old(self).src(), old(self).tstart()))
                ==> old(self).reached(&*final(self), member_end(old(self).src(), old(self).tstart())),
            final(self).ast.defs.nodes().len() == old(self).ast.defs.nodes().len() + 1,
            final(self).ast.defs.nodes().subrange(0, old(self).ast.defs.nodes().len() as int) == old(self).ast.defs.nodes(),
            final(self).ast.lets == old(self).ast.lets,
            old(self).derives(member_end(old(self).src(), old(self).tstart()))
                ==> final(self).ast.defs.nodes().last().name.start_spec() == next_at(old(self).src(), old(self).tstart()),
            old(self).exprs_kept(&*final(self)),
            old(self).derives(member_end(old(self).src(), old(self).tstart()))
                ==> represents(final(self).ast.exprs.nodes(), final(self).ast.defs.nodes().last().expr.idx() as int,
                    prec_expr(old(self).src(), member_expr_start(old(self).src(), next_at(old(self).src(), old(self).tstart())), 0).0, old(self).src())
                    && final(self).ast.defs.nodes().last().name.end_spec() == lex_step(old(self).src(), next_at(old(self).src(), old(self).tstart())).1,
    {
        let ghost src = self.src();
        let ghost p = self.tstart();
        let ghost before = self.ast.defs.nodes();
        proof {
            if old(self).derives(member_end(src, p)) {
                let q = next_at(src, p);
                let r = next_at(src, q);
                let s = next_at(src, r);
                let e = expr_end(src, s)->0;
                lemma_next_at(src, p);
                lemma_token_end(src, q, TokenKind::Ident);
                lemma_token_end(src, r, TokenKind::Eq);
                lemma_term_start(src, s);
                lemma_token_end(src, e, TokenKind::Semicolon);
            }
        }
        let start = self.start_span();
        let _ = self.expect(TokenKind::KwDef);
        let name = self.ident();
        let _ = self.expect(TokenKind::Eq);
        let expr = self.expr();
        self.semicolon();
        let span = self.end_span(start);
        let _ = self.ast.def_member(span, name, expr);
        proof {
            assert(self.ast.exprs.nodes().subrange(0, old(self).ast.exprs.nodes().len() as int)
                =~= old(self).ast.exprs.nodes());
            assert(self.ast.defs.nodes().subrange(0, before.len() as int) =~= before);
        }
    }
}

} // verus!
