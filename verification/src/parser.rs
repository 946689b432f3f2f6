use crate::ast::{AstBuilder, Ast, BinaryOp, ExprId, ExprTerm, Instance, AssertionKind, SubjectId, RelationRange, AssertRange};
use crate::diagnostic::{any_error, Diagnostic, Reporter};
use crate::recognize::is_program_source;
use crate::grammar::{ranges_follow, relations_before, asserts_before, test_counts, lemma_ranges_follow_push, lemma_test_counts_test, lemma_test_counts_type, lemma_program_relations_test, lemma_program_relations_type, program_relation_names, relations_named, relations_names, test_relations_start, assertion_starts, assertions_match, lemma_program_assertions_test, lemma_program_assertions_type, program_assertions, test_assertions_start, test_name_starts, test_names, test_names_are_tokens, lemma_test_names_step, lemma_test_names_skip_type, lemma_type_names_skip_test, is_token_span, program_tree, members_represent, lemma_prefix_trans, climb, lemma_represents_extend, op_of, prec_expr, represents, term_syntax, Syntax, lemma_members_match_push, members_match, lemma_type_names_step, name_starts, names_are_tokens, type_names, definitions_end, is_program, lemma_definitions_end, test_def_end, type_def_end, expr_end, is_operator, kind_at, lemma_next_at, lemma_ops_end, lemma_ops_step, lemma_term_bounds, lemma_term_start, lemma_token_end, next_at, op_power, ops_end, term_end, token_end};
use crate::lexer::{Lexer, Token, TokenKind, lex_step, is_error_kind, is_trivia_kind, skip_trivia, lemma_skip_trivia, lemma_lex_step_bounds, lemma_meaningful_token_ascii};
use crate::parse_errors as errors;
use crate::span::Span;
use crate::vfs::FileRef;
use crate::utf8_facts::lemma_ascii_boundary;
use vstd::prelude::*;
use vstd::string::StringSliceAdditionalSpecFns;

mod test_def;
mod type_def;

verus! {

/// The longest source, in bytes, that the parser accepts. Node ids are `u32` and
/// the parser creates at most two nodes per source byte.
pub const MAX_SOURCE_LEN: usize = 0x7fff_ffff;

/// A recursive-descent parser that builds an [`Ast`] from the tokens of a source.
///
/// On a syntax error it reports a diagnostic and skips to a token from which it can
/// continue (such as `}` or `;`), so that one run reports many errors. A run of bad
/// characters or other lexer errors is reported once, as the first of them, when the
/// token after them is consumed; if a parse error is reported first, that error
/// stands for them. After a lexer error that reaches the end of the file nothing more
/// is reported.
pub struct Parser<'src, R: Reporter> {
    pub(crate) source: &'src str,
    pub(crate) lexer: Lexer<'src>,
    pub(crate) ast: AstBuilder,
    pub(crate) prev: Span,
    pub(crate) token: Token,
    pub(crate) reporter: R,
    /// The first lexer error of the run of bad tokens just skipped; it is reported
    /// when the next token is consumed, or dropped if a parse error is reported first.
    pub(crate) pending: Option<Token>,
    /// Set once a lexer error ran into the end of the file: nothing more is reported.
    pub(crate) quiet: bool,
}

/// The tokens that can begin an expression term: `.`, an identifier or `(`.
pub open spec fn starts_term(kind: TokenKind) -> bool {
    kind == TokenKind::Dot || kind == TokenKind::Ident || kind == TokenKind::LParen
}

impl<'src, R: Reporter> Parser<'src, R> {
    pub open(crate) spec fn src(&self) -> Seq<u8> {
        self.source.spec_bytes()
    }

    pub open(crate) spec fn node_total(&self) -> nat {
        self.ast.node_count()
    }

    pub open(crate) spec fn diags(&self) -> Seq<Diagnostic> {
        self.reporter.reported()
    }

    pub open(crate) spec fn kind(&self) -> TokenKind {
        self.token.kind_spec()
    }

    pub open(crate) spec fn tstart(&self) -> int {
        self.token.span_spec().start_spec() as int
    }

    /// Nodes may be created as long as there are at most two per consumed byte.
    pub open(crate) spec fn credit(&self) -> int {
        2 * self.prev.end_spec() - self.ast.node_count()
    }

    /// Decreases with every consumed token.
    pub open(crate) spec fn measure(&self) -> nat {
        if self.kind() == TokenKind::Eof {
            0
        } else {
            (self.src().len() + 1 - self.tstart()) as nat
        }
    }

    pub open(crate) spec fn inv(&self) -> bool {
        let src = self.src();
        &&& src.len() <= MAX_SOURCE_LEN
        &&& vstd::utf8::valid_utf8(src)
        &&& self.lexer.src() == src
        &&& lex_step(src, self.tstart()) == (self.kind(), self.lexer.pos())
        &&& self.token.span_spec().end_spec() == self.lexer.pos()
        &&& self.token.span_spec().within(src)
        &&& !is_trivia_kind(self.kind())
        &&& (!is_error_kind(self.kind()) ==> self.token.span_spec().fits(src))
        &&& self.prev.within(src)
        &&& self.prev.end_spec() <= self.tstart()
        &&& self.ast.wf()
        &&& self.ast.fits(src)
        &&& crate::ast::ranges_ordered(self.ast.types.nodes())
        &&& self.credit() >= 0
    }

    /// The current token is not a lexer error; true once a token was consumed.
    pub open(crate) spec fn settled(&self) -> bool {
        !is_error_kind(self.kind())
    }

    /// The diagnostics of `self` are the first ones of `next`.
    #[verifier::opaque]
    pub open(crate) spec fn diags_kept(&self, next: &Self) -> bool {
        &&& self.diags().len() <= next.diags().len()
        &&& next.diags().subrange(0, self.diags().len() as int) == self.diags()
    }

    /// The reporter the parser reports to.
    pub open(crate) spec fn reporter_of(&self) -> R {
        self.reporter
    }

    /// At the first token of the source, with no node built and no lexer error
    /// pending.
    pub open(crate) spec fn at_start(&self) -> bool {
        &&& self.node_total() == 0
        &&& self.pending is None
        &&& self.tstart() == skip_trivia(self.src(), 0)
    }

    /// No lexer error is pending, and the grammar puts the end of the construct that
    /// starts at the current token at `end`, on a token that is not a lexer error.
    pub open(crate) spec fn derives(&self, end: Option<int>) -> bool {
        &&& self.pending is None
        &&& end is Some
        &&& !is_error_kind(kind_at(self.src(), end->0))
    }

    /// `next` stands at `end` with the reporter of `self` and no lexer error pending:
    /// nothing was reported on the way.
    pub open(crate) spec fn reached(&self, next: &Self, end: Option<int>) -> bool {
        &&& next.reporter == self.reporter
        &&& next.pending is None
        &&& next.tstart() == end->0
    }

    /// `next` continues `self`: same source, no node removed, nothing un-consumed.
    pub open(crate) spec fn grows(&self, next: &Self) -> bool {
        &&& next.source == self.source
        &&& next.prev.end_spec() >= self.prev.end_spec()
        &&& next.tstart() >= self.tstart()
        &&& next.measure() <= self.measure()
        &&& next.ast.types.nodes().len() >= self.ast.types.nodes().len()
        &&& next.ast.lets.nodes().len() >= self.ast.lets.nodes().len()
        &&& next.ast.defs.nodes().len() >= self.ast.defs.nodes().len()
        &&& next.ast.exprs.nodes().len() >= self.ast.exprs.nodes().len()
        &&& next.ast.tests.nodes().len() >= self.ast.tests.nodes().len()
        &&& next.ast.relations.nodes().len() >= self.ast.relations.nodes().len()
        &&& next.ast.subjects.nodes().len() >= self.ast.subjects.nodes().len()
        &&& next.ast.asserts.nodes().len() >= self.ast.asserts.nodes().len()
    }

    /// A parser at the first token of `source`.
    pub fn from_source(source: &'src str, reporter: R) -> (p: Self)
        requires
            source.spec_bytes().len() <= MAX_SOURCE_LEN,
        ensures
            p.inv(),
            p.src() == source.spec_bytes(),
            p.node_total() == 0,
            p.diags() == reporter.reported(),
            p.reporter_of() == reporter,
            p.at_start(),
    {
        let bytes = source.as_bytes();
        let mut lexer = Lexer::new(bytes);
        let token = lexer.next_nontrivial();
        proof {
            vstd::utf8::encode_utf8_valid_utf8(source@);
            lemma_skip_trivia(bytes@, 0);
            lemma_lex_step_bounds(bytes@, token.span_spec().start_spec() as int);
            let s = token.span_spec().start_spec() as int;
            if !is_error_kind(token.kind_spec()) {
                lemma_meaningful_token_ascii(bytes@, s);
                lemma_ascii_boundary(bytes@, s);
                lemma_ascii_boundary(bytes@, lex_step(bytes@, s).1);
            }
        }
        let start = token.span().start();
        Parser { source, lexer, ast: AstBuilder::new(), prev: Span::empty(start), token, reporter, pending: None, quiet: false }
    }

    /// A parser at the first token of the file's source.
    pub fn new(file: FileRef<'src>, reporter: R) -> (p: Self)
        requires
            file.source_of().spec_bytes().len() <= MAX_SOURCE_LEN,
        ensures
            p.inv(),
            p.src() == file.source_of().spec_bytes(),
            p.node_total() == 0,
            p.diags() == reporter.reported(),
            p.reporter_of() == reporter,
            p.at_start(),
    {
        Self::from_source(file.source(), reporter)
    }

    /// Parses the whole source: `type` and `test` definitions, in any order. Any other
    /// token at the top level is reported, and tokens are skipped up to the next
    /// definition. The parser does not stop at the first syntax error: it skips ahead
    /// and goes on, so that one run can report several. What is stated of the result
    /// is the tree of a program (see [`Parser::parse_and_report`]); of a source that is
    /// not one, only that an error is reported.
    pub fn parse(self) -> (ast: Ast)
        requires
            self.inv(),
        ensures
            ast.wf(),
            ast.fits(self.src()),
            ast.ordered(),
            ast.node_count() <= 2 * self.src().len(),
            self.at_start() && is_program(self.src()) ==> program_tree(ast, self.src()),
    {
        self.parse_and_report().0
    }

    /// Parses the whole source as [`Parser::parse`] does and hands back the reporter
    /// with it. A source that the grammar does not derive never leaves the reporter
    /// without an error: where parsing reported none, the source is checked against
    /// the grammar and `invalid_schema` is reported at the end of the file. From the
    /// start of a source that the grammar derives as a program (see
    /// [`crate::grammar`]), nothing is reported: the reporter comes back as it
    /// was given; and the tree holds the type definitions of the program, in order,
    /// each named by the identifier that follows its `type`, with its `let` and its
    /// `def` members in order, each named by the identifier that follows its keyword,
    /// and the expression of each member has the shape that the grammar gives it, its
    /// operators grouped by precedence; it holds the tests in order, each named by the
    /// string after its `test`, their relations in order, each named by the identifier
    /// of its assignment, and their assertions in order, each of the kind that its
    /// keyword gives and about the permission that it names.
    #[verifier::spinoff_prover]
    #[verifier::rlimit(100)]
    pub fn parse_and_report(self) -> (r: (Ast, R))
        requires
            self.inv(),
        ensures
            r.0.wf(),
            r.0.fits(self.src()),
            r.0.ordered(),
            r.0.node_count() <= 2 * self.src().len(),
            self.at_start() && is_program(self.src()) ==> r.1 == self.reporter_of() && program_tree(r.0, self.src()),
            !is_program(self.src()) ==> any_error(r.1.reported()),
    {
        let ghost src = self.src();
        let ghost valid = self.at_start() && is_program(src);
        let ghost e = definitions_end(src, skip_trivia(src, 0))->0;
        let ghost reporter = self.reporter;
        proof {
            if valid {
                lemma_definitions_end(src, self.tstart());
                assert(self.ast.types.nodes().len() == 0);
                assert(name_starts(self.ast.types.nodes()) =~= Seq::<int>::empty());
                assert(Seq::<int>::empty() + type_names(src, self.tstart()) =~= type_names(src, self.tstart()));
                assert(members_match(self.ast.types.nodes(), self.ast.lets.nodes(), self.ast.defs.nodes(), src));
                assert(members_represent(self.ast.lets.nodes(), self.ast.defs.nodes(), self.ast.exprs.nodes(), src));
                assert(self.ast.tests.nodes().len() == 0);
                assert(test_name_starts(self.ast.tests.nodes()) =~= Seq::<int>::empty());
                assert(Seq::<int>::empty() + test_names(src, self.tstart()) =~= test_names(src, self.tstart()));
                assert(self.ast.asserts.nodes().len() == 0);
                assert(Seq::<int>::empty() + program_assertions(src, self.tstart()) =~= program_assertions(src, self.tstart()));
                assert(self.ast.relations.nodes().len() == 0);
                assert(Seq::<(int, int)>::empty() + program_relation_names(src, self.tstart()) =~= program_relation_names(src, self.tstart()));
            }
        }
        let ghost mut done: Seq<int> = Seq::empty();
        let ghost mut named: Seq<(int, int)> = Seq::empty();
        let ghost mut counts: Seq<(nat, nat)> = Seq::empty();
        proof {
            if valid {
                assert(ranges_follow(self.ast.tests.nodes(), counts));
                assert(counts + test_counts(src, self.tstart()) =~= test_counts(src, self.tstart()));
            }
        }
        let mut p = self;
        let stop = [TokenKind::KwType, TokenKind::KwTest];
        while !p.at(TokenKind::Eof)
            invariant
                p.inv(),
                p.src() == src,
                stop@ == seq![TokenKind::KwType, TokenKind::KwTest],
                valid ==> p.reporter == reporter && p.pending is None && definitions_end(src, p.tstart()) == Some(e)
                    && kind_at(src, e) == TokenKind::Eof,
                valid ==> name_starts(p.ast.types.nodes()) + type_names(src, p.tstart()) == type_names(src, skip_trivia(src, 0))
                    && names_are_tokens(p.ast.types.nodes(), src)
                    && members_match(p.ast.types.nodes(), p.ast.lets.nodes(), p.ast.defs.nodes(), src)
                    && members_represent(p.ast.lets.nodes(), p.ast.defs.nodes(), p.ast.exprs.nodes(), src),
                valid ==> test_name_starts(p.ast.tests.nodes()) + test_names(src, p.tstart()) == test_names(src, skip_trivia(src, 0))
                    && test_names_are_tokens(p.ast.tests.nodes(), src),
                valid ==> assertions_match(p.ast.asserts.nodes(), done, src)
                    && done + program_assertions(src, p.tstart()) == program_assertions(src, skip_trivia(src, 0)),
                valid ==> relations_named(p.ast.relations.nodes(), p.ast.subjects.nodes(), named, src)
                    && named + program_relation_names(src, p.tstart()) == program_relation_names(src, skip_trivia(src, 0)),
                valid ==> ranges_follow(p.ast.tests.nodes(), counts)
                    && relations_before(counts, counts.len() as int) == p.ast.relations.nodes().len()
                    && asserts_before(counts, counts.len() as int) == p.ast.asserts.nodes().len()
                    && counts + test_counts(src, p.tstart()) == test_counts(src, skip_trivia(src, 0)),
            decreases p.measure(),
        {
            proof {
                if valid {
                    let c = p.tstart();
                    lemma_lex_step_bounds(src, c);
                    if p.kind() == TokenKind::KwType {
                        lemma_definitions_end(src, type_def_end(src, c)->0);
                    } else if p.kind() == TokenKind::KwTest {
                        lemma_definitions_end(src, test_def_end(src, c)->0);
                    }
                }
            }
            let ghost before = p.ast.types.nodes();
            let ghost lets_b = p.ast.lets.nodes();
            let ghost defs_b = p.ast.defs.nodes();
            let ghost tests_b = p.ast.tests.nodes();
            let ghost asserts_b = p.ast.asserts.nodes();
            let ghost relations_b = p.ast.relations.nodes();
            let ghost subjects_b = p.ast.subjects.nodes();
            let ghost c = p.tstart();
            match p.token.kind() {
                TokenKind::KwType => {
                    p.type_def();
                    proof {
                        if valid {
                            lemma_type_names_step(before, p.ast.types.nodes(), src, c, p.tstart());
                            lemma_members_match_push(before, p.ast.types.nodes(), lets_b, p.ast.lets.nodes(), defs_b, p.ast.defs.nodes(), src);
                            lemma_test_names_skip_type(src, c, p.tstart());
                            lemma_program_assertions_type(done, src, c, p.tstart(), program_assertions(src, skip_trivia(src, 0)));
                            lemma_program_relations_type(named, src, c, p.tstart(), program_relation_names(src, skip_trivia(src, 0)));
                            lemma_test_counts_type(counts, src, c, p.tstart(), test_counts(src, skip_trivia(src, 0)));
                        }
                    }
                },
                TokenKind::KwTest => {
                    p.test_def();
                    proof {
                        if valid {
                            lemma_test_names_step(tests_b, p.ast.tests.nodes(), src, c, p.tstart());
                            lemma_type_names_skip_test(src, c, p.tstart());
                            lemma_program_assertions_test(asserts_b, p.ast.asserts.nodes(), done, src, c, p.tstart(),
                                program_assertions(src, skip_trivia(src, 0)));
                            done = done + assertion_starts(src, test_assertions_start(src, c));
                            lemma_program_relations_test(relations_b, p.ast.relations.nodes(), subjects_b, p.ast.subjects.nodes(), named, src, c, p.tstart(),
                                program_relation_names(src, skip_trivia(src, 0)));
                            named = named + relations_names(src, test_relations_start(src, c));
                            let rc = relations_names(src, test_relations_start(src, c)).len();
                            let ac = assertion_starts(src, test_assertions_start(src, c)).len();
                            lemma_ranges_follow_push(tests_b, p.ast.tests.nodes(), counts, rc, ac);
                            lemma_test_counts_test(counts, src, c, p.tstart(), test_counts(src, skip_trivia(src, 0)));
                            counts = counts.push((rc, ac));
                        }
                    }
                },
                _ => {
                    let d = errors::unexpected_token(p.token);
                    p.report(d);
                    p.skip_until(&stop);
                },
            }
        }
        let mut reporter = p.reporter;
        if !reporter.has_errors() && !is_program_source(p.source.as_bytes()) {
            let d = errors::not_a_program(p.token.span());
            reporter.report(d);
            proof {
                let n = (reporter.reported().len() - 1) as int;
                assert(reporter.reported()[n]@.severity == crate::diagnostic::Severity::Error);
            }
        }
        (p.ast.finish(), reporter)
    }

    /// Reports a parse error, unless a lexer error ran into the end of the file; the
    /// pending lexer error, if any, is dropped.
    pub(crate) fn report(&mut self, diagnostic: Diagnostic)
        ensures
            final(self).source == old(self).source,
            final(self).lexer == old(self).lexer,
            final(self).ast == old(self).ast,
            final(self).prev == old(self).prev,
            final(self).token == old(self).token,
            final(self).quiet == old(self).quiet,
            old(self).quiet ==> final(self).reporter.reported() == old(self).reporter.reported(),
            !old(self).quiet ==> final(self).reporter.reported() == old(self).reporter.reported().push(diagnostic),
    {
        if self.quiet {
            return;
        }
        self.pending = None;
        self.reporter.report(diagnostic);
    }

    /// Reports the pending lexer error, if any.
    fn flush(&mut self)
        ensures
            final(self).source == old(self).source,
            final(self).lexer == old(self).lexer,
            final(self).ast == old(self).ast,
            final(self).prev == old(self).prev,
            final(self).token == old(self).token,
            final(self).quiet == old(self).quiet,
            final(self).pending is None,
            old(self).pending is None ==> final(self).reporter == old(self).reporter,
            old(self).diags_kept(&*final(self)),
    {
        proof {
            reveal(Parser::diags_kept);
        }
        let ghost before = self.reporter.reported();
        if let Some(t) = self.pending {
            self.pending = None;
            if !self.quiet {
                let d = errors::from_lexer_error(t);
                self.reporter.report(d);
            }
        }
        proof {
            assert(self.reporter.reported().subrange(0, before.len() as int) =~= before);
        }
    }

    /// Scans to the next token that is neither trivia nor a lexer error; the first
    /// error token on the way is kept as pending, unless one already is.
    fn next_meaningful(&mut self) -> (t: Token)
        requires
            old(self).lexer.src() == old(self).src(),
            old(self).lexer.pos() <= old(self).src().len(),
        ensures
            final(self).source == old(self).source,
            final(self).ast == old(self).ast,
            final(self).prev == old(self).prev,
            final(self).token == old(self).token,
            final(self).lexer.src() == old(self).src(),
            lex_step(old(self).src(), t.span_spec().start_spec() as int) == (t.kind_spec(), final(self).lexer.pos()),
            t.span_spec().end_spec() == final(self).lexer.pos(),
            old(self).lexer.pos() <= t.span_spec().start_spec() <= final(self).lexer.pos() <= old(self).src().len(),
            !is_error_kind(t.kind_spec()),
            !is_trivia_kind(t.kind_spec()),
            final(self).reporter == old(self).reporter,
            final(self).quiet == old(self).quiet,
            old(self).pending is None && !is_error_kind(kind_at(old(self).src(), skip_trivia(old(self).src(), old(self).lexer.pos())))
                ==> t.span_spec().start_spec() == skip_trivia(old(self).src(), old(self).lexer.pos()) && final(self).pending is None,
    {
        let ghost mut first = true;
        loop
            invariant
                self.source == old(self).source,
                self.ast == old(self).ast,
                self.prev == old(self).prev,
                self.token == old(self).token,
                self.reporter == old(self).reporter,
                self.quiet == old(self).quiet,
                self.lexer.src() == old(self).src(),
                old(self).lexer.pos() <= self.lexer.pos() <= old(self).src().len(),
                first ==> self.lexer.pos() == old(self).lexer.pos() && self.pending == old(self).pending,
                !first ==> !(old(self).pending is None && !is_error_kind(kind_at(old(self).src(), skip_trivia(old(self).src(), old(self).lexer.pos())))),
            decreases old(self).src().len() - self.lexer.pos(),
        {
            let ghost before = self.lexer.pos();
            let token = self.lexer.next_nontrivial();
            proof {
                lemma_skip_trivia(self.src(), before);
                lemma_lex_step_bounds(self.src(), token.span_spec().start_spec() as int);
            }
            if token.kind().is_error() {
                if self.pending.is_none() {
                    self.pending = Some(token);
                }
                proof {
                    first = false;
                }
            } else {
                return token;
            }
        }
    }

    /// Consumes the current token, which must not be the end of the file.
    fn advance(&mut self) -> (t: Token)
        requires
            old(self).inv(),
            old(self).kind() != TokenKind::Eof,
        ensures
            final(self).inv(),
            final(self).settled(),
            old(self).grows(&*final(self)),
            final(self).measure() < old(self).measure(),
            final(self).credit() >= old(self).credit() + 2,
            final(self).ast == old(self).ast,
            final(self).prev == old(self).token.span_spec(),
            t == old(self).token,
            old(self).derives(token_end(old(self).src(), old(self).tstart(), old(self).kind()))
                ==> old(self).reached(&*final(self), token_end(old(self).src(), old(self).tstart(), old(self).kind())),
            old(self).diags_kept(&*final(self)),
    {
        proof {
            reveal(Parser::diags_kept);
        }
        proof {
            lemma_lex_step_bounds(self.src(), self.tstart());
        }
        let ghost d0 = self.diags();
        let prev = self.token;
        self.prev = prev.span();
        self.flush();
        let ghost d1 = self.diags();
        let next = self.next_meaningful();
        self.token = next;
        if next.kind() == TokenKind::Eof && self.pending.is_some() {
            self.flush();
            self.quiet = true;
            proof {
                lemma_prefix_trans(d0, d1, self.diags());
            }
        }
        proof {
            let s = next.span_spec().start_spec() as int;
            lemma_lex_step_bounds(self.src(), s);
            lemma_meaningful_token_ascii(self.src(), s);
            lemma_ascii_boundary(self.src(), s);
            lemma_ascii_boundary(self.src(), lex_step(self.src(), s).1);
        }
        prev
    }

    fn at(&self, kind: TokenKind) -> (r: bool)
        ensures
            r == (self.kind() == kind),
    {
        self.token.kind() == kind
    }

    fn skip(&mut self)
        requires
            old(self).inv(),
            old(self).kind() != TokenKind::Eof,
        ensures
            final(self).inv(),
            final(self).settled(),
            old(self).grows(&*final(self)),
            final(self).measure() < old(self).measure(),
            final(self).credit() >= old(self).credit() + 2,
            final(self).ast == old(self).ast,
            old(self).derives(token_end(old(self).src(), old(self).tstart(), old(self).kind()))
                ==> old(self).reached(&*final(self), token_end(old(self).src(), old(self).tstart(), old(self).kind())),
            old(self).diags_kept(&*final(self)),
    {
        proof {
            reveal(Parser::diags_kept);
        }
        let _ = self.advance();
    }

    /// Consumes a token of `kind`; otherwise reports what was expected and returns an
    /// empty span at the current token.
    fn expect(&mut self, kind: TokenKind) -> (r: Span)
        requires
            old(self).inv(),
            old(self).settled(),
            kind != TokenKind::Eof,
        ensures
            final(self).inv(),
            final(self).settled(),
            old(self).grows(&*final(self)),
            final(self).ast == old(self).ast,
            r.fits(old(self).src()),
            old(self).kind() == kind ==> r == old(self).token.span_spec() && final(self).measure() < old(self).measure() && final(self).credit() >= old(self).credit() + 2,
            old(self).kind() != kind ==> final(self).measure() == old(self).measure() && final(self).credit() == old(self).credit(),
            old(self).derives(token_end(old(self).src(), old(self).tstart(), kind))
                ==> old(self).reached(&*final(self), token_end(old(self).src(), old(self).tstart(), kind)),
            old(self).diags_kept(&*final(self)),
    {
        proof {
            reveal(Parser::diags_kept);
        }
        if self.at(kind) {
            return self.advance().span();
        }
        let d = errors::expected(kind, self.token);
        self.report(d);
        proof {
            assert(self.diags().subrange(0, old(self).diags().len() as int) =~= old(self).diags());
        }
        Span::empty(self.token.span().start())
    }

    /// Consumes a token of `kind` if there is one.
    fn eat(&mut self, kind: TokenKind) -> (r: bool)
        requires
            old(self).inv(),
            old(self).settled(),
            kind != TokenKind::Eof,
        ensures
            final(self).inv(),
            final(self).settled(),
            old(self).grows(&*final(self)),
            final(self).ast == old(self).ast,
            r == (old(self).kind() == kind),
            r ==> final(self).measure() < old(self).measure() && final(self).credit() >= old(self).credit() + 2,
            !r ==> *final(self) == *old(self),
            old(self).derives(token_end(old(self).src(), old(self).tstart(), kind))
                ==> old(self).reached(&*final(self), token_end(old(self).src(), old(self).tstart(), kind)),
    {
        if !self.at(kind) {
            return false;
        }
        self.skip();
        true
    }

    /// Skips tokens until one of `stop`, or the end of the file.
    fn skip_until(&mut self, stop: &[TokenKind])
        requires
            old(self).inv(),
        ensures
            final(self).inv(),
            old(self).grows(&*final(self)),
            final(self).ast == old(self).ast,
            final(self).credit() >= old(self).credit(),
            final(self).kind() == TokenKind::Eof || stop@.contains(final(self).kind()),
            (old(self).kind() != TokenKind::Eof && !stop@.contains(old(self).kind())) ==> final(self).measure() < old(self).measure() && final(self).settled(),
            (old(self).kind() == TokenKind::Eof || stop@.contains(old(self).kind())) ==> *final(self) == *old(self),
            old(self).diags_kept(&*final(self)),
    {
        proof {
            reveal(Parser::diags_kept);
        }
        let ghost start_measure = self.measure();
        proof {
            assert(self.diags().subrange(0, self.diags().len() as int) =~= self.diags());
        }
        loop
            invariant
                self.inv(),
                old(self).grows(&*self),
                self.ast == old(self).ast,
                self.credit() >= old(self).credit(),
                (old(self).kind() != TokenKind::Eof && !stop@.contains(old(self).kind())) ==> (self.measure() < old(self).measure() && self.settled()) || *self == *old(self),
                (old(self).kind() == TokenKind::Eof || stop@.contains(old(self).kind())) ==> *self == *old(self),
                old(self).diags_kept(&*self),
            decreases self.measure(),
        {
            if self.at(TokenKind::Eof) {
                return;
            }
            let mut i: usize = 0;
            let mut found = false;
            while i < stop.len()
                invariant
                    i <= stop@.len(),
                    found == (exists|k: int| 0 <= k < i && stop@[k] == self.kind()),
                decreases stop@.len() - i,
            {
                if stop[i] == self.token.kind() {
                    found = true;
                }
                i = i + 1;
            }
            if found {
                return;
            }
            proof {
                assert(!stop@.contains(self.kind()));
            }
            let ghost d1 = self.diags();
            self.skip();
            proof {
                reveal(Parser::diags_kept);
                lemma_prefix_trans(old(self).diags(), d1, self.diags());
            }
        }
    }

    fn ident(&mut self) -> (r: Span)
        requires
            old(self).inv(),
            old(self).settled(),
        ensures
            final(self).inv(),
            final(self).settled(),
            old(self).grows(&*final(self)),
            final(self).ast == old(self).ast,
            r.fits(old(self).src()),
            old(self).kind() == TokenKind::Ident ==> final(self).measure() < old(self).measure() && final(self).credit() >= old(self).credit() + 2,
            old(self).kind() != TokenKind::Ident ==> final(self).credit() == old(self).credit(),
            old(self).kind() == TokenKind::Ident ==> r == old(self).token.span_spec(),
            old(self).derives(token_end(old(self).src(), old(self).tstart(), TokenKind::Ident))
                ==> old(self).reached(&*final(self), token_end(old(self).src(), old(self).tstart(), TokenKind::Ident)),
    {
        self.expect(TokenKind::Ident)
    }

    fn string(&mut self) -> (r: Span)
        requires
            old(self).inv(),
            old(self).settled(),
        ensures
            final(self).inv(),
            final(self).settled(),
            old(self).grows(&*final(self)),
            final(self).ast == old(self).ast,
            r.fits(old(self).src()),
            final(self).credit() >= old(self).credit(),
            old(self).kind() == TokenKind::String ==> r == old(self).token.span_spec(),
            old(self).derives(token_end(old(self).src(), old(self).tstart(), TokenKind::String))
                ==> old(self).reached(&*final(self), token_end(old(self).src(), old(self).tstart(), TokenKind::String)),
    {
        self.expect(TokenKind::String)
    }

    fn start_span(&self) -> (r: u32)
        requires
            self.inv(),
        ensures
            r == self.tstart(),
    {
        self.token.span().start()
    }

    /// The span from `start` to the end of the last consumed token; empty at `start`
    /// when nothing was consumed since.
    fn end_span(&self, start: u32) -> (r: Span)
        requires
            self.inv(),
            start <= self.src().len(),
        ensures
            r.within(self.src()),
            r.start_spec() == start,
    {
        let end = self.prev.end();
        if start <= end {
            Span::from_range(start, end)
        } else {
            Span::empty(start)
        }
    }

    /// Consumes a `;`, or reports that it is missing after the last token.
    fn semicolon(&mut self)
        requires
            old(self).inv(),
            old(self).settled(),
        ensures
            final(self).inv(),
            final(self).settled(),
            old(self).grows(&*final(self)),
            final(self).ast == old(self).ast,
            final(self).credit() >= old(self).credit(),
            old(self).derives(token_end(old(self).src(), old(self).tstart(), TokenKind::Semicolon))
                ==> old(self).reached(&*final(self), token_end(old(self).src(), old(self).tstart(), TokenKind::Semicolon)),
            old(self).kind() != TokenKind::Semicolon ==> final(self).tstart() == old(self).tstart(),
            old(self).kind() != TokenKind::Semicolon && old(self).quiet ==> final(self).diags() == old(self).diags(),
            old(self).kind() != TokenKind::Semicolon && !old(self).quiet ==> final(self).diags().len() == old(self).diags().len() + 1
                && final(self).diags().subrange(0, old(self).diags().len() as int) == old(self).diags()
                && errors::shaped(final(self).diags().last(), "aes::parser"@, "missing_semicolon"@, old(self).prev),
    {
        if self.at(TokenKind::Semicolon) {
            self.skip();
        } else {
            let d = errors::missing_semicolon(self.prev);
            self.report(d);
            proof {
                if !old(self).quiet {
                    assert(self.diags().subrange(0, old(self).diags().len() as int) =~= old(self).diags());
                }
            }
        }
    }

    /// Consumes the closing delimiter `close`, or reports that the one opened at
    /// `open` is unclosed.
    fn close(&mut self, open: Span, close: TokenKind, open_char: &str)
        requires
            old(self).inv(),
            old(self).settled(),
            close != TokenKind::Eof,
        ensures
            final(self).inv(),
            final(self).settled(),
            old(self).grows(&*final(self)),
            final(self).ast == old(self).ast,
            final(self).credit() >= old(self).credit(),
            old(self).derives(token_end(old(self).src(), old(self).tstart(), close))
                ==> old(self).reached(&*final(self), token_end(old(self).src(), old(self).tstart(), close)),
            old(self).kind() != close ==> final(self).tstart() == old(self).tstart(),
            old(self).kind() != close && old(self).quiet ==> final(self).diags() == old(self).diags(),
            old(self).kind() != close && !old(self).quiet ==> final(self).diags().len() == old(self).diags().len() + 1
                && final(self).diags().subrange(0, old(self).diags().len() as int) == old(self).diags()
                && errors::shaped(final(self).diags().last(), "aes::parser"@, "unclosed_delimiter"@, open)
                && final(self).diags().last()@.message == "unclosed "@ + open_char@,
            old(self).diags_kept(&*final(self)),
    {
        proof {
            reveal(Parser::diags_kept);
        }
        if !self.at(close) {
            let d = errors::unclosed_delimiter(open, open_char, self.token);
            self.report(d);
            proof {
                assert(self.diags().subrange(0, old(self).diags().len() as int) =~= old(self).diags());
            }
        } else {
            self.skip();
        }
    }
}


impl<'src, R: Reporter> Parser<'src, R> {
    /// `next` holds the expression nodes of `self`, in their places.
    pub open(crate) spec fn exprs_kept(&self, next: &Self) -> bool {
        &&& self.ast.exprs.nodes().len() <= next.ast.exprs.nodes().len()
        &&& next.ast.exprs.nodes().subrange(0, self.ast.exprs.nodes().len() as int) == self.ast.exprs.nodes()
    }

    /// Only the expression arena changed between `self` and `next`.
    pub open(crate) spec fn only_exprs_changed(&self, next: &Self) -> bool {
        &&& next.ast.types == self.ast.types
        &&& next.ast.lets == self.ast.lets
        &&& next.ast.defs == self.ast.defs
        &&& next.ast.tests == self.ast.tests
        &&& next.ast.relations == self.ast.relations
        &&& next.ast.subjects == self.ast.subjects
        &&& next.ast.asserts == self.ast.asserts
    }

    /// Appends an expression node.
    fn push_expr(&mut self, span: Span, term: ExprTerm) -> (id: ExprId)
        requires
            old(self).inv(),
            old(self).credit() >= 1,
            span.within(old(self).src()),
            crate::ast::term_fits(term, old(self).src()),
            match term {
                ExprTerm::Paren(p) => p.inner.idx() < old(self).ast.exprs.nodes().len(),
                ExprTerm::Binary(b) => b.lhs.idx() < old(self).ast.exprs.nodes().len() && b.rhs.idx() < old(self).ast.exprs.nodes().len(),
                _ => true,
            },
        ensures
            final(self).inv(),
            final(self).settled() == old(self).settled(),
            old(self).grows(&*final(self)),
            old(self).only_exprs_changed(&*final(self)),
            final(self).measure() == old(self).measure(),
            final(self).credit() == old(self).credit() - 1,
            final(self).ast.exprs.nodes().len() == old(self).ast.exprs.nodes().len() + 1,
            id.idx() == old(self).ast.exprs.nodes().len(),
            final(self).token == old(self).token,
            final(self).prev == old(self).prev,
            final(self).reporter == old(self).reporter,
            final(self).pending == old(self).pending,
            final(self).ast.exprs.nodes() == old(self).ast.exprs.nodes().push(crate::ast::Expr { span, term }),
            old(self).exprs_kept(&*final(self)),
    {
        let id = self.ast.expr(span, term);
        proof {
            assert(self.ast.exprs.nodes().subrange(0, old(self).ast.exprs.nodes().len() as int) =~= old(self).ast.exprs.nodes());
        }
        proof {
            let exprs = self.ast.exprs.nodes();
            assert forall|i: int| 0 <= i < exprs.len() implies match #[trigger] exprs[i].term {
                ExprTerm::Paren(p) => p.inner.idx() < i,
                ExprTerm::Binary(b) => b.lhs.idx() < i && b.rhs.idx() < i,
                _ => true,
            } by {
                if i < exprs.len() - 1 {
                    assert(exprs[i] == old(self).ast.exprs.nodes()[i]);
                }
            }
            assert forall|i: int| 0 <= i < self.ast.lets.nodes().len() implies (#[trigger] self.ast.lets.nodes()[i]).expr.idx() < exprs.len() by {
                assert(self.ast.lets.nodes()[i] == old(self).ast.lets.nodes()[i]);
            }
            assert forall|i: int| 0 <= i < self.ast.defs.nodes().len() implies (#[trigger] self.ast.defs.nodes()[i]).expr.idx() < exprs.len() by {
                assert(self.ast.defs.nodes()[i] == old(self).ast.defs.nodes()[i]);
            }
            assert forall|i: int| 0 <= i < exprs.len() implies (#[trigger] exprs[i]).span.within(self.src()) && crate::ast::term_fits(exprs[i].term, self.src()) by {
                if i < exprs.len() - 1 {
                    assert(exprs[i] == old(self).ast.exprs.nodes()[i]);
                }
            }
        }
        id
    }

    pub(crate) fn expr(&mut self) -> (id: ExprId)
        requires
            old(self).inv(),
            old(self).settled(),
            old(self).credit() >= 1,
        ensures
            final(self).inv(),
            final(self).settled(),
            old(self).grows(&*final(self)),
            old(self).only_exprs_changed(&*final(self)),
            final(self).credit() >= old(self).credit() - 1,
            id.idx() < final(self).ast.exprs.nodes().len(),
            old(self).derives(expr_end(old(self).src(), old(self).tstart()))
                ==> old(self).reached(&*final(self), expr_end(old(self).src(), old(self).tstart())),
            old(self).exprs_kept(&*final(self)),
            old(self).derives(expr_end(old(self).src(), old(self).tstart()))
                ==> represents(final(self).ast.exprs.nodes(), id.idx() as int, prec_expr(old(self).src(), old(self).tstart(), 0).0, old(self).src()),
        decreases old(self).measure(), 3int,
    {
        let id = self.expr_bp(0);
        proof {
            if old(self).derives(expr_end(old(self).src(), old(self).tstart())) {
                assert(!is_operator(self.kind()));
            }
        }
        id
    }

    /// Parses `term (op term)*`, where an operator binds its right operand only if its
    /// binding power is at least `min_bp`: `|` has power 1, `&` 3 and `-` 5, and
    /// operators of equal power group to the left.
    #[verifier::spinoff_prover]
    #[verifier::rlimit(60)]
    fn expr_bp(&mut self, min_bp: u8) -> (id: ExprId)
        requires
            old(self).inv(),
            old(self).settled(),
            old(self).credit() >= 1,
            min_bp <= 6,
        ensures
            final(self).inv(),
            final(self).settled(),
            old(self).grows(&*final(self)),
            old(self).only_exprs_changed(&*final(self)),
            final(self).credit() >= old(self).credit() - 1,
            id.idx() < final(self).ast.exprs.nodes().len(),
            old(self).derives(expr_end(old(self).src(), old(self).tstart())) ==> {
                &&& final(self).reporter == old(self).reporter
                &&& final(self).pending is None
                &&& ops_end(old(self).src(), final(self).tstart()) == expr_end(old(self).src(), old(self).tstart())
                &&& (is_operator(final(self).kind()) ==> op_power(final(self).kind()) < min_bp)
                &&& final(self).tstart() == prec_expr(old(self).src(), old(self).tstart(), min_bp as int).1
                &&& represents(final(self).ast.exprs.nodes(), id.idx() as int, prec_expr(old(self).src(), old(self).tstart(), min_bp as int).0, old(self).src())
            },
            old(self).exprs_kept(&*final(self)),
        decreases old(self).measure(), 2int,
    {
        let ghost src = self.src();
        let ghost valid = old(self).derives(expr_end(src, old(self).tstart()));
        let ghost e = expr_end(src, old(self).tstart())->0;
        proof {
            if valid {
                lemma_term_start(src, old(self).tstart());
                let t = term_end(src, old(self).tstart())->0;
                lemma_ops_end(src, t);
            }
        }
        let start = self.start_span();
        let mut lhs = self.term();
        let ghost mut shape = term_syntax(src, old(self).tstart());
        proof {
            if valid {
                lemma_term_bounds(src, old(self).tstart());
            }
        }
        loop
            invariant
                self.inv(),
                self.settled(),
                old(self).grows(&*self),
                old(self).only_exprs_changed(&*self),
                self.credit() >= old(self).credit() - 1,
                lhs.idx() < self.ast.exprs.nodes().len(),
                start == old(self).tstart(),
                start <= self.src().len(),
                src == self.src(),
                valid == old(self).derives(expr_end(src, old(self).tstart())),
                e == expr_end(src, old(self).tstart())->0,
                valid ==> self.reporter == old(self).reporter && self.pending is None
                    && ops_end(src, self.tstart()) == Some(e) && !is_error_kind(kind_at(src, e)),
                old(self).exprs_kept(&*self),
                valid ==> represents(self.ast.exprs.nodes(), lhs.idx() as int, shape, src)
                    && prec_expr(src, old(self).tstart(), min_bp as int) == climb(src, shape, self.tstart(), min_bp as int),
            ensures
                valid ==> (is_operator(self.kind()) ==> op_power(self.kind()) < min_bp),
                valid ==> climb(src, shape, self.tstart(), min_bp as int) == (shape, self.tstart()),
            decreases self.measure(),
        {
            let op = match self.token.kind() {
                TokenKind::Pipe => (BinaryOp::Union, 1u8),
                TokenKind::Amp => (BinaryOp::Intersection, 3u8),
                TokenKind::Minus => (BinaryOp::Exclusion, 5u8),
                _ => {
                    break;
                },
            };
            if op.1 < min_bp {
                break;
            }
            proof {
                if valid {
                    let q = self.tstart();
                    lemma_lex_step_bounds(src, q);
                    lemma_ops_step(src, q);
                    lemma_term_start(src, next_at(src, q));
                }
            }
            let ghost q = self.tstart();
            let ghost at_op = *self;
            let ghost lhs_id = lhs.idx() as int;
            self.skip();
            proof {
                assert(self.ast.exprs.nodes() == at_op.ast.exprs.nodes());
            }
            let rhs = self.expr_bp(op.1 + 1);
            let span = self.end_span(start);
            let ghost mid = *self;
            let ghost rhs_shape = prec_expr(src, next_at(src, q), op_power(kind_at(src, q)) + 1).0;
            proof {
                if valid {
                    lemma_lex_step_bounds(src, self.tstart());
                    lemma_represents_extend(at_op.ast.exprs.nodes(), mid.ast.exprs.nodes(), lhs_id, shape, src);
                }
            }
            lhs = self.push_expr(span, ExprTerm::binary(op.0, lhs, rhs));
            proof {
                if valid {
                    lemma_represents_extend(mid.ast.exprs.nodes(), self.ast.exprs.nodes(), rhs.idx() as int, rhs_shape, src);
                    lemma_represents_extend(mid.ast.exprs.nodes(), self.ast.exprs.nodes(), lhs_id, shape, src);
                    shape = Syntax::Binary(op_of(kind_at(src, q)), Box::new(shape), Box::new(rhs_shape));
                }
                lemma_prefix_trans(at_op.ast.exprs.nodes(), mid.ast.exprs.nodes(), self.ast.exprs.nodes());
                lemma_prefix_trans(old(self).ast.exprs.nodes(), at_op.ast.exprs.nodes(), self.ast.exprs.nodes());
            }
        }
        lhs
    }

    /// Parses `.relation`, `.relation.permission`, `type`, `type::member` or `( expr )`.
    /// At any other token it reports the missing term and creates a placeholder.
    fn term(&mut self) -> (id: ExprId)
        requires
            old(self).inv(),
            old(self).settled(),
            old(self).credit() >= 1,
        ensures
            final(self).inv(),
            final(self).settled(),
            old(self).grows(&*final(self)),
            old(self).only_exprs_changed(&*final(self)),
            final(self).credit() >= old(self).credit() - 1,
            id.idx() < final(self).ast.exprs.nodes().len(),
            old(self).derives(term_end(old(self).src(), old(self).tstart()))
                ==> old(self).reached(&*final(self), term_end(old(self).src(), old(self).tstart())),
            old(self).exprs_kept(&*final(self)),
            old(self).derives(term_end(old(self).src(), old(self).tstart()))
                ==> represents(final(self).ast.exprs.nodes(), id.idx() as int, term_syntax(old(self).src(), old(self).tstart()), old(self).src()),
            id.idx() == final(self).ast.exprs.nodes().len() - 1,
            !starts_term(old(self).kind()) ==> id.idx() == old(self).ast.exprs.nodes().len(),
            !starts_term(old(self).kind()) ==> final(self).ast.exprs.nodes() == old(self).ast.exprs.nodes().push(
                (crate::ast::Expr { span: old(self).token.span_spec(), term: ExprTerm::Error }),
            ),
            !starts_term(old(self).kind()) && old(self).quiet ==> final(self).diags() == old(self).diags(),
            !starts_term(old(self).kind()) && !old(self).quiet ==> final(self).diags().len() == old(self).diags().len() + 1
                && final(self).diags().subrange(0, old(self).diags().len() as int) == old(self).diags()
                && errors::shaped(final(self).diags().last(), "aes::parser"@, "expected_term"@, old(self).token.span_spec())
                && final(self).diags().last()@.message == "expected expression term, found "@ + crate::lexer::kind_text(old(self).kind()),
        decreases old(self).measure(), 1int,
    {
        let ghost src = self.src();
        let ghost p = self.tstart();
        let start = self.start_span();
        let term = match self.token.kind() {
            TokenKind::Dot => self.relation_term(),
            TokenKind::Ident => self.type_term(),
            TokenKind::LParen => self.paren_term(),
            _ => {
                let d = errors::expected_term(self.token);
                self.report(d);
                proof {
                    if !old(self).quiet {
                        assert(self.diags().subrange(0, old(self).diags().len() as int) =~= old(self).diags());
                    }
                }
                let span = self.token.span();
                return self.push_expr(span, ExprTerm::Error);
            },
        };
        let span = self.end_span(start);
        let ghost mid = *self;
        let id = self.push_expr(span, term);
        proof {
            if old(self).derives(term_end(src, p)) {
                if let ExprTerm::Paren(e) = term {
                    lemma_represents_extend(mid.ast.exprs.nodes(), self.ast.exprs.nodes(), e.inner.idx() as int,
                        prec_expr(src, next_at(src, p), 0).0, src);
                }
            }
            assert(self.ast.exprs.nodes().subrange(0, old(self).ast.exprs.nodes().len() as int)
                =~= mid.ast.exprs.nodes().subrange(0, old(self).ast.exprs.nodes().len() as int));
        }
        id
    }

    /// Parses `.relation` or `.relation.permission`.
    fn relation_term(&mut self) -> (t: ExprTerm)
        requires
            old(self).inv(),
            old(self).kind() == TokenKind::Dot,
        ensures
            final(self).inv(),
            final(self).settled(),
            old(self).grows(&*final(self)),
            final(self).ast == old(self).ast,
            final(self).credit() >= old(self).credit(),
            crate::ast::term_fits(t, old(self).src()),
            t is SelfRef || t is Traversal,
            old(self).derives(term_end(old(self).src(), old(self).tstart()))
                ==> old(self).reached(&*final(self), term_end(old(self).src(), old(self).tstart())),
            old(self).derives(term_end(old(self).src(), old(self).tstart())) ==> match term_syntax(old(self).src(), old(self).tstart()) {
                Syntax::SelfRef(q) => t matches ExprTerm::SelfRef(e) && is_token_span(e.span, q, old(self).src()),
                Syntax::Traversal(q, r) => t matches ExprTerm::Traversal(e) && is_token_span(e.relation, q, old(self).src())
                    && is_token_span(e.permission, r, old(self).src()),
                _ => false,
            },
    {
        let ghost src = self.src();
        let ghost p = self.tstart();
        let ghost valid = old(self).derives(term_end(src, p));
        let ghost q = next_at(src, p);
        let ghost r = next_at(src, q);
        let ghost s = next_at(src, r);
        proof {
            if valid {
                lemma_term_start(src, p);
                lemma_next_at(src, p);
                lemma_token_end(src, q, TokenKind::Ident);
                if token_end(src, r, TokenKind::Dot) is Some {
                    lemma_token_end(src, r, TokenKind::Dot);
                    lemma_token_end(src, s, TokenKind::Ident);
                }
            }
        }
        self.skip();
        let relation = self.ident();
        if self.eat(TokenKind::Dot) {
            let permission = self.ident();
            ExprTerm::traversal(relation, permission)
        } else {
            ExprTerm::self_ref(relation)
        }
    }

    /// Parses `type` or `type::member`.
    fn type_term(&mut self) -> (t: ExprTerm)
        requires
            old(self).inv(),
            old(self).settled(),
            old(self).kind() == TokenKind::Ident,
        ensures
            final(self).inv(),
            final(self).settled(),
            old(self).grows(&*final(self)),
            final(self).ast == old(self).ast,
            final(self).credit() >= old(self).credit(),
            crate::ast::term_fits(t, old(self).src()),
            t is TypeRef || t is UsersetTypeRef,
            old(self).derives(term_end(old(self).src(), old(self).tstart()))
                ==> old(self).reached(&*final(self), term_end(old(self).src(), old(self).tstart())),
            old(self).derives(term_end(old(self).src(), old(self).tstart())) ==> match term_syntax(old(self).src(), old(self).tstart()) {
                Syntax::TypeRef(q) => t matches ExprTerm::TypeRef(e) && is_token_span(e.span, q, old(self).src()),
                Syntax::Userset(q, r) => t matches ExprTerm::UsersetTypeRef(e) && is_token_span(e.ty, q, old(self).src())
                    && is_token_span(e.member, r, old(self).src()),
                _ => false,
            },
    {
        let ghost src = self.src();
        let ghost p = self.tstart();
        let ghost valid = old(self).derives(term_end(src, p));
        let ghost q = next_at(src, p);
        let ghost r = next_at(src, q);
        proof {
            if valid {
                lemma_term_start(src, p);
                lemma_next_at(src, p);
                if token_end(src, q, TokenKind::ColonColon) is Some {
                    lemma_token_end(src, q, TokenKind::ColonColon);
                    lemma_token_end(src, r, TokenKind::Ident);
                }
            }
        }
        let ty = self.ident();
        if self.eat(TokenKind::ColonColon) {
            let member = self.ident();
            ExprTerm::userset_type_ref(ty, member)
        } else {
            ExprTerm::type_ref(ty)
        }
    }

    /// Parses `( expr )`.
    fn paren_term(&mut self) -> (t: ExprTerm)
        requires
            old(self).inv(),
            old(self).settled(),
            old(self).kind() == TokenKind::LParen,
        ensures
            final(self).inv(),
            final(self).settled(),
            old(self).grows(&*final(self)),
            old(self).only_exprs_changed(&*final(self)),
            final(self).credit() >= old(self).credit() + 1,
            t matches ExprTerm::Paren(e) && e.inner.idx() < final(self).ast.exprs.nodes().len(),
            old(self).derives(term_end(old(self).src(), old(self).tstart()))
                ==> old(self).reached(&*final(self), term_end(old(self).src(), old(self).tstart())),
            old(self).exprs_kept(&*final(self)),
            old(self).derives(term_end(old(self).src(), old(self).tstart())) ==> (t matches ExprTerm::Paren(e)
                && represents(final(self).ast.exprs.nodes(), e.inner.idx() as int,
                    prec_expr(old(self).src(), next_at(old(self).src(), old(self).tstart()), 0).0, old(self).src())),
        decreases old(self).measure(), 0int,
    {
        let ghost src = self.src();
        let ghost p = self.tstart();
        let ghost valid = old(self).derives(term_end(src, p));
        let ghost q = next_at(src, p);
        let ghost e = expr_end(src, q)->0;
        proof {
            if valid {
                lemma_term_start(src, p);
                lemma_next_at(src, p);
                lemma_term_start(src, q);
                lemma_token_end(src, e, TokenKind::RParen);
            }
        }
        let open = self.expect(TokenKind::LParen);
        let inner = self.expr();
        self.close(open, TokenKind::RParen, "'('");
        ExprTerm::paren(inner)
    }
}

} // verus!
