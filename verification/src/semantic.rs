//! Semantic analysis: declares the types and members of a schema, then checks every
//! reference in the member expressions.
//!
//! The declaration pass gives each distinct type, relation and permission name a
//! symbol and reports names declared twice; the verification pass resolves every
//! `.relation`, `.relation.permission`, `type` and `type::member` reference.
pub mod declare;
pub mod errors;
pub mod index;
pub mod schema;
pub mod verify;


use crate::ast::{Ast, DefMember, Expr, ExprTerm, LetMember, TypeDef, TypeDefId};
use crate::diagnostic::{any_error, Diagnostic, DiagnosticView, Reporter, Severity};
use crate::semantic::declare::{declare_defs, declare_lets, declare_pass, declare_schema, declare_type_def, declare_types, def_step, let_step, views};
use crate::semantic::index::{empty_model, IndexModel};
use crate::semantic::schema::{schema_of, Schema};
use crate::semantic::verify::{expr_findings, traversal_findings, verify_defs, verify_lets, verify_pass, verify_schema, verify_types, ResolutionContext};
use crate::span::Span;
use crate::interner::Interner;
use crate::semantic::index::SemanticIndex;
use crate::vfs::FileRef;
use crate::symbols::SymbolId;
use vstd::prelude::*;
use vstd::string::StringSliceAdditionalSpecFns;

verus! {

/// Marks the symbols of type names.
#[derive(Debug, Clone, Copy)]
pub struct TypeMarker;

/// Marks the symbols of relation names.
#[derive(Debug, Clone, Copy)]
pub struct RelationMarker;

/// Marks the symbols of permission names.
#[derive(Debug, Clone, Copy)]
pub struct PermissionMarker;

pub type TypeSymbol = SymbolId<TypeMarker>;

pub type RelationSymbol = SymbolId<RelationMarker>;

pub type PermissionSymbol = SymbolId<PermissionMarker>;

pub type TypeInterner<'src> = Interner<'src, TypeMarker>;

pub type RelationInterner<'src> = Interner<'src, RelationMarker>;

pub type PermissionInterner<'src> = Interner<'src, PermissionMarker>;

/// The state of semantic analysis: the file, the index built so far and the reporter.
pub struct Context<'src, R: Reporter> {
    pub(crate) file: FileRef<'src>,
    pub(crate) index: SemanticIndex<'src>,
    pub(crate) reporter: R,
}

impl<'src, R: Reporter> Context<'src, R> {
    /// The bytes of the source.
    pub open(crate) spec fn src(&self) -> Seq<u8> {
        self.file.source_of().spec_bytes()
    }

    /// The index built so far, as plain values.
    pub open(crate) spec fn model(&self) -> IndexModel {
        self.index.model()
    }

    /// The index is well formed.
    pub open(crate) spec fn ready(&self) -> bool {
        self.index.wf()
    }

    pub open(crate) spec fn file_of(&self) -> FileRef<'src> {
        self.file
    }

    pub open(crate) spec fn index_of(&self) -> SemanticIndex<'src> {
        self.index
    }

    /// The diagnostics reported so far.
    pub open(crate) spec fn diags(&self) -> Seq<Diagnostic> {
        self.reporter.reported()
    }

    pub open(crate) spec fn fresh(&self, file: FileRef<'src>, reporter: R) -> bool {
        &&& self.index.wf()
        &&& self.index.model() == crate::semantic::index::empty_model()
        &&& self.file == file
        &&& self.reporter == reporter
    }

    /// The reporter.
    pub fn reporter(&self) -> (r: &R)
        ensures
            *r == self.reporter_of(),
    {
        &self.reporter
    }

    /// The reporter, given back.
    pub fn into_reporter(self) -> (r: R)
        ensures
            r == self.reporter_of(),
    {
        self.reporter
    }

    pub open(crate) spec fn reporter_of(&self) -> R {
        self.reporter
    }

    pub fn new(file: FileRef<'src>, capacity: usize, reporter: R) -> (c: Self)
        ensures
            c.fresh(file, reporter),
    {
        Context { file, index: SemanticIndex::with_capacity(capacity), reporter }
    }

    pub(crate) fn report(&mut self, diagnostic: Diagnostic)
        ensures
            final(self).file == old(self).file,
            final(self).index == old(self).index,
            final(self).reporter.reported() == old(self).reporter.reported().push(diagnostic),
    {
        self.reporter.report(diagnostic);
    }
}

/// Every diagnostic of the sequence is an error.
pub open spec fn all_errors(ds: Seq<DiagnosticView>) -> bool {
    forall|i: int| 0 <= i < ds.len() ==> (#[trigger] ds[i]).severity == Severity::Error
}

proof fn lemma_all_errors_concat(a: Seq<DiagnosticView>, b: Seq<DiagnosticView>)
    requires
        all_errors(a),
        all_errors(b),
    ensures
        all_errors(a + b),
{
    assert forall|i: int| 0 <= i < (a + b).len() implies (#[trigger] (a + b)[i]).severity == Severity::Error by {
        if i < a.len() {
            assert((a + b)[i] == a[i]);
        } else {
            assert((a + b)[i] == b[i - a.len()]);
        }
    }
}

proof fn lemma_declare_lets_errors(lets: Seq<LetMember>, src: Seq<u8>, m: IndexModel, scope: nat, k: int, hi: int)
    ensures
        all_errors(declare_lets(lets, src, m, scope, k, hi).1),
    decreases hi - k,
{
    if !(k >= hi || k < 0 || k >= lets.len()) {
        let (m1, d) = let_step(src, m, scope, lets[k]);
        lemma_declare_lets_errors(lets, src, m1, scope, k + 1, hi);
        assert(all_errors(d));
        lemma_all_errors_concat(d, declare_lets(lets, src, m1, scope, k + 1, hi).1);
    }
}

proof fn lemma_declare_defs_errors(defs: Seq<DefMember>, src: Seq<u8>, m: IndexModel, scope: nat, k: int, hi: int)
    ensures
        all_errors(declare_defs(defs, src, m, scope, k, hi).1),
    decreases hi - k,
{
    if !(k >= hi || k < 0 || k >= defs.len()) {
        let (m1, d) = def_step(src, m, scope, defs[k]);
        lemma_declare_defs_errors(defs, src, m1, scope, k + 1, hi);
        assert(all_errors(d));
        lemma_all_errors_concat(d, declare_defs(defs, src, m1, scope, k + 1, hi).1);
    }
}

proof fn lemma_declare_types_errors(
    types: Seq<TypeDef>,
    lets: Seq<LetMember>,
    defs: Seq<DefMember>,
    src: Seq<u8>,
    m: IndexModel,
    i: int,
)
    ensures
        all_errors(declare_types(types, lets, defs, src, m, i).1),
    decreases types.len() - i,
{
    if !(i < 0 || i >= types.len()) {
        let (m1, d) = declare_type_def(types, lets, defs, src, m, i);
        let t = types[i];
        let name = t.name.text_of(src);
        let (mt, prev) = crate::semantic::index::declare_type_model(m, TypeDefId::of(i as nat), t.name, name);
        if prev is None {
            lemma_declare_lets_errors(lets, src, mt, i as nat, t.lets.lo() as int, t.lets.hi() as int);
            let m2 = declare_lets(lets, src, mt, i as nat, t.lets.lo() as int, t.lets.hi() as int).0;
            lemma_declare_defs_errors(defs, src, m2, i as nat, t.defs.lo() as int, t.defs.hi() as int);
            lemma_all_errors_concat(
                declare_lets(lets, src, mt, i as nat, t.lets.lo() as int, t.lets.hi() as int).1,
                declare_defs(defs, src, m2, i as nat, t.defs.lo() as int, t.defs.hi() as int).1,
            );
        }
        lemma_declare_types_errors(types, lets, defs, src, m1, i + 1);
        lemma_all_errors_concat(d, declare_types(types, lets, defs, src, m1, i + 1).1);
    }
}

proof fn lemma_traversal_errors(tids: Seq<TypeDefId>, m: IndexModel, span: Span, name: Seq<char>)
    ensures
        all_errors(traversal_findings(tids, m, span, name)),
    decreases tids.len(),
{
    if tids.len() > 0 {
        lemma_traversal_errors(tids.drop_first(), m, span, name);
        let here = if crate::semantic::verify::has_member_model(m, tids[0].idx() as int, name) {
            Seq::<DiagnosticView>::empty()
        } else {
            seq![crate::semantic::errors::unknown_permission_on_type_view(span, name, crate::semantic::verify::type_label(m, tids[0]))]
        };
        lemma_all_errors_concat(here, traversal_findings(tids.drop_first(), m, span, name));
    }
}

proof fn lemma_expr_errors(exprs: Seq<Expr>, src: Seq<u8>, m: IndexModel, scope: nat, rc: ResolutionContext, id: int)
    ensures
        all_errors(expr_findings(exprs, src, m, scope, rc, id)),
    decreases id,
{
    if 0 <= id < exprs.len() {
        match exprs[id].term {
            ExprTerm::Paren(p) => {
                if p.inner.idx() < id {
                    lemma_expr_errors(exprs, src, m, scope, rc, p.inner.idx() as int);
                }
            },
            ExprTerm::Binary(b) => {
                if b.lhs.idx() < id && b.rhs.idx() < id {
                    lemma_expr_errors(exprs, src, m, scope, rc, b.lhs.idx() as int);
                    lemma_expr_errors(exprs, src, m, scope, rc, b.rhs.idx() as int);
                    lemma_all_errors_concat(
                        expr_findings(exprs, src, m, scope, rc, b.lhs.idx() as int),
                        expr_findings(exprs, src, m, scope, rc, b.rhs.idx() as int),
                    );
                }
            },
            ExprTerm::Traversal(t) => {
                if rc == ResolutionContext::Permission {
                    match crate::semantic::index::relation_entry(m, scope as int, t.relation.text_of(src)) {
                        Some(entry) => lemma_traversal_errors(
                            crate::semantic::verify::type_refs(exprs, src, m, entry.1.idx() as int),
                            m,
                            t.permission,
                            t.permission.text_of(src),
                        ),
                        None => {},
                    }
                }
            },
            _ => {},
        }
    }
}

proof fn lemma_verify_lets_errors(lets: Seq<LetMember>, exprs: Seq<Expr>, src: Seq<u8>, m: IndexModel, scope: nat, k: int, hi: int)
    ensures
        all_errors(verify_lets(lets, exprs, src, m, scope, k, hi)),
    decreases hi - k,
{
    if !(k >= hi || k < 0 || k >= lets.len()) {
        lemma_expr_errors(exprs, src, m, scope, ResolutionContext::Relation, lets[k].expr.idx() as int);
        lemma_verify_lets_errors(lets, exprs, src, m, scope, k + 1, hi);
        lemma_all_errors_concat(
            expr_findings(exprs, src, m, scope, ResolutionContext::Relation, lets[k].expr.idx() as int),
            verify_lets(lets, exprs, src, m, scope, k + 1, hi),
        );
    }
}

proof fn lemma_verify_defs_errors(defs: Seq<DefMember>, exprs: Seq<Expr>, src: Seq<u8>, m: IndexModel, scope: nat, k: int, hi: int)
    ensures
        all_errors(verify_defs(defs, exprs, src, m, scope, k, hi)),
    decreases hi - k,
{
    if !(k >= hi || k < 0 || k >= defs.len()) {
        lemma_expr_errors(exprs, src, m, scope, ResolutionContext::Permission, defs[k].expr.idx() as int);
        lemma_verify_defs_errors(defs, exprs, src, m, scope, k + 1, hi);
        lemma_all_errors_concat(
            expr_findings(exprs, src, m, scope, ResolutionContext::Permission, defs[k].expr.idx() as int),
            verify_defs(defs, exprs, src, m, scope, k + 1, hi),
        );
    }
}

proof fn lemma_verify_types_errors(
    types: Seq<TypeDef>,
    lets: Seq<LetMember>,
    defs: Seq<DefMember>,
    exprs: Seq<Expr>,
    src: Seq<u8>,
    m: IndexModel,
    i: int,
)
    ensures
        all_errors(verify_types(types, lets, defs, exprs, src, m, i)),
    decreases types.len() - i,
{
    if !(i < 0 || i >= types.len()) {
        let t = types[i];
        lemma_verify_lets_errors(lets, exprs, src, m, i as nat, t.lets.lo() as int, t.lets.hi() as int);
        lemma_verify_defs_errors(defs, exprs, src, m, i as nat, t.defs.lo() as int, t.defs.hi() as int);
        lemma_verify_types_errors(types, lets, defs, exprs, src, m, i + 1);
        let a = verify_lets(lets, exprs, src, m, i as nat, t.lets.lo() as int, t.lets.hi() as int);
        let b = verify_defs(defs, exprs, src, m, i as nat, t.defs.lo() as int, t.defs.hi() as int);
        lemma_all_errors_concat(a, b);
        lemma_all_errors_concat(a + b, verify_types(types, lets, defs, exprs, src, m, i + 1));
    }
}

/// Appending only errors leaves the reporter with an error exactly when it had one
/// before or something was appended.
proof fn lemma_any_error_append(before: Seq<Diagnostic>, after: Seq<Diagnostic>, extra: Seq<DiagnosticView>)
    requires
        views(after) == views(before) + extra,
        all_errors(extra),
    ensures
        any_error(after) <==> (any_error(before) || extra.len() > 0),
{
    assert(after.len() == views(after).len());
    if any_error(before) {
        let i = choose|i: int| 0 <= i < before.len() && (#[trigger] before[i])@.severity == Severity::Error;
        assert(views(after)[i] == views(before)[i]);
        assert(after[i]@.severity == Severity::Error);
    }
    if extra.len() > 0 {
        let i = before.len() as int;
        assert(views(after)[i] == extra[0]);
        assert(after[i]@.severity == Severity::Error);
    }
    if any_error(after) {
        let i = choose|i: int| 0 <= i < after.len() && (#[trigger] after[i])@.severity == Severity::Error;
        if i < before.len() {
            assert(views(after)[i] == views(before)[i]);
            assert(before[i]@.severity == Severity::Error);
        }
    }
}

/// The diagnostics that analysis appends to a reporter that held `before`: those of
/// the declaration pass, then, if the reporter holds no error after it, those of the
/// verification pass.
pub open spec fn analysis_report(ast: Ast, src: Seq<u8>, before: Seq<Diagnostic>) -> Seq<DiagnosticView> {
    let (model, declared) = declare_pass(ast, src);
    if !any_error(before) && declared.len() == 0 {
        declared + verify_pass(ast, src, model)
    } else {
        declared
    }
}

/// Analyzes a parsed schema: the declaration pass, then, if nothing was reported as an
/// error, the verification pass. The schema is returned if neither the reporter held
/// an error before nor either pass reported one.
pub fn analyze<'src, R: Reporter>(file: FileRef<'src>, ast: &Ast, reporter: &mut R) -> (r: Option<Schema<'src>>)
    requires
        ast.wf(),
        ast.ordered(),
        ast.fits(file.source_of().spec_bytes()),
        ast.type_nodes().len() < u32::MAX,
        ast.let_nodes().len() < u32::MAX,
        ast.def_nodes().len() < u32::MAX,
    ensures
        r is Some <==> (!any_error((*old(reporter)).reported()) && declare_pass(*ast, file.source_of().spec_bytes()).1.len() == 0
            && verify_pass(*ast, file.source_of().spec_bytes(), declare_pass(*ast, file.source_of().spec_bytes()).0).len() == 0),
        r matches Some(s) ==> s.wf() && s.model() == schema_of(declare_pass(*ast, file.source_of().spec_bytes()).0),
        views((*final(reporter)).reported()) == views((*old(reporter)).reported())
            + analysis_report(*ast, file.source_of().spec_bytes(), (*old(reporter)).reported()),
{
    let ghost src = file.source_of().spec_bytes();
    let ghost rep0 = reporter.reported();
    let had = reporter.has_errors();
    let capacity = ast.types().len();
    let mut ctx = Context::new(file, capacity, crate::testing::Reporter::new());
    proof {
        assert(ctx.reporter.reported() =~= Seq::<Diagnostic>::empty());
        assert(views(ctx.reporter.reported()) =~= Seq::<DiagnosticView>::empty());
    }
    declare_schema(&mut ctx, ast);
    proof {
        lemma_declare_types_errors(ast.type_nodes(), ast.let_nodes(), ast.def_nodes(), src, empty_model(), 0);
        lemma_any_error_append(Seq::empty(), ctx.reporter.reported(), declare_pass(*ast, src).1);
        assert(views(ctx.reporter.reported()) =~= declare_pass(*ast, src).1);
    }
    let mut ok = !had && !ctx.reporter.has_errors();
    let ghost rep1 = ctx.reporter.reported();
    if ok {
        verify_schema(&mut ctx, ast);
        proof {
            lemma_verify_types_errors(ast.type_nodes(), ast.let_nodes(), ast.def_nodes(), ast.expr_nodes(), src, ctx.index.model(), 0);
            lemma_any_error_append(rep1, ctx.reporter.reported(), verify_pass(*ast, src, ctx.index.model()));
        }
        ok = !ctx.reporter.has_errors();
    }
    proof {
        assert(views(ctx.reporter.reported()) == analysis_report(*ast, src, rep0));
    }
    let Context { file: _, index, reporter: buffer } = ctx;
    crate::diagnostic::forward(buffer.diagnostics, reporter);
    proof {
        assert(views(rep0 + buffer.diagnostics@) =~= views(rep0) + views(buffer.diagnostics@));
    }
    if ok {
        Some(index.into_schema())
    } else {
        None
    }
}

} // verus!
