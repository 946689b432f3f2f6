//! The verification pass: resolves every reference in the member expressions against
//! the declared types and members.
use crate::ast::{
    expr_children_before, operand_of, operand_path, within, Ast, DefMember, DefMemberId, Expr, ExprId, ExprTerm, LetMember,
    LetMemberId, TypeDef, TypeDefId,
};
use crate::diagnostic::{DiagnosticView, Reporter};
use crate::semantic::declare::views;
use crate::semantic::errors::{
    self_ref_in_relation, self_ref_in_relation_view, traversal_on_permission, traversal_on_permission_view,
    type_ref_in_permission, type_ref_in_permission_view, unknown_member, unknown_member_view,
    unknown_permission_on_type, unknown_permission_on_type_view, unknown_relation, unknown_relation_view,
    unknown_type, unknown_type_view, userset_ref_to_permission, userset_ref_to_permission_view,
};
use crate::semantic::index::{permission_entry, relation_entry, type_model, IndexModel};
use crate::semantic::Context;
use crate::span::Span;
use vstd::prelude::*;

verus! {

/// Whether an expression is the body of a `let` (a relation) or of a `def` (a
/// permission).
#[derive(Debug, Clone, Copy, PartialEq, Eq, Structural)]
pub enum ResolutionContext {
    Relation,
    Permission,
}

/// Whether the type in slot `scope` has a relation or a permission `name`.
pub open spec fn has_member_model(m: IndexModel, scope: int, name: Seq<char>) -> bool {
    relation_entry(m, scope, name) is Some || permission_entry(m, scope, name) is Some
}

/// The name of the type in slot `tid`, or `<unknown>`.
pub open spec fn type_label(m: IndexModel, tid: TypeDefId) -> Seq<char> {
    if tid.idx() < m.types.len() {
        m.types[tid.idx() as int]
    } else {
        "<unknown>"@
    }
}

/// The declared types that the type references of expression `id` name, from left
/// to right; unknown names are left out.
pub open spec fn type_refs(exprs: Seq<Expr>, src: Seq<u8>, m: IndexModel, id: int) -> Seq<TypeDefId>
    decreases id,
{
    if id < 0 || id >= exprs.len() {
        Seq::empty()
    } else {
        match exprs[id].term {
            ExprTerm::TypeRef(t) => match type_model(m, t.span.text_of(src)) {
                Some(tid) => seq![tid],
                None => Seq::empty(),
            },
            ExprTerm::UsersetTypeRef(u) => match type_model(m, u.ty.text_of(src)) {
                Some(tid) => seq![tid],
                None => Seq::empty(),
            },
            ExprTerm::Binary(b) => if b.lhs.idx() < id && b.rhs.idx() < id {
                type_refs(exprs, src, m, b.lhs.idx() as int) + type_refs(exprs, src, m, b.rhs.idx() as int)
            } else {
                Seq::empty()
            },
            ExprTerm::Paren(p) => if p.inner.idx() < id {
                type_refs(exprs, src, m, p.inner.idx() as int)
            } else {
                Seq::empty()
            },
            _ => Seq::empty(),
        }
    }
}

/// For a traversal `.relation.permission`: each type `relation` may hold that has no
/// member `permission` is reported.
pub open spec fn traversal_findings(tids: Seq<TypeDefId>, m: IndexModel, span: Span, name: Seq<char>) -> Seq<DiagnosticView>
    decreases tids.len(),
{
    if tids.len() == 0 {
        Seq::empty()
    } else {
        let tid = tids[0];
        let here = if has_member_model(m, tid.idx() as int, name) {
            Seq::empty()
        } else {
            seq![unknown_permission_on_type_view(span, name, type_label(m, tid))]
        };
        here + traversal_findings(tids.drop_first(), m, span, name)
    }
}

/// The diagnostics for expression `id` in a member of the type in slot `scope`, from
/// left to right.
pub open spec fn expr_findings(
    exprs: Seq<Expr>,
    src: Seq<u8>,
    m: IndexModel,
    scope: nat,
    rc: ResolutionContext,
    id: int,
) -> Seq<DiagnosticView>
    decreases id,
{
    if id < 0 || id >= exprs.len() {
        Seq::empty()
    } else {
        match exprs[id].term {
            ExprTerm::Paren(p) => if p.inner.idx() < id {
                expr_findings(exprs, src, m, scope, rc, p.inner.idx() as int)
            } else {
                Seq::empty()
            },
            ExprTerm::Binary(b) => if b.lhs.idx() < id && b.rhs.idx() < id {
                expr_findings(exprs, src, m, scope, rc, b.lhs.idx() as int) + expr_findings(
                    exprs,
                    src,
                    m,
                    scope,
                    rc,
                    b.rhs.idx() as int,
                )
            } else {
                Seq::empty()
            },
            ExprTerm::TypeRef(t) => if rc == ResolutionContext::Permission {
                seq![type_ref_in_permission_view(t.span)]
            } else if type_model(m, t.span.text_of(src)) is None {
                seq![unknown_type_view(t.span)]
            } else {
                Seq::empty()
            },
            ExprTerm::UsersetTypeRef(u) => if rc == ResolutionContext::Permission {
                seq![type_ref_in_permission_view(u.ty)]
            } else {
                let ty = u.ty.text_of(src);
                let member = u.member.text_of(src);
                match type_model(m, ty) {
                    None => seq![unknown_type_view(u.ty)],
                    Some(tid) => if relation_entry(m, tid.idx() as int, member) is Some {
                        Seq::empty()
                    } else if permission_entry(m, tid.idx() as int, member) is Some {
                        seq![userset_ref_to_permission_view(u.member, ty)]
                    } else {
                        seq![unknown_member_view(u.member, ty)]
                    },
                }
            },
            ExprTerm::SelfRef(r) => if rc == ResolutionContext::Relation {
                seq![self_ref_in_relation_view(r.span)]
            } else if !has_member_model(m, scope as int, r.span.text_of(src)) {
                seq![unknown_relation_view(r.span)]
            } else {
                Seq::empty()
            },
            ExprTerm::Traversal(t) => if rc == ResolutionContext::Relation {
                seq![self_ref_in_relation_view(t.relation)]
            } else {
                let relation = t.relation.text_of(src);
                match relation_entry(m, scope as int, relation) {
                    None => if permission_entry(m, scope as int, relation) is Some {
                        seq![traversal_on_permission_view(t.relation)]
                    } else {
                        seq![unknown_relation_view(t.relation)]
                    },
                    Some(entry) => traversal_findings(
                        type_refs(exprs, src, m, entry.1.idx() as int),
                        m,
                        t.permission,
                        t.permission.text_of(src),
                    ),
                }
            },
            ExprTerm::Error => Seq::empty(),
        }
    }
}

/// The diagnostics for the let members `k..hi` of the type in slot `scope`.
pub open spec fn verify_lets(lets: Seq<LetMember>, exprs: Seq<Expr>, src: Seq<u8>, m: IndexModel, scope: nat, k: int, hi: int) -> Seq<DiagnosticView>
    decreases hi - k,
{
    if k >= hi || k < 0 || k >= lets.len() {
        Seq::empty()
    } else {
        expr_findings(exprs, src, m, scope, ResolutionContext::Relation, lets[k].expr.idx() as int)
            + verify_lets(lets, exprs, src, m, scope, k + 1, hi)
    }
}

/// The diagnostics for the def members `k..hi` of the type in slot `scope`.
pub open spec fn verify_defs(defs: Seq<DefMember>, exprs: Seq<Expr>, src: Seq<u8>, m: IndexModel, scope: nat, k: int, hi: int) -> Seq<DiagnosticView>
    decreases hi - k,
{
    if k >= hi || k < 0 || k >= defs.len() {
        Seq::empty()
    } else {
        expr_findings(exprs, src, m, scope, ResolutionContext::Permission, defs[k].expr.idx() as int)
            + verify_defs(defs, exprs, src, m, scope, k + 1, hi)
    }
}

/// The diagnostics for the types `i..`: for each, its lets, then its defs.
pub open spec fn verify_types(
    types: Seq<TypeDef>,
    lets: Seq<LetMember>,
    defs: Seq<DefMember>,
    exprs: Seq<Expr>,
    src: Seq<u8>,
    m: IndexModel,
    i: int,
) -> Seq<DiagnosticView>
    decreases types.len() - i,
{
    if i < 0 || i >= types.len() {
        Seq::empty()
    } else {
        let t = types[i];
        verify_lets(lets, exprs, src, m, i as nat, t.lets.lo() as int, t.lets.hi() as int)
            + verify_defs(defs, exprs, src, m, i as nat, t.defs.lo() as int, t.defs.hi() as int)
            + verify_types(types, lets, defs, exprs, src, m, i + 1)
    }
}

/// The diagnostics of the verification pass over a whole schema, against the index `m`.
pub open spec fn verify_pass(ast: Ast, src: Seq<u8>, m: IndexModel) -> Seq<DiagnosticView> {
    verify_types(ast.type_nodes(), ast.let_nodes(), ast.def_nodes(), ast.expr_nodes(), src, m, 0)
}

/// The declared type that expression `j` names, as `type` or as `type::member`.
pub open spec fn named_type(exprs: Seq<Expr>, src: Seq<u8>, m: IndexModel, j: int) -> Option<TypeDefId> {
    if 0 <= j < exprs.len() {
        match exprs[j].term {
            ExprTerm::TypeRef(t) => type_model(m, t.span.text_of(src)),
            ExprTerm::UsersetTypeRef(u) => type_model(m, u.ty.text_of(src)),
            _ => None,
        }
    } else {
        None
    }
}

/// A type named at the end of a path of operands is collected at the path's start.
proof fn lemma_named_within_is_collected(exprs: Seq<Expr>, src: Seq<u8>, m: IndexModel, path: Seq<int>, tid: TypeDefId)
    requires
        expr_children_before(exprs),
        operand_path(exprs, path),
        named_type(exprs, src, m, path.last()) == Some(tid),
    ensures
        type_refs(exprs, src, m, path[0]).contains(tid),
    decreases path.len(),
{
    let id = path[0];
    if path.len() == 1 {
        assert(type_refs(exprs, src, m, id)[0] == tid);
    } else {
        let rest = path.drop_first();
        assert forall|k: int| 1 <= k < rest.len() implies operand_of(exprs, rest[k - 1], #[trigger] rest[k]) by {
            assert(rest[k - 1] == path[k]);
            assert(rest[k] == path[k + 1]);
            assert(operand_of(exprs, path[(k + 1) - 1], path[k + 1]));
        }
        assert(rest.last() == path.last());
        lemma_named_within_is_collected(exprs, src, m, rest, tid);
        let c = path[1];
        assert(operand_of(exprs, path[1 - 1], path[1]));
        let inner = type_refs(exprs, src, m, c);
        let i = choose|i: int| 0 <= i < inner.len() && inner[i] == tid;
        match exprs[id].term {
            ExprTerm::Binary(b) => {
                assert(b.lhs.idx() < id && b.rhs.idx() < id);
                let l = type_refs(exprs, src, m, b.lhs.idx() as int);
                let r = type_refs(exprs, src, m, b.rhs.idx() as int);
                if c == b.lhs.idx() {
                    assert((l + r)[i] == tid);
                } else {
                    assert((l + r)[l.len() + i] == tid);
                }
            },
            ExprTerm::Paren(p) => {
                assert(p.inner.idx() < id);
                assert(type_refs(exprs, src, m, id)[i] == tid);
            },
            _ => {},
        }
    }
}

/// A type collected at expression `id` is named at the end of a path of operands that
/// starts at `id`.
proof fn lemma_collected_is_named_within(exprs: Seq<Expr>, src: Seq<u8>, m: IndexModel, id: int, tid: TypeDefId) -> (path: Seq<int>)
    requires
        expr_children_before(exprs),
        type_refs(exprs, src, m, id).contains(tid),
    ensures
        operand_path(exprs, path),
        path[0] == id,
        named_type(exprs, src, m, path.last()) == Some(tid),
    decreases id,
{
    let refs = type_refs(exprs, src, m, id);
    let i = choose|i: int| 0 <= i < refs.len() && refs[i] == tid;
    assert(0 <= id < exprs.len());
    let c: int = match exprs[id].term {
        ExprTerm::Binary(b) => {
            assert(b.lhs.idx() < id && b.rhs.idx() < id);
            let l = type_refs(exprs, src, m, b.lhs.idx() as int);
            let r = type_refs(exprs, src, m, b.rhs.idx() as int);
            if i < l.len() {
                assert(l[i] == tid);
                b.lhs.idx() as int
            } else {
                assert(r[i - l.len()] == tid);
                b.rhs.idx() as int
            }
        },
        ExprTerm::Paren(p) => {
            assert(p.inner.idx() < id);
            p.inner.idx() as int
        },
        _ => -1,
    };
    if c < 0 {
        let path = seq![id];
        assert(refs[0] == tid);
        path
    } else {
        assert(operand_of(exprs, id, c));
        let sub = lemma_collected_is_named_within(exprs, src, m, c, tid);
        let path = seq![id] + sub;
        assert forall|k: int| 1 <= k < path.len() implies operand_of(exprs, path[k - 1], #[trigger] path[k]) by {
            if k == 1 {
                assert(path[1] == sub[0]);
            } else {
                assert(path[k] == sub[k - 1]);
                assert(path[k - 1] == sub[(k - 1) - 1]);
            }
        }
        assert(path.last() == sub.last());
        path
    }
}

/// The types that a traversal through a relation declared with expression `id` is
/// checked against are exactly the declared types named anywhere within that
/// expression: on either side of every operator, inside parentheses, as `type` or as
/// `type::member`.
pub proof fn lemma_type_refs_are_types_named_within(exprs: Seq<Expr>, src: Seq<u8>, m: IndexModel, id: int, tid: TypeDefId)
    requires
        expr_children_before(exprs),
    ensures
        type_refs(exprs, src, m, id).contains(tid)
            <==> exists|j: int| #[trigger] within(exprs, id, j) && named_type(exprs, src, m, j) == Some(tid),
{
    if type_refs(exprs, src, m, id).contains(tid) {
        let path = lemma_collected_is_named_within(exprs, src, m, id, tid);
        assert(within(exprs, id, path.last()));
    }
    if exists|j: int| #[trigger] within(exprs, id, j) && named_type(exprs, src, m, j) == Some(tid) {
        let j = choose|j: int| #[trigger] within(exprs, id, j) && named_type(exprs, src, m, j) == Some(tid);
        let path = choose|path: Seq<int>| #[trigger] operand_path(exprs, path) && path[0] == id && path.last() == j;
        lemma_named_within_is_collected(exprs, src, m, path, tid);
    }
}

/// A traversal finding is reported for a checked type exactly when that type has no
/// member of the traversed name, and names that type.
pub proof fn lemma_traversal_findings_lacking(tids: Seq<TypeDefId>, m: IndexModel, span: Span, name: Seq<char>, d: DiagnosticView)
    ensures
        traversal_findings(tids, m, span, name).contains(d) <==> exists|i: int|
            0 <= i < tids.len() && !has_member_model(m, (#[trigger] tids[i]).idx() as int, name)
                && d == unknown_permission_on_type_view(span, name, type_label(m, tids[i])),
    decreases tids.len(),
{
    if tids.len() > 0 {
        let tid = tids[0];
        let rest = tids.drop_first();
        lemma_traversal_findings_lacking(rest, m, span, name, d);
        let here = if has_member_model(m, tid.idx() as int, name) {
            Seq::<DiagnosticView>::empty()
        } else {
            seq![unknown_permission_on_type_view(span, name, type_label(m, tid))]
        };
        let tail = traversal_findings(rest, m, span, name);
        assert(traversal_findings(tids, m, span, name) == here + tail);
        if (here + tail).contains(d) {
            let k = choose|k: int| 0 <= k < (here + tail).len() && (here + tail)[k] == d;
            if k < here.len() {
                assert(tids[0] == tid);
            } else {
                assert(tail[k - here.len()] == d);
                let i = choose|i: int|
                    0 <= i < rest.len() && !has_member_model(m, (#[trigger] rest[i]).idx() as int, name)
                        && d == unknown_permission_on_type_view(span, name, type_label(m, rest[i]));
                assert(tids[i + 1] == rest[i]);
            }
        }
        if exists|i: int|
            0 <= i < tids.len() && !has_member_model(m, (#[trigger] tids[i]).idx() as int, name)
                && d == unknown_permission_on_type_view(span, name, type_label(m, tids[i])) {
            let i = choose|i: int|
                0 <= i < tids.len() && !has_member_model(m, (#[trigger] tids[i]).idx() as int, name)
                    && d == unknown_permission_on_type_view(span, name, type_label(m, tids[i]));
            if i == 0 {
                assert((here + tail)[0] == d);
            } else {
                assert(rest[i - 1] == tids[i]);
                let k = choose|k: int| 0 <= k < tail.len() && tail[k] == d;
                assert((here + tail)[here.len() + k] == d);
            }
        }
    }
}

/// For a traversal `.r.p` in a permission of the type in slot `scope`, where `r` is a
/// relation of that type declared with expression `e`: the pass reports
/// `unknown_permission_on_type` for each declared type named anywhere within `e`
/// (either side of any operator, inside parentheses, as `type` or `type::member`)
/// that has no member `p`, and reports nothing else for the traversal.
pub proof fn lemma_traversal_checks_every_named_type(
    exprs: Seq<Expr>,
    src: Seq<u8>,
    m: IndexModel,
    scope: nat,
    id: int,
    t: crate::ast::ExprTermTraversal,
    entry: (Span, ExprId),
    d: DiagnosticView,
)
    requires
        expr_children_before(exprs),
        0 <= id < exprs.len(),
        exprs[id].term == ExprTerm::Traversal(t),
        relation_entry(m, scope as int, t.relation.text_of(src)) == Some(entry),
    ensures
        expr_findings(exprs, src, m, scope, ResolutionContext::Permission, id).contains(d) <==> exists|j: int, tid: TypeDefId|
            #![trigger within(exprs, entry.1.idx() as int, j), type_label(m, tid)]
            within(exprs, entry.1.idx() as int, j) && named_type(exprs, src, m, j) == Some(tid)
                && !has_member_model(m, tid.idx() as int, t.permission.text_of(src))
                && d == unknown_permission_on_type_view(t.permission, t.permission.text_of(src), type_label(m, tid)),
{
    let e = entry.1.idx() as int;
    let p = t.permission.text_of(src);
    let tids = type_refs(exprs, src, m, e);
    assert(expr_findings(exprs, src, m, scope, ResolutionContext::Permission, id) == traversal_findings(tids, m, t.permission, p));
    lemma_traversal_findings_lacking(tids, m, t.permission, p, d);
    if traversal_findings(tids, m, t.permission, p).contains(d) {
        let i = choose|i: int|
            0 <= i < tids.len() && !has_member_model(m, (#[trigger] tids[i]).idx() as int, p)
                && d == unknown_permission_on_type_view(t.permission, p, type_label(m, tids[i]));
        let tid = tids[i];
        assert(tids.contains(tid));
        lemma_type_refs_are_types_named_within(exprs, src, m, e, tid);
        let j = choose|j: int| #[trigger] within(exprs, e, j) && named_type(exprs, src, m, j) == Some(tid);
        assert(within(exprs, e, j) && named_type(exprs, src, m, j) == Some(tid));
    }
    if exists|j: int, tid: TypeDefId|
        #![trigger within(exprs, e, j), type_label(m, tid)]
        within(exprs, e, j) && named_type(exprs, src, m, j) == Some(tid) && !has_member_model(m, tid.idx() as int, p)
            && d == unknown_permission_on_type_view(t.permission, p, type_label(m, tid)) {
        let (j, tid) = choose|j: int, tid: TypeDefId|
            #![trigger within(exprs, e, j), type_label(m, tid)]
            within(exprs, e, j) && named_type(exprs, src, m, j) == Some(tid) && !has_member_model(m, tid.idx() as int, p)
                && d == unknown_permission_on_type_view(t.permission, p, type_label(m, tid));
        lemma_type_refs_are_types_named_within(exprs, src, m, e, tid);
        let i = choose|i: int| 0 <= i < tids.len() && tids[i] == tid;
        assert(!has_member_model(m, tids[i].idx() as int, p));
    }
}

/// Appends the types named by the type references of expression `id`.
fn collect_type_refs<'src, R: Reporter>(ctx: &Context<'src, R>, ast: &Ast, id: ExprId, out: &mut Vec<TypeDefId>)
    requires
        ctx.index.wf(),
        ast.wf(),
        ast.fits(ctx.src()),
        id.idx() < ast.expr_nodes().len(),
    ensures
        final(out)@ == old(out)@ + type_refs(ast.expr_nodes(), ctx.src(), ctx.index.model(), id.idx() as int),
        forall|tid: TypeDefId|
            #[trigger] final(out)@.contains(tid) <==> old(out)@.contains(tid) || exists|j: int|
                #[trigger] within(ast.expr_nodes(), id.idx() as int, j)
                    && named_type(ast.expr_nodes(), ctx.src(), ctx.index.model(), j) == Some(tid),
    decreases id.idx(),
{
    let e = *ast.exprs().at(id);
    match e.term {
        ExprTerm::TypeRef(t) => {
            let name = t.span.text(ctx.file.source());
            if let Some(tid) = ctx.index.type_(name) {
                out.push(tid);
            }
        },
        ExprTerm::UsersetTypeRef(u) => {
            let name = u.ty.text(ctx.file.source());
            if let Some(tid) = ctx.index.type_(name) {
                out.push(tid);
            }
        },
        ExprTerm::Binary(b) => {
            let ghost before = out@;
            collect_type_refs(ctx, ast, b.lhs, out);
            let ghost mid = out@;
            collect_type_refs(ctx, ast, b.rhs, out);
            proof {
                let l = type_refs(ast.expr_nodes(), ctx.src(), ctx.index.model(), b.lhs.idx() as int);
                let r = type_refs(ast.expr_nodes(), ctx.src(), ctx.index.model(), b.rhs.idx() as int);
                assert(out@ =~= before + (l + r));
            }
        },
        ExprTerm::Paren(p) => collect_type_refs(ctx, ast, p.inner, out),
        _ => {},
    }
    proof {
        let refs = type_refs(ast.expr_nodes(), ctx.src(), ctx.index.model(), id.idx() as int);
        assert(out@ =~= old(out)@ + refs);
        assert forall|tid: TypeDefId|
            #[trigger] out@.contains(tid) <==> old(out)@.contains(tid) || exists|j: int|
                #[trigger] within(ast.expr_nodes(), id.idx() as int, j)
                    && named_type(ast.expr_nodes(), ctx.src(), ctx.index.model(), j) == Some(tid) by {
            lemma_type_refs_are_types_named_within(ast.expr_nodes(), ctx.src(), ctx.index.model(), id.idx() as int, tid);
            let a = old(out)@;
            if out@.contains(tid) {
                let k = choose|k: int| 0 <= k < out@.len() && out@[k] == tid;
                if k < a.len() {
                    assert(a[k] == tid);
                } else {
                    assert(refs[k - a.len()] == tid);
                }
            }
            if a.contains(tid) {
                let k = choose|k: int| 0 <= k < a.len() && a[k] == tid;
                assert(out@[k] == tid);
            }
            if refs.contains(tid) {
                let k = choose|k: int| 0 <= k < refs.len() && refs[k] == tid;
                assert(out@[a.len() + k] == tid);
            }
        }
    }
}

/// Reports each type of `tids` that has no member `name`.
fn check_traversal_targets<'src, R: Reporter>(ctx: &mut Context<'src, R>, tids: &Vec<TypeDefId>, span: Span, name: &str)
    requires
        old(ctx).index.wf(),
    ensures
        final(ctx).index == old(ctx).index,
        final(ctx).file == old(ctx).file,
        views(final(ctx).reporter.reported()) == views(old(ctx).reporter.reported())
            + traversal_findings(tids@, old(ctx).index.model(), span, name@),
{
    let ghost m = ctx.index.model();
    let ghost rep0 = ctx.reporter.reported();
    let mut j: usize = 0;
    assert(tids@.skip(0) =~= tids@);
    while j < tids.len()
        invariant
            j <= tids@.len(),
            ctx.index == old(ctx).index,
            ctx.index.wf(),
            ctx.file == old(ctx).file,
            m == ctx.index.model(),
            views(ctx.reporter.reported()) + traversal_findings(tids@.skip(j as int), m, span, name@)
                == views(rep0) + traversal_findings(tids@, m, span, name@),
        decreases tids@.len() - j,
    {
        let ghost repj = ctx.reporter.reported();
        let tid = tids[j];
        if !ctx.index.has_member(tid, name) {
            let label = match ctx.index.name_of_type(tid) {
                Some(n) => n,
                None => "<unknown>",
            };
            let d = unknown_permission_on_type(span, name, label);
            ctx.report(d);
        }
        proof {
            let rest = tids@.skip(j as int);
            assert(rest[0] == tid);
            assert(rest.drop_first() =~= tids@.skip(j + 1));
            reveal_strlit("<unknown>");
            let here = if has_member_model(m, tid.idx() as int, name@) {
                Seq::<DiagnosticView>::empty()
            } else {
                seq![unknown_permission_on_type_view(span, name@, type_label(m, tid))]
            };
            assert(views(ctx.reporter.reported()) =~= views(repj) + here);
            assert(views(repj) + here + traversal_findings(tids@.skip(j + 1), m, span, name@)
                =~= views(repj) + (here + traversal_findings(tids@.skip(j + 1), m, span, name@)));
        }
        j = j + 1;
    }
    proof {
        assert(tids@.skip(tids@.len() as int) =~= Seq::<TypeDefId>::empty());
        assert(views(ctx.reporter.reported()) + Seq::<DiagnosticView>::empty() =~= views(ctx.reporter.reported()));
    }
}

/// Checks expression `id` of a member of the type in slot `scope`, reporting every
/// reference that does not resolve or is not allowed in `rc`.
fn verify_expr<'src, R: Reporter>(ctx: &mut Context<'src, R>, ast: &Ast, scope: TypeDefId, rc: ResolutionContext, id: ExprId)
    requires
        old(ctx).index.wf(),
        ast.wf(),
        ast.fits(old(ctx).src()),
        id.idx() < ast.expr_nodes().len(),
    ensures
        final(ctx).index == old(ctx).index,
        final(ctx).file == old(ctx).file,
        views(final(ctx).reporter.reported()) == views(old(ctx).reporter.reported()) + expr_findings(
            ast.expr_nodes(),
            old(ctx).src(),
            old(ctx).index.model(),
            scope.idx(),
            rc,
            id.idx() as int,
        ),
    decreases id.idx(),
{
    let ghost rep0 = ctx.reporter.reported();
    let ghost exprs = ast.expr_nodes();
    let ghost src = ctx.src();
    let ghost m = ctx.index.model();
    let e = *ast.exprs().at(id);
    match e.term {
        ExprTerm::Paren(p) => verify_expr(ctx, ast, scope, rc, p.inner),
        ExprTerm::Binary(b) => {
            verify_expr(ctx, ast, scope, rc, b.lhs);
            let ghost mid = ctx.reporter.reported();
            verify_expr(ctx, ast, scope, rc, b.rhs);
            proof {
                let l = expr_findings(exprs, src, m, scope.idx(), rc, b.lhs.idx() as int);
                let r = expr_findings(exprs, src, m, scope.idx(), rc, b.rhs.idx() as int);
                assert(views(ctx.reporter.reported()) =~= views(rep0) + (l + r));
            }
        },
        ExprTerm::TypeRef(t) => {
            match rc {
                ResolutionContext::Permission => {
                    let d = type_ref_in_permission(t.span);
                    ctx.report(d);
                },
                ResolutionContext::Relation => {
                    let name = t.span.text(ctx.file.source());
                    if ctx.index.type_(name).is_none() {
                        let d = unknown_type(t.span);
                        ctx.report(d);
                    }
                },
            }
        },
        ExprTerm::UsersetTypeRef(u) => {
            match rc {
                ResolutionContext::Permission => {
                    let d = type_ref_in_permission(u.ty);
                    ctx.report(d);
                },
                ResolutionContext::Relation => {
                    let ty_name = u.ty.text(ctx.file.source());
                    match ctx.index.type_(ty_name) {
                        None => {
                            let d = unknown_type(u.ty);
                            ctx.report(d);
                        },
                        Some(tid) => {
                            let member_name = u.member.text(ctx.file.source());
                            if !ctx.index.has_relation(tid, member_name) {
                                if ctx.index.has_permission(tid, member_name) {
                                    let d = userset_ref_to_permission(u.member, ty_name);
                                    ctx.report(d);
                                } else {
                                    let d = unknown_member(u.member, ty_name);
                                    ctx.report(d);
                                }
                            }
                        },
                    }
                },
            }
        },
        ExprTerm::SelfRef(r) => {
            match rc {
                ResolutionContext::Relation => {
                    let d = self_ref_in_relation(r.span);
                    ctx.report(d);
                },
                ResolutionContext::Permission => {
                    let name = r.span.text(ctx.file.source());
                    if !ctx.index.has_member(scope, name) {
                        let d = unknown_relation(r.span);
                        ctx.report(d);
                    }
                },
            }
        },
        ExprTerm::Traversal(t) => {
            match rc {
                ResolutionContext::Relation => {
                    let d = self_ref_in_relation(t.relation);
                    ctx.report(d);
                },
                ResolutionContext::Permission => {
                    let relation_name = t.relation.text(ctx.file.source());
                    match ctx.index.relation(scope, relation_name) {
                        None => {
                            let d = if ctx.index.has_permission(scope, relation_name) {
                                traversal_on_permission(t.relation)
                            } else {
                                unknown_relation(t.relation)
                            };
                            ctx.report(d);
                        },
                        Some(entry) => {
                            let permission_name = t.permission.text(ctx.file.source());
                            let mut tids: Vec<TypeDefId> = Vec::new();
                            if entry.1.as_index() < ast.exprs().len() {
                                collect_type_refs(ctx, ast, entry.1, &mut tids);
                            }
                            proof {
                                assert(tids@ =~= type_refs(exprs, src, m, entry.1.idx() as int));
                            }
                            check_traversal_targets(ctx, &tids, t.permission, permission_name);
                        },
                    }
                },
            }
        },
        ExprTerm::Error => {},
    }
    proof {
        assert(views(ctx.reporter.reported()) =~= views(rep0) + expr_findings(exprs, src, m, scope.idx(), rc, id.idx() as int));
    }
}

/// Checks the members of type `i`: its lets as relations, then its defs as
/// permissions.
fn verify_type_def<'src, R: Reporter>(ctx: &mut Context<'src, R>, ast: &Ast, i: usize)
    requires
        old(ctx).index.wf(),
        ast.wf(),
        ast.fits(old(ctx).src()),
        i < ast.type_nodes().len() < u32::MAX,
        ast.let_nodes().len() < u32::MAX,
        ast.def_nodes().len() < u32::MAX,
    ensures
        final(ctx).index == old(ctx).index,
        final(ctx).file == old(ctx).file,
        views(final(ctx).reporter.reported()) == views(old(ctx).reporter.reported()) + verify_lets(
            ast.let_nodes(),
            ast.expr_nodes(),
            old(ctx).src(),
            old(ctx).index.model(),
            i as nat,
            ast.type_nodes()[i as int].lets.lo() as int,
            ast.type_nodes()[i as int].lets.hi() as int,
        ) + verify_defs(
            ast.def_nodes(),
            ast.expr_nodes(),
            old(ctx).src(),
            old(ctx).index.model(),
            i as nat,
            ast.type_nodes()[i as int].defs.lo() as int,
            ast.type_nodes()[i as int].defs.hi() as int,
        ),
{
    let ghost src = ctx.src();
    let ghost m = ctx.index.model();
    let ghost rep0 = ctx.reporter.reported();
    let ghost lets = ast.let_nodes();
    let ghost defs = ast.def_nodes();
    let ghost exprs = ast.expr_nodes();
    let id = TypeDefId::new(i as u32);
    let t = *ast.types().at(id);
    let lo = t.lets.start().as_index();
    let hi = t.lets.end().as_index();
    let ghost total_lets = verify_lets(lets, exprs, src, m, i as nat, lo as int, hi as int);
    let mut k = lo;
    while k < hi
        invariant
            lo <= k <= hi <= lets.len() < u32::MAX,
            id.idx() == i as nat,
            lets == ast.let_nodes(),
            exprs == ast.expr_nodes(),
            ast.wf(),
            ast.fits(src),
            src == ctx.src(),
            ctx.index == old(ctx).index,
            ctx.index.wf(),
            m == ctx.index.model(),
            ctx.file == old(ctx).file,
            views(ctx.reporter.reported()) + verify_lets(lets, exprs, src, m, i as nat, k as int, hi as int)
                == views(rep0) + total_lets,
        decreases hi - k,
    {
        let ghost repk = ctx.reporter.reported();
        let l = *ast.lets().at(LetMemberId::new(k as u32));
        verify_expr(ctx, ast, id, ResolutionContext::Relation, l.expr);
        proof {
            let here = expr_findings(exprs, src, m, i as nat, ResolutionContext::Relation, l.expr.idx() as int);
            let rest = verify_lets(lets, exprs, src, m, i as nat, k + 1, hi as int);
            assert(verify_lets(lets, exprs, src, m, i as nat, k as int, hi as int) == here + rest);
            assert(views(repk) + here + rest =~= views(repk) + (here + rest));
        }
        k = k + 1;
    }
    let ghost rep1 = ctx.reporter.reported();
    let dlo = t.defs.start().as_index();
    let dhi = t.defs.end().as_index();
    let ghost total_defs = verify_defs(defs, exprs, src, m, i as nat, dlo as int, dhi as int);
    let mut k = dlo;
    while k < dhi
        invariant
            dlo <= k <= dhi <= defs.len() < u32::MAX,
            id.idx() == i as nat,
            defs == ast.def_nodes(),
            exprs == ast.expr_nodes(),
            ast.wf(),
            ast.fits(src),
            src == ctx.src(),
            ctx.index == old(ctx).index,
            ctx.index.wf(),
            m == ctx.index.model(),
            ctx.file == old(ctx).file,
            views(ctx.reporter.reported()) + verify_defs(defs, exprs, src, m, i as nat, k as int, dhi as int)
                == views(rep1) + total_defs,
        decreases dhi - k,
    {
        let ghost repk = ctx.reporter.reported();
        let d = *ast.defs().at(DefMemberId::new(k as u32));
        verify_expr(ctx, ast, id, ResolutionContext::Permission, d.expr);
        proof {
            let here = expr_findings(exprs, src, m, i as nat, ResolutionContext::Permission, d.expr.idx() as int);
            let rest = verify_defs(defs, exprs, src, m, i as nat, k + 1, dhi as int);
            assert(verify_defs(defs, exprs, src, m, i as nat, k as int, dhi as int) == here + rest);
            assert(views(repk) + here + rest =~= views(repk) + (here + rest));
        }
        k = k + 1;
    }
    proof {
        assert(views(ctx.reporter.reported()) =~= views(rep0) + total_lets + total_defs);
    }
}

/// The verification pass: checks the member expressions of every type, in source
/// order, against the index of the declaration pass.
pub fn verify_schema<'src, R: Reporter>(ctx: &mut Context<'src, R>, ast: &Ast)
    requires
        old(ctx).ready(),
        ast.wf(),
        ast.fits(old(ctx).src()),
        ast.type_nodes().len() < u32::MAX,
        ast.let_nodes().len() < u32::MAX,
        ast.def_nodes().len() < u32::MAX,
    ensures
        final(ctx).index_of() == old(ctx).index_of(),
        final(ctx).file_of() == old(ctx).file_of(),
        views(final(ctx).diags()) == views(old(ctx).diags())
            + verify_pass(*ast, old(ctx).src(), old(ctx).model()),
{
    let ghost src = ctx.src();
    let ghost m = ctx.index.model();
    let ghost rep0 = ctx.reporter.reported();
    let ghost types = ast.type_nodes();
    let ghost lets = ast.let_nodes();
    let ghost defs = ast.def_nodes();
    let ghost exprs = ast.expr_nodes();
    let n = ast.types().len();
    let mut i: usize = 0;
    while i < n
        invariant
            i <= n == types.len() < u32::MAX,
            types == ast.type_nodes(),
            lets == ast.let_nodes(),
            defs == ast.def_nodes(),
            exprs == ast.expr_nodes(),
            lets.len() < u32::MAX,
            defs.len() < u32::MAX,
            ast.wf(),
            ast.fits(src),
            src == ctx.src(),
            ctx.index == old(ctx).index,
            ctx.index.wf(),
            m == ctx.index.model(),
            ctx.file == old(ctx).file,
            views(ctx.reporter.reported()) + verify_types(types, lets, defs, exprs, src, m, i as int)
                == views(rep0) + verify_pass(*ast, src, m),
        decreases n - i,
    {
        let ghost repi = ctx.reporter.reported();
        verify_type_def(ctx, ast, i);
        proof {
            let t = types[i as int];
            let here = verify_lets(lets, exprs, src, m, i as nat, t.lets.lo() as int, t.lets.hi() as int)
                + verify_defs(defs, exprs, src, m, i as nat, t.defs.lo() as int, t.defs.hi() as int);
            let rest = verify_types(types, lets, defs, exprs, src, m, i + 1);
            assert(verify_types(types, lets, defs, exprs, src, m, i as int) == here + rest);
            assert(views(repi) + here + rest =~= views(repi) + (here + rest));
        }
        i = i + 1;
    }
    proof {
        assert(views(ctx.reporter.reported()) + Seq::<DiagnosticView>::empty() =~= views(ctx.reporter.reported()));
    }
}

} // verus!
