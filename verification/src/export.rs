//! Exporting a checked schema to the intermediate representation.
use crate::ast::{Ast, BinaryOp, DefMemberId, Expr, ExprId, ExprTerm, LetMemberId, TypeDefId};
use crate::ir::{
    deep_terms, denote, denote_any, denote_every, lemma_deep_terms, lemma_deep_terms_concat, lemma_denote_any_concat,
    lemma_denote_every_concat, ActorType, ActorView, ExprView, Expression, Kind,
    Permission, PermissionView, Relation, RelationView, Schema, TypeDefinition, TypeView,
};
use crate::vfs::FileRef;
use vstd::prelude::*;
use vstd::string::StringSliceAdditionalSpecFns;

verus! {

/// The actor types of a `let` expression, from left to right: each `type` and
/// `type::member` reference.
pub open spec fn actors_of(exprs: Seq<Expr>, src: Seq<u8>, id: int) -> Seq<ActorView>
    decreases id,
{
    if id < 0 || id >= exprs.len() {
        Seq::empty()
    } else {
        match exprs[id].term {
            ExprTerm::TypeRef(t) => seq![ActorView::Direct(t.span.text_of(src))],
            ExprTerm::UsersetTypeRef(u) => seq![ActorView::Userset(u.ty.text_of(src), u.member.text_of(src))],
            ExprTerm::Binary(b) => if b.lhs.idx() < id && b.rhs.idx() < id {
                actors_of(exprs, src, b.lhs.idx() as int) + actors_of(exprs, src, b.rhs.idx() as int)
            } else {
                Seq::empty()
            },
            ExprTerm::Paren(p) => if p.inner.idx() < id {
                actors_of(exprs, src, p.inner.idx() as int)
            } else {
                Seq::empty()
            },
            _ => Seq::empty(),
        }
    }
}

/// The operands that an expression contributes to an `op` expression that contains
/// it: the terms of an expression of the same operator (union or intersection), else
/// the expression itself.
pub open spec fn flat(op: BinaryOp, v: ExprView) -> Seq<ExprView> {
    match (op, v) {
        (BinaryOp::Union, ExprView::Union(ts)) => ts,
        (BinaryOp::Intersection, ExprView::Intersection(ts)) => ts,
        _ => seq![v],
    }
}

/// `l op r`: a union or an intersection of the operands of both sides, so that
/// chains of one operator become one n-ary node; a difference for `-`.
pub open spec fn combine(op: BinaryOp, l: ExprView, r: ExprView) -> ExprView {
    match op {
        BinaryOp::Union => ExprView::Union(flat(op, l) + flat(op, r)),
        BinaryOp::Intersection => ExprView::Intersection(flat(op, l) + flat(op, r)),
        BinaryOp::Exclusion => ExprView::Difference(Some(Box::new(l)), Some(Box::new(r))),
    }
}

/// The top of a stack, or nothing if it is empty.
pub open spec fn top(s: Seq<Option<ExprView>>) -> Option<ExprView> {
    if s.len() == 0 {
        None
    } else {
        s.last()
    }
}

/// The stack without its top.
pub open spec fn below_top(s: Seq<Option<ExprView>>) -> Seq<Option<ExprView>> {
    if s.len() == 0 {
        s
    } else {
        s.drop_last()
    }
}

/// A binary operator on the value stack: the two top values are replaced by their
/// combination, or by a missing value if either is missing.
pub open spec fn binary_step(op: BinaryOp, s: Seq<Option<ExprView>>) -> Seq<Option<ExprView>> {
    let rhs = top(s);
    let s1 = below_top(s);
    let lhs = top(s1);
    let s2 = below_top(s1);
    match (lhs, rhs) {
        (Some(l), Some(r)) => s2.push(Some(combine(op, l, r))),
        _ => s2.push(None),
    }
}

/// Lowers expression `id` in postorder on a stack of values: a term pushes its value,
/// a type reference (not valid in a permission) a missing value, an operator
/// combines the two values below it; parentheses are transparent.
pub open spec fn lower(exprs: Seq<Expr>, src: Seq<u8>, id: int, stack: Seq<Option<ExprView>>) -> Seq<Option<ExprView>>
    decreases id,
{
    if id < 0 || id >= exprs.len() {
        stack
    } else {
        match exprs[id].term {
            ExprTerm::Paren(p) => if p.inner.idx() < id {
                lower(exprs, src, p.inner.idx() as int, stack)
            } else {
                stack
            },
            ExprTerm::SelfRef(r) => stack.push(Some(ExprView::SelfRef(r.span.text_of(src)))),
            ExprTerm::Traversal(t) => stack.push(Some(ExprView::Traversal(t.relation.text_of(src), t.permission.text_of(src)))),
            ExprTerm::TypeRef(_) => stack.push(None),
            ExprTerm::UsersetTypeRef(_) => stack.push(None),
            ExprTerm::Binary(b) => if b.lhs.idx() < id && b.rhs.idx() < id {
                binary_step(
                    b.op,
                    lower(exprs, src, b.rhs.idx() as int, lower(exprs, src, b.lhs.idx() as int, stack)),
                )
            } else {
                stack
            },
            ExprTerm::Error => stack,
        }
    }
}

/// The exported expression of a `def` body.
pub open spec fn exported_expr(exprs: Seq<Expr>, src: Seq<u8>, id: int) -> Option<ExprView> {
    top(lower(exprs, src, id, Seq::empty()))
}

/// The exported type `i` of the schema: its name, a relation per `let` with its actor
/// types, a permission per `def` with its expression.
pub open spec fn exported_type(ast: Ast, src: Seq<u8>, i: int) -> TypeView {
    let t = ast.type_nodes()[i];
    let lets = ast.let_nodes();
    let defs = ast.def_nodes();
    let exprs = ast.expr_nodes();
    TypeView {
        name: t.name.text_of(src),
        relations: Seq::new(
            (t.lets.hi() - t.lets.lo()) as nat,
            |k: int|
                RelationView {
                    name: lets[t.lets.lo() + k].name.text_of(src),
                    actors: actors_of(exprs, src, lets[t.lets.lo() + k].expr.idx() as int),
                },
        ),
        permissions: Seq::new(
            (t.defs.hi() - t.defs.lo()) as nat,
            |k: int|
                PermissionView {
                    name: defs[t.defs.lo() + k].name.text_of(src),
                    expr: exported_expr(exprs, src, defs[t.defs.lo() + k].expr.idx() as int),
                },
        ),
    }
}

/// The exported schema: one type definition per type, in source order.
pub open spec fn exported_schema(ast: Ast, src: Seq<u8>) -> Seq<TypeView> {
    Seq::new(ast.type_nodes().len(), |i: int| exported_type(ast, src, i))
}

/// A `def` body as plain values, from its tree: parentheses dropped and chains of
/// one operator flattened.
pub open spec fn tree_view(exprs: Seq<Expr>, src: Seq<u8>, id: int) -> ExprView
    decreases id,
{
    if id < 0 || id >= exprs.len() {
        ExprView::Missing
    } else {
        match exprs[id].term {
            ExprTerm::Paren(p) => if 0 <= p.inner.idx() < id {
                tree_view(exprs, src, p.inner.idx() as int)
            } else {
                ExprView::Missing
            },
            ExprTerm::SelfRef(r) => ExprView::SelfRef(r.span.text_of(src)),
            ExprTerm::Traversal(t) => ExprView::Traversal(t.relation.text_of(src), t.permission.text_of(src)),
            ExprTerm::Binary(b) => if b.lhs.idx() < id && b.rhs.idx() < id {
                combine(b.op, tree_view(exprs, src, b.lhs.idx() as int), tree_view(exprs, src, b.rhs.idx() as int))
            } else {
                ExprView::Missing
            },
            _ => ExprView::Missing,
        }
    }
}

/// The tree of expression `id` holds only `.relation` and `.relation.permission`
/// terms, operators and parentheses, each child before its parent.
pub open spec fn permission_tree(exprs: Seq<Expr>, id: int) -> bool
    decreases id,
{
    if id < 0 || id >= exprs.len() {
        false
    } else {
        match exprs[id].term {
            ExprTerm::Paren(p) => p.inner.idx() < id && permission_tree(exprs, p.inner.idx() as int),
            ExprTerm::Binary(b) => b.lhs.idx() < id && b.rhs.idx() < id && permission_tree(exprs, b.lhs.idx() as int)
                && permission_tree(exprs, b.rhs.idx() as int),
            ExprTerm::SelfRef(_) => true,
            ExprTerm::Traversal(_) => true,
            _ => false,
        }
    }
}

/// The tree of expression `id` holds no placeholder for a missing term.
pub open spec fn no_error_terms(exprs: Seq<Expr>, id: int) -> bool
    decreases id,
{
    if id < 0 || id >= exprs.len() {
        true
    } else {
        match exprs[id].term {
            ExprTerm::Paren(p) => p.inner.idx() >= id || no_error_terms(exprs, p.inner.idx() as int),
            ExprTerm::Binary(b) => !(b.lhs.idx() < id && b.rhs.idx() < id) || (no_error_terms(exprs, b.lhs.idx() as int)
                && no_error_terms(exprs, b.rhs.idx() as int)),
            ExprTerm::Error => false,
            _ => true,
        }
    }
}

/// Lowering a permission tree pushes exactly its tree view.
pub proof fn lemma_lower_permission_tree(exprs: Seq<Expr>, src: Seq<u8>, id: int, stack: Seq<Option<ExprView>>)
    requires
        permission_tree(exprs, id),
    ensures
        lower(exprs, src, id, stack) == stack.push(Some(tree_view(exprs, src, id))),
    decreases id,
{
    match exprs[id].term {
        ExprTerm::Paren(p) => {
            lemma_lower_permission_tree(exprs, src, p.inner.idx() as int, stack);
        },
        ExprTerm::Binary(b) => {
            let l = tree_view(exprs, src, b.lhs.idx() as int);
            let r = tree_view(exprs, src, b.rhs.idx() as int);
            lemma_lower_permission_tree(exprs, src, b.lhs.idx() as int, stack);
            lemma_lower_permission_tree(exprs, src, b.rhs.idx() as int, stack.push(Some(l)));
            let s2 = stack.push(Some(l)).push(Some(r));
            assert(below_top(s2) =~= stack.push(Some(l)));
            assert(below_top(below_top(s2)) =~= stack);
        },
        _ => {},
    }
}

/// A valid `def` body exports to its tree view: when the verification pass reports
/// nothing for a permission expression without placeholders, the exported expression
/// is present and equals the tree with chains of one operator flattened.
pub proof fn lemma_valid_permission_exports(
    exprs: Seq<Expr>,
    src: Seq<u8>,
    m: crate::semantic::index::IndexModel,
    scope: nat,
    id: int,
)
    requires
        0 <= id < exprs.len(),
        crate::ast::expr_children_before(exprs),
        no_error_terms(exprs, id),
        crate::semantic::verify::expr_findings(exprs, src, m, scope, crate::semantic::verify::ResolutionContext::Permission, id).len() == 0,
    ensures
        permission_tree(exprs, id),
        exported_expr(exprs, src, id) == Some(tree_view(exprs, src, id)),
{
    lemma_valid_permission_is_tree(exprs, src, m, scope, id);
    lemma_lower_permission_tree(exprs, src, id, Seq::empty());
}

proof fn lemma_valid_permission_is_tree(
    exprs: Seq<Expr>,
    src: Seq<u8>,
    m: crate::semantic::index::IndexModel,
    scope: nat,
    id: int,
)
    requires
        0 <= id < exprs.len(),
        crate::ast::expr_children_before(exprs),
        no_error_terms(exprs, id),
        crate::semantic::verify::expr_findings(exprs, src, m, scope, crate::semantic::verify::ResolutionContext::Permission, id).len() == 0,
    ensures
        permission_tree(exprs, id),
    decreases id,
{
    let rc = crate::semantic::verify::ResolutionContext::Permission;
    match exprs[id].term {
        ExprTerm::Paren(p) => {
            lemma_valid_permission_is_tree(exprs, src, m, scope, p.inner.idx() as int);
        },
        ExprTerm::Binary(b) => {
            let l = crate::semantic::verify::expr_findings(exprs, src, m, scope, rc, b.lhs.idx() as int);
            let r = crate::semantic::verify::expr_findings(exprs, src, m, scope, rc, b.rhs.idx() as int);
            assert((l + r).len() == l.len() + r.len());
            lemma_valid_permission_is_tree(exprs, src, m, scope, b.lhs.idx() as int);
            lemma_valid_permission_is_tree(exprs, src, m, scope, b.rhs.idx() as int);
        },
        _ => {},
    }
}

/// The set operation that a binary operator stands for: `|` union, `&`
/// intersection, `-` difference.
pub open spec fn apply_op(op: BinaryOp, l: Set<int>, r: Set<int>) -> Set<int> {
    match op {
        BinaryOp::Union => l.union(r),
        BinaryOp::Intersection => l.intersect(r),
        BinaryOp::Exclusion => l.difference(r),
    }
}

/// What the `def` body rooted at expression `id` grants, read off its syntax tree,
/// given the set that each `.relation` term (`rel`) and each `.relation.permission`
/// term (`trav`) grants: each operator applies its set operation to what its two
/// sides grant; parentheses group.
pub open spec fn denote_source(
    exprs: Seq<Expr>,
    src: Seq<u8>,
    id: int,
    rel: spec_fn(Seq<char>) -> Set<int>,
    trav: spec_fn(Seq<char>, Seq<char>) -> Set<int>,
) -> Set<int>
    decreases id,
{
    if id < 0 || id >= exprs.len() {
        Set::empty()
    } else {
        match exprs[id].term {
            ExprTerm::Paren(p) => if p.inner.idx() < id {
                denote_source(exprs, src, p.inner.idx() as int, rel, trav)
            } else {
                Set::empty()
            },
            ExprTerm::SelfRef(r) => rel(r.span.text_of(src)),
            ExprTerm::Traversal(t) => trav(t.relation.text_of(src), t.permission.text_of(src)),
            ExprTerm::Binary(b) => if b.lhs.idx() < id && b.rhs.idx() < id {
                apply_op(
                    b.op,
                    denote_source(exprs, src, b.lhs.idx() as int, rel, trav),
                    denote_source(exprs, src, b.rhs.idx() as int, rel, trav),
                )
            } else {
                Set::empty()
            },
            _ => Set::empty(),
        }
    }
}

proof fn lemma_flat_union_denotes(
    v: ExprView,
    rel: spec_fn(Seq<char>) -> Set<int>,
    trav: spec_fn(Seq<char>, Seq<char>) -> Set<int>,
)
    ensures
        denote_any(flat(BinaryOp::Union, v), rel, trav) == denote(v, rel, trav),
{
    match v {
        ExprView::Union(ts) => {
            assert(flat(BinaryOp::Union, v) == ts);
        },
        _ => {
            assert(seq![v].drop_last() =~= Seq::<ExprView>::empty());
            assert(Set::<int>::empty().union(denote(v, rel, trav)) =~= denote(v, rel, trav));
            assert(flat(BinaryOp::Union, v) == seq![v]);
            assert(denote_any(seq![v], rel, trav) == denote_any(Seq::<ExprView>::empty(), rel, trav).union(denote(v, rel, trav)));
        },
    }
}

proof fn lemma_flat_intersection_denotes(
    v: ExprView,
    rel: spec_fn(Seq<char>) -> Set<int>,
    trav: spec_fn(Seq<char>, Seq<char>) -> Set<int>,
)
    ensures
        denote_every(flat(BinaryOp::Intersection, v), rel, trav) == denote(v, rel, trav),
{
    match v {
        ExprView::Intersection(ts) => {
            assert(flat(BinaryOp::Intersection, v) == ts);
        },
        _ => {
            assert(seq![v].drop_last() =~= Seq::<ExprView>::empty());
            assert(Set::<int>::full().intersect(denote(v, rel, trav)) =~= denote(v, rel, trav));
            assert(flat(BinaryOp::Intersection, v) == seq![v]);
            assert(denote_every(seq![v], rel, trav)
                == denote_every(Seq::<ExprView>::empty(), rel, trav).intersect(denote(v, rel, trav)));
        },
    }
}

/// Combining two exported operands grants what the operator's set operation makes of
/// what each operand grants: merging a chain of one operator into one n-ary node
/// changes nothing, and an operand built with another operator stays one operand.
pub proof fn lemma_combine_denotes(
    op: BinaryOp,
    l: ExprView,
    r: ExprView,
    rel: spec_fn(Seq<char>) -> Set<int>,
    trav: spec_fn(Seq<char>, Seq<char>) -> Set<int>,
)
    ensures
        denote(combine(op, l, r), rel, trav) == apply_op(op, denote(l, rel, trav), denote(r, rel, trav)),
{
    match op {
        BinaryOp::Union => {
            lemma_flat_union_denotes(l, rel, trav);
            lemma_flat_union_denotes(r, rel, trav);
            lemma_denote_any_concat(flat(op, l), flat(op, r), rel, trav);
        },
        BinaryOp::Intersection => {
            lemma_flat_intersection_denotes(l, rel, trav);
            lemma_flat_intersection_denotes(r, rel, trav);
            lemma_denote_every_concat(flat(op, l), flat(op, r), rel, trav);
        },
        BinaryOp::Exclusion => {},
    }
}

/// The tree view of a permission tree grants what its source grants.
proof fn lemma_tree_view_denotes(
    exprs: Seq<Expr>,
    src: Seq<u8>,
    id: int,
    rel: spec_fn(Seq<char>) -> Set<int>,
    trav: spec_fn(Seq<char>, Seq<char>) -> Set<int>,
)
    requires
        permission_tree(exprs, id),
    ensures
        denote(tree_view(exprs, src, id), rel, trav) == denote_source(exprs, src, id, rel, trav),
    decreases id,
{
    match exprs[id].term {
        ExprTerm::Paren(p) => {
            lemma_tree_view_denotes(exprs, src, p.inner.idx() as int, rel, trav);
        },
        ExprTerm::Binary(b) => {
            lemma_tree_view_denotes(exprs, src, b.lhs.idx() as int, rel, trav);
            lemma_tree_view_denotes(exprs, src, b.rhs.idx() as int, rel, trav);
            lemma_combine_denotes(
                b.op,
                tree_view(exprs, src, b.lhs.idx() as int),
                tree_view(exprs, src, b.rhs.idx() as int),
                rel,
                trav,
            );
        },
        _ => {},
    }
}

/// A `def` body made of terms, operators and parentheses exports to an expression
/// that grants exactly what the source grants, whatever each term grants: `|` as
/// union, `&` as intersection, `-` as difference.
pub proof fn lemma_exported_expr_denotes_source(
    exprs: Seq<Expr>,
    src: Seq<u8>,
    id: int,
    rel: spec_fn(Seq<char>) -> Set<int>,
    trav: spec_fn(Seq<char>, Seq<char>) -> Set<int>,
)
    requires
        permission_tree(exprs, id),
    ensures
        exported_expr(exprs, src, id) is Some,
        denote(exported_expr(exprs, src, id)->0, rel, trav) == denote_source(exprs, src, id, rel, trav),
{
    lemma_lower_permission_tree(exprs, src, id, Seq::empty());
    lemma_tree_view_denotes(exprs, src, id, rel, trav);
}

/// In the exported schema, permission `k` of type `i`, whose `def` body is made of
/// terms, operators and parentheses, has an expression that grants exactly what its
/// source grants, whatever each term grants.
pub proof fn lemma_exported_permission_denotes_source(
    ast: Ast,
    src: Seq<u8>,
    i: int,
    k: int,
    rel: spec_fn(Seq<char>) -> Set<int>,
    trav: spec_fn(Seq<char>, Seq<char>) -> Set<int>,
)
    requires
        0 <= i < ast.type_nodes().len(),
        0 <= k < ast.type_nodes()[i].defs.hi() - ast.type_nodes()[i].defs.lo(),
        permission_tree(ast.expr_nodes(), ast.def_nodes()[ast.type_nodes()[i].defs.lo() + k].expr.idx() as int),
    ensures
        exported_schema(ast, src)[i].permissions[k].expr is Some,
        denote(exported_schema(ast, src)[i].permissions[k].expr->0, rel, trav) == denote_source(
            ast.expr_nodes(),
            src,
            ast.def_nodes()[ast.type_nodes()[i].defs.lo() + k].expr.idx() as int,
            rel,
            trav,
        ),
{
    let id = ast.def_nodes()[ast.type_nodes()[i].defs.lo() + k].expr.idx() as int;
    assert(exported_schema(ast, src)[i] == exported_type(ast, src, i));
    assert(exported_type(ast, src, i).permissions[k].expr == exported_expr(ast.expr_nodes(), src, id));
    lemma_exported_expr_denotes_source(ast.expr_nodes(), src, id, rel, trav);
}

/// A valid `let` body has at least one actor type: when the verification pass reports
/// nothing for a relation expression without placeholders, some `type` or
/// `type::member` reference is in it.
pub proof fn lemma_valid_relation_has_actors(
    exprs: Seq<Expr>,
    src: Seq<u8>,
    m: crate::semantic::index::IndexModel,
    scope: nat,
    id: int,
)
    requires
        0 <= id < exprs.len(),
        crate::ast::expr_children_before(exprs),
        no_error_terms(exprs, id),
        crate::semantic::verify::expr_findings(exprs, src, m, scope, crate::semantic::verify::ResolutionContext::Relation, id).len() == 0,
    ensures
        actors_of(exprs, src, id).len() > 0,
    decreases id,
{
    let rc = crate::semantic::verify::ResolutionContext::Relation;
    match exprs[id].term {
        ExprTerm::Paren(p) => {
            lemma_valid_relation_has_actors(exprs, src, m, scope, p.inner.idx() as int);
        },
        ExprTerm::Binary(b) => {
            let l = crate::semantic::verify::expr_findings(exprs, src, m, scope, rc, b.lhs.idx() as int);
            let r = crate::semantic::verify::expr_findings(exprs, src, m, scope, rc, b.rhs.idx() as int);
            assert((l + r).len() == l.len() + r.len());
            lemma_valid_relation_has_actors(exprs, src, m, scope, b.lhs.idx() as int);
        },
        _ => {},
    }
}

/// The exported schema has one type definition per type of the tree, in order, each
/// with one relation per `let` and one permission per `def` of that type.
pub proof fn lemma_exported_shape(ast: Ast, src: Seq<u8>)
    requires
        ast.wf(),
    ensures
        exported_schema(ast, src).len() == ast.type_nodes().len(),
        forall|i: int| 0 <= i < ast.type_nodes().len() ==> {
            &&& (#[trigger] exported_schema(ast, src)[i]).relations.len() == ast.type_nodes()[i].lets.hi() - ast.type_nodes()[i].lets.lo()
            &&& exported_schema(ast, src)[i].permissions.len() == ast.type_nodes()[i].defs.hi() - ast.type_nodes()[i].defs.lo()
        },
{
    assert forall|i: int| 0 <= i < ast.type_nodes().len() implies {
        &&& (#[trigger] exported_schema(ast, src)[i]).relations.len() == ast.type_nodes()[i].lets.hi() - ast.type_nodes()[i].lets.lo()
        &&& exported_schema(ast, src)[i].permissions.len() == ast.type_nodes()[i].defs.hi() - ast.type_nodes()[i].defs.lo()
    } by {
        assert(ast.type_nodes()[i].lets.wf() && ast.type_nodes()[i].defs.wf());
    }
}

/// The views of a stack of values.
pub open spec fn stack_view(s: Seq<Option<Expression>>) -> Seq<Option<ExprView>> {
    s.map_values(|o: Option<Expression>| match o {
        Some(e) => Some(e.deep()),
        None => None,
    })
}

/// Appends the actor types of expression `id`, from left to right.
fn collect_actors(ast: &Ast, source: &str, id: ExprId, out: &mut Vec<ActorType>)
    requires
        ast.wf(),
        ast.fits(source.spec_bytes()),
        id.idx() < ast.expr_nodes().len(),
    ensures
        final(out)@.map_values(|a: ActorType| a.deep()) == old(out)@.map_values(|a: ActorType| a.deep())
            + actors_of(ast.expr_nodes(), source.spec_bytes(), id.idx() as int),
    decreases id.idx(),
{
    let ghost before = out@.map_values(|a: ActorType| a.deep());
    let e = *ast.exprs().at(id);
    match e.term {
        ExprTerm::TypeRef(t) => {
            out.push(ActorType::direct(t.span.text(source)));
        },
        ExprTerm::UsersetTypeRef(u) => {
            out.push(ActorType::userset(u.ty.text(source), u.member.text(source)));
        },
        ExprTerm::Binary(b) => {
            collect_actors(ast, source, b.lhs, out);
            collect_actors(ast, source, b.rhs, out);
        },
        ExprTerm::Paren(p) => collect_actors(ast, source, p.inner, out),
        _ => {},
    }
    proof {
        assert(out@.map_values(|a: ActorType| a.deep()) =~= before + actors_of(ast.expr_nodes(), source.spec_bytes(), id.idx() as int));
    }
}

/// Appends to `terms` the operands that `expr` contributes to an `op` expression.
fn append_same_op_terms(op: BinaryOp, expr: Expression, terms: &mut Vec<Expression>)
    ensures
        deep_terms(final(terms)@) == deep_terms(old(terms)@) + flat(op, expr.deep()),
{
    let ghost v = expr.deep();
    let ghost before = terms@;
    match expr.kind {
        Some(Kind::Union(u)) => {
            match op {
                BinaryOp::Union => {
                    let mut more = u.terms;
                    let ghost added = more@;
                    terms.append(&mut more);
                    proof {
                        lemma_deep_terms_concat(before, added);
                    }
                },
                _ => {
                    terms.push(Expression { kind: Some(Kind::Union(u)) });
                    proof {
                        lemma_deep_terms_concat(before, seq![terms@.last()]);
                        assert(terms@ =~= before + seq![terms@.last()]);
                        lemma_deep_terms(seq![terms@.last()]);
                        assert(deep_terms(seq![terms@.last()]) =~= seq![v]);
                    }
                },
            }
        },
        Some(Kind::Intersection(i)) => {
            match op {
                BinaryOp::Intersection => {
                    let mut more = i.terms;
                    let ghost added = more@;
                    terms.append(&mut more);
                    proof {
                        lemma_deep_terms_concat(before, added);
                    }
                },
                _ => {
                    terms.push(Expression { kind: Some(Kind::Intersection(i)) });
                    proof {
                        lemma_deep_terms_concat(before, seq![terms@.last()]);
                        assert(terms@ =~= before + seq![terms@.last()]);
                        lemma_deep_terms(seq![terms@.last()]);
                        assert(deep_terms(seq![terms@.last()]) =~= seq![v]);
                    }
                },
            }
        },
        kind => {
            terms.push(Expression { kind });
            proof {
                lemma_deep_terms_concat(before, seq![terms@.last()]);
                assert(terms@ =~= before + seq![terms@.last()]);
                lemma_deep_terms(seq![terms@.last()]);
                assert(deep_terms(seq![terms@.last()]) =~= seq![v]);
            }
        },
    }
}

/// How many operands `expr` contributes to an `op` expression.
fn same_op_term_count(op: BinaryOp, expr: &Expression) -> (r: usize)
    ensures
        r == flat(op, expr.deep()).len(),
{
    match (op, &expr.kind) {
        (BinaryOp::Union, Some(Kind::Union(u))) => {
            proof {
                lemma_deep_terms(u.terms@);
            }
            u.terms.len()
        },
        (BinaryOp::Intersection, Some(Kind::Intersection(i))) => {
            proof {
                lemma_deep_terms(i.terms@);
            }
            i.terms.len()
        },
        _ => 1,
    }
}

/// The operands of `lhs op rhs`, with chains of one operator flattened.
fn flattened_terms(op: BinaryOp, lhs: Expression, rhs: Expression) -> (r: Vec<Expression>)
    ensures
        deep_terms(r@) == flat(op, lhs.deep()) + flat(op, rhs.deep()),
{
    let left_count = same_op_term_count(op, &lhs);
    let right_count = same_op_term_count(op, &rhs);
    let capacity = if left_count <= usize::MAX - right_count {
        left_count + right_count
    } else {
        left_count
    };
    let mut terms: Vec<Expression> = Vec::with_capacity(capacity);
    proof {
        lemma_deep_terms(terms@);
        assert(deep_terms(terms@) =~= Seq::<ExprView>::empty());
    }
    append_same_op_terms(op, lhs, &mut terms);
    append_same_op_terms(op, rhs, &mut terms);
    proof {
        assert(Seq::<ExprView>::empty() + flat(op, lhs.deep()) =~= flat(op, lhs.deep()));
    }
    terms
}

/// `lhs op rhs` as an expression.
fn binary_expr(op: BinaryOp, lhs: Expression, rhs: Expression) -> (r: Expression)
    ensures
        r.deep() == combine(op, lhs.deep(), rhs.deep()),
        forall|rel: spec_fn(Seq<char>) -> Set<int>, trav: spec_fn(Seq<char>, Seq<char>) -> Set<int>|
            #[trigger] denote(r.deep(), rel, trav) == apply_op(op, denote(lhs.deep(), rel, trav), denote(rhs.deep(), rel, trav)),
{
    proof {
        assert forall|rel: spec_fn(Seq<char>) -> Set<int>, trav: spec_fn(Seq<char>, Seq<char>) -> Set<int>|
            #[trigger] denote(combine(op, lhs.deep(), rhs.deep()), rel, trav)
                == apply_op(op, denote(lhs.deep(), rel, trav), denote(rhs.deep(), rel, trav)) by {
            lemma_combine_denotes(op, lhs.deep(), rhs.deep(), rel, trav);
        }
    }
    match op {
        BinaryOp::Union => Expression::union(flattened_terms(op, lhs, rhs)),
        BinaryOp::Intersection => Expression::intersection(flattened_terms(op, lhs, rhs)),
        BinaryOp::Exclusion => Expression::difference(lhs, rhs),
    }
}

/// Pops the operands of a binary operator; if either is missing, a missing value is
/// pushed in their place and nothing is returned.
fn pop_binary_operands(values: &mut Vec<Option<Expression>>) -> (r: Option<(Expression, Expression)>)
    ensures
        match r {
            Some(pair) => {
                &&& top(stack_view(old(values)@)) == Some(pair.1.deep())
                &&& top(below_top(stack_view(old(values)@))) == Some(pair.0.deep())
                &&& stack_view(final(values)@) == below_top(below_top(stack_view(old(values)@)))
            },
            None => {
                &&& (top(stack_view(old(values)@)) is None || top(below_top(stack_view(old(values)@))) is None)
                &&& stack_view(final(values)@) == below_top(below_top(stack_view(old(values)@))).push(None)
            },
        },
{
    let ghost s0 = values@;
    let rhs = match values.pop() {
        Some(v) => v,
        None => None,
    };
    let ghost s1 = values@;
    let lhs = match values.pop() {
        Some(v) => v,
        None => None,
    };
    proof {
        if s0.len() > 0 {
            assert(stack_view(s1) =~= below_top(stack_view(s0)));
        } else {
            assert(stack_view(s1) =~= below_top(stack_view(s0)));
        }
        if s1.len() > 0 {
            assert(stack_view(values@) =~= below_top(stack_view(s1)));
        } else {
            assert(stack_view(values@) =~= below_top(stack_view(s1)));
        }
    }
    match (lhs, rhs) {
        (Some(l), Some(r)) => Some((l, r)),
        _ => {
            let ghost s2 = values@;
            values.push(None);
            proof {
                assert(stack_view(values@) =~= stack_view(s2).push(None));
            }
            None
        },
    }
}

/// Lowers expression `id` onto the stack of values; see [`lower`].
fn lower_expr(ast: &Ast, source: &str, id: ExprId, values: &mut Vec<Option<Expression>>)
    requires
        ast.wf(),
        ast.fits(source.spec_bytes()),
        id.idx() < ast.expr_nodes().len(),
    ensures
        stack_view(final(values)@) == lower(ast.expr_nodes(), source.spec_bytes(), id.idx() as int, stack_view(old(values)@)),
    decreases id.idx(),
{
    let ghost s0 = values@;
    let e = *ast.exprs().at(id);
    match e.term {
        ExprTerm::Paren(p) => lower_expr(ast, source, p.inner, values),
        ExprTerm::SelfRef(r) => {
            values.push(Some(Expression::self_ref(r.span.text(source))));
            proof {
                assert(stack_view(values@) =~= stack_view(s0).push(Some(values@.last()->0.deep())));
            }
        },
        ExprTerm::Traversal(t) => {
            values.push(Some(Expression::traversal(t.relation.text(source), t.permission.text(source))));
            proof {
                assert(stack_view(values@) =~= stack_view(s0).push(Some(values@.last()->0.deep())));
            }
        },
        ExprTerm::TypeRef(_) => {
            values.push(None);
            proof {
                assert(stack_view(values@) =~= stack_view(s0).push(None));
            }
        },
        ExprTerm::UsersetTypeRef(_) => {
            values.push(None);
            proof {
                assert(stack_view(values@) =~= stack_view(s0).push(None));
            }
        },
        ExprTerm::Binary(b) => {
            lower_expr(ast, source, b.lhs, values);
            lower_expr(ast, source, b.rhs, values);
            let ghost s2 = values@;
            match pop_binary_operands(values) {
                Some(pair) => {
                    let (lhs, rhs) = pair;
                    let ghost s3 = values@;
                    values.push(Some(binary_expr(b.op, lhs, rhs)));
                    proof {
                        assert(stack_view(values@) =~= stack_view(s3).push(Some(combine(b.op, lhs.deep(), rhs.deep()))));
                    }
                },
                None => {},
            }
        },
        ExprTerm::Error => {},
    }
}

/// The exported expression of a `def` body: the value left on top of the stack.
fn export_expr(ast: &Ast, source: &str, root: ExprId) -> (r: Option<Expression>)
    requires
        ast.wf(),
        ast.fits(source.spec_bytes()),
        root.idx() < ast.expr_nodes().len(),
    ensures
        match r {
            Some(e) => exported_expr(ast.expr_nodes(), source.spec_bytes(), root.idx() as int) == Some(e.deep()),
            None => exported_expr(ast.expr_nodes(), source.spec_bytes(), root.idx() as int) is None,
        },
{
    let mut values: Vec<Option<Expression>> = Vec::with_capacity(4);
    proof {
        assert(stack_view(values@) =~= Seq::<Option<ExprView>>::empty());
    }
    lower_expr(ast, source, root, &mut values);
    let ghost s = values@;
    match values.pop() {
        Some(v) => v,
        None => None,
    }
}

/// The actor types of a `let` expression.
fn export_actors(ast: &Ast, source: &str, root: ExprId) -> (r: Vec<ActorType>)
    requires
        ast.wf(),
        ast.fits(source.spec_bytes()),
        root.idx() < ast.expr_nodes().len(),
    ensures
        r@.map_values(|a: ActorType| a.deep()) == actors_of(ast.expr_nodes(), source.spec_bytes(), root.idx() as int),
{
    let capacity: usize = match ast.exprs().at(root).term {
        ExprTerm::Binary(b) => match b.op {
            BinaryOp::Union => 2,
            _ => 1,
        },
        _ => 1,
    };
    let mut actors: Vec<ActorType> = Vec::with_capacity(capacity);
    proof {
        assert(actors@.map_values(|a: ActorType| a.deep()) =~= Seq::<ActorView>::empty());
    }
    collect_actors(ast, source, root, &mut actors);
    proof {
        assert(Seq::<ActorView>::empty() + actors_of(ast.expr_nodes(), source.spec_bytes(), root.idx() as int)
            =~= actors_of(ast.expr_nodes(), source.spec_bytes(), root.idx() as int));
    }
    actors
}

/// Exports a checked schema to the intermediate representation.
pub struct Exporter<'src> {
    pub(crate) ast: &'src Ast,
    pub(crate) file: FileRef<'src>,
}

impl<'src> Exporter<'src> {
    pub open(crate) spec fn tree(&self) -> Ast {
        *self.ast
    }

    pub open(crate) spec fn src(&self) -> Seq<u8> {
        self.file.source_of().spec_bytes()
    }

    pub fn new(ast: &'src Ast, file: FileRef<'src>) -> (e: Exporter<'src>)
        ensures
            e.tree() == *ast,
            e.src() == file.source_of().spec_bytes(),
    {
        Exporter { ast, file }
    }

    /// The schema: one type definition per type, in source order, each with a relation
    /// per `let` and a permission per `def`.
    pub fn export_schema(self) -> (s: Schema)
        requires
            self.tree().wf(),
            self.tree().fits(self.src()),
        ensures
            s.deep() == exported_schema(self.tree(), self.src()),
    {
        let ast = self.ast;
        let source = self.file.source();
        let ghost src = source.spec_bytes();
        let type_defs = ast.iter_types();
        let mut types: Vec<TypeDefinition> = Vec::with_capacity(type_defs.len());
        let mut i: usize = 0;
        while i < type_defs.len()
            invariant
                i <= type_defs@.len(),
                type_defs@ == ast.type_nodes(),
                ast.wf(),
                ast.fits(src),
                src == source.spec_bytes(),
                types@.map_values(|t: TypeDefinition| t.deep()) == Seq::new(i as nat, |j: int| exported_type(*ast, src, j)),
            decreases type_defs@.len() - i,
        {
            let t = type_defs[i];
            proof {
                assert(t == ast.type_nodes()[i as int]);
            }
            let mut def = TypeDefinition::with_capacity(t.name.text(source), t.lets.len(), t.defs.len());
            let lets = ast.lets().range(t.lets);
            let mut k: usize = 0;
            while k < lets.len()
                invariant
                    k <= lets@.len(),
                    i < ast.type_nodes().len(),
                    t == ast.type_nodes()[i as int],
                    lets@ == ast.let_nodes().subrange(t.lets.lo() as int, t.lets.hi() as int),
                    ast.wf(),
                    ast.fits(src),
                    src == source.spec_bytes(),
                    def.deep().name == t.name.text_of(src),
                    def.deep().permissions.len() == 0,
                    def.deep().relations == Seq::new(k as nat, |j: int| exported_type(*ast, src, i as int).relations[j]),
                decreases lets@.len() - k,
            {
                let l = lets[k];
                proof {
                    assert(t.lets.wf() && t.lets.hi() <= ast.let_nodes().len());
                    assert(l == ast.let_nodes()[t.lets.lo() + k]);
                }
                let actors = export_actors(ast, source, l.expr);
                let relation = Relation::new(l.name.text(source), actors);
                let ghost before = def.relations@;
                def.relations.push(relation);
                proof {
                    assert(def.relations@ == before.push(relation));
                    assert(exported_type(*ast, src, i as int).relations[k as int] == relation.deep());
                    assert(def.deep().relations =~= before.map_values(|r: Relation| r.deep()).push(relation.deep()));
                    assert(def.deep().relations =~= Seq::new((k + 1) as nat, |j: int| exported_type(*ast, src, i as int).relations[j]));
                }
                k = k + 1;
            }
            let defs = ast.defs().range(t.defs);
            let mut k: usize = 0;
            while k < defs.len()
                invariant
                    k <= defs@.len(),
                    i < ast.type_nodes().len(),
                    t == ast.type_nodes()[i as int],
                    defs@ == ast.def_nodes().subrange(t.defs.lo() as int, t.defs.hi() as int),
                    ast.wf(),
                    ast.fits(src),
                    src == source.spec_bytes(),
                    def.deep().name == t.name.text_of(src),
                    def.deep().relations == exported_type(*ast, src, i as int).relations,
                    def.deep().permissions == Seq::new(k as nat, |j: int| exported_type(*ast, src, i as int).permissions[j]),
                decreases defs@.len() - k,
            {
                let d = defs[k];
                proof {
                    assert(t.defs.wf() && t.defs.hi() <= ast.def_nodes().len());
                    assert(d == ast.def_nodes()[t.defs.lo() + k]);
                }
                let expr = export_expr(ast, source, d.expr);
                let permission = Permission::new(d.name.text(source), expr);
                let ghost before = def.permissions@;
                def.permissions.push(permission);
                proof {
                    assert(def.permissions@ == before.push(permission));
                    assert(exported_type(*ast, src, i as int).permissions[k as int] == permission.deep());
                    assert(def.deep().permissions =~= before.map_values(|p: Permission| p.deep()).push(permission.deep()));
                    assert(def.deep().permissions =~= Seq::new((k + 1) as nat, |j: int| exported_type(*ast, src, i as int).permissions[j]));
                }
                k = k + 1;
            }
            proof {
                assert(def.deep().relations =~= exported_type(*ast, src, i as int).relations);
                assert(def.deep().permissions =~= exported_type(*ast, src, i as int).permissions);
                assert(def.deep() == exported_type(*ast, src, i as int));
            }
            let ghost before = types@;
            let ghost dv = def.deep();
            types.push(def);
            proof {
                assert(types@.last().deep() == dv);
                assert(types@.map_values(|t: TypeDefinition| t.deep()) =~= before.map_values(|t: TypeDefinition| t.deep()).push(dv));
                assert(types@.map_values(|t: TypeDefinition| t.deep()) =~= Seq::new((i + 1) as nat, |j: int| exported_type(*ast, src, j)));
            }
            i = i + 1;
        }
        let schema = Schema::new(types);
        proof {
            assert(schema.deep() =~= exported_schema(*ast, src));
        }
        schema
    }
}

} // verus!
