use crate::ast::{
    AssertId, Ast, DefMemberId, Expr, ExprId, ExprTerm, ExprTermBinary, ExprTermParen, ExprTermSelfRef,
    ExprTermTraversal, ExprTermTypeRef, ExprTermUsersetTypeRef, LetMemberId, RelationId,
    TestDefId, TypeDefId,
};
use crate::id::Id;
use vstd::prelude::*;

verus! {

/// A call of a [`Visitor`] method, with its argument.
pub enum Visit {
    TypeDef(TypeDefId),
    LetMember(LetMemberId),
    DefMember(DefMemberId),
    Expr(ExprId),
    ExprParen(ExprTermParen),
    ExprSelfRef(ExprTermSelfRef),
    ExprTraversal(ExprTermTraversal),
    ExprTypeRef(ExprTermTypeRef),
    ExprUsersetTypeRef(ExprTermUsersetTypeRef),
    ExprBinary(ExprTermBinary),
    TestDef(TestDefId),
    Relation(RelationId),
    Assertion(AssertId),
}

/// A walk over the syntax tree of an [`Ast`].
///
/// Each method is called on one node. A method for a node with children calls the
/// matching `walk_*` function where it wants them visited ([`walk_expr`] with the
/// inner expression for [`Visitor::expr_paren`]).
///
/// What a method does is the implementation's own: [`Visitor::visits`] names the
/// states that a call may leave, and the contracts of the walks say which calls they
/// make, in which order, as a chain of such steps ([`runs`]). A method keeps the tree
/// that [`Visitor::ast`] hands out.
///
/// An id that names no node of the tree is skipped, and so is, in the postorder walk,
/// a child expression that does not come before its parent in the arena (which a tree
/// built in order never has).
pub trait Visitor: Sized {
    /// The tree that [`Visitor::ast`] hands out.
    open spec fn tree(&self) -> Ast {
        vstd::pervasive::arbitrary()
    }

    /// Whether the call `call` on this visitor may leave it as `next`.
    open spec fn visits(&self, call: Visit, next: &Self) -> bool {
        true
    }

    fn ast(&self) -> (r: &Ast)
        ensures
            *r == self.tree(),
    ;

    fn type_def(&mut self, id: TypeDefId)
        ensures
            final(self).tree() == old(self).tree(),
            old(self).visits(Visit::TypeDef(id), &*final(self)),
    ;

    fn let_member(&mut self, id: LetMemberId)
        ensures
            final(self).tree() == old(self).tree(),
            old(self).visits(Visit::LetMember(id), &*final(self)),
    ;

    fn def_member(&mut self, id: DefMemberId)
        ensures
            final(self).tree() == old(self).tree(),
            old(self).visits(Visit::DefMember(id), &*final(self)),
    ;

    fn expr(&mut self, id: ExprId)
        ensures
            final(self).tree() == old(self).tree(),
            old(self).visits(Visit::Expr(id), &*final(self)),
    ;

    fn expr_paren(&mut self, expr: ExprTermParen)
        ensures
            final(self).tree() == old(self).tree(),
            old(self).visits(Visit::ExprParen(expr), &*final(self)),
    ;

    fn expr_self_ref(&mut self, expr: ExprTermSelfRef)
        ensures
            final(self).tree() == old(self).tree(),
            old(self).visits(Visit::ExprSelfRef(expr), &*final(self)),
    ;

    fn expr_traversal(&mut self, expr: ExprTermTraversal)
        ensures
            final(self).tree() == old(self).tree(),
            old(self).visits(Visit::ExprTraversal(expr), &*final(self)),
    ;

    fn expr_type_ref(&mut self, expr: ExprTermTypeRef)
        ensures
            final(self).tree() == old(self).tree(),
            old(self).visits(Visit::ExprTypeRef(expr), &*final(self)),
    ;

    fn expr_userset_type_ref(&mut self, expr: ExprTermUsersetTypeRef)
        ensures
            final(self).tree() == old(self).tree(),
            old(self).visits(Visit::ExprUsersetTypeRef(expr), &*final(self)),
    ;

    fn expr_binary(&mut self, expr: ExprTermBinary)
        ensures
            final(self).tree() == old(self).tree(),
            old(self).visits(Visit::ExprBinary(expr), &*final(self)),
    ;

    fn test_def(&mut self, id: TestDefId)
        ensures
            final(self).tree() == old(self).tree(),
            old(self).visits(Visit::TestDef(id), &*final(self)),
    ;

    fn relation(&mut self, id: RelationId)
        ensures
            final(self).tree() == old(self).tree(),
            old(self).visits(Visit::Relation(id), &*final(self)),
    ;

    fn assertion(&mut self, id: AssertId)
        ensures
            final(self).tree() == old(self).tree(),
            old(self).visits(Visit::Assertion(id), &*final(self)),
    ;
}

/// `states` are the states of a visitor before and after each of `calls`.
pub open spec fn steps<V: Visitor>(states: Seq<V>, calls: Seq<Visit>) -> bool {
    &&& states.len() == calls.len() + 1
    &&& forall|k: int| #![trigger calls[k]] 0 <= k < calls.len() ==> states[k].visits(calls[k], &states[k + 1])
}

/// `end` is a state that the calls `calls`, made in order on `start`, may leave.
pub open spec fn runs<V: Visitor>(start: V, calls: Seq<Visit>, end: V) -> bool {
    exists|states: Seq<V>| #[trigger] steps(states, calls) && states[0] == start && states.last() == end
}

proof fn lemma_runs_empty<V: Visitor>(start: V)
    ensures
        runs(start, Seq::empty(), start),
{
    assert(steps(seq![start], Seq::<Visit>::empty()));
}

proof fn lemma_runs_push<V: Visitor>(start: V, calls: Seq<Visit>, mid: V, call: Visit, end: V)
    requires
        runs(start, calls, mid),
        mid.visits(call, &end),
    ensures
        runs(start, calls.push(call), end),
{
    let states = choose|states: Seq<V>| #[trigger] steps(states, calls) && states[0] == start && states.last() == mid;
    let next = states.push(end);
    let all = calls.push(call);
    assert forall|k: int| #![trigger all[k]] 0 <= k < all.len() implies next[k].visits(all[k], &next[k + 1]) by {
        if k < calls.len() {
            assert(all[k] == calls[k]);
            assert(next[k] == states[k]);
            assert(next[k + 1] == states[k + 1]);
        }
    }
    assert(steps(next, all));
}

proof fn lemma_runs_concat<V: Visitor>(start: V, first: Seq<Visit>, mid: V, second: Seq<Visit>, end: V)
    requires
        runs(start, first, mid),
        runs(mid, second, end),
    ensures
        runs(start, first + second, end),
    decreases second.len(),
{
    if second.len() == 0 {
        let s = choose|states: Seq<V>| #[trigger] steps(states, second) && states[0] == mid && states.last() == end;
        assert(mid == end);
        assert(first + second =~= first);
    } else {
        let n = (second.len() - 1) as int;
        let s = choose|states: Seq<V>| #[trigger] steps(states, second) && states[0] == mid && states.last() == end;
        let head = second.subrange(0, n);
        let before = s[n];
        assert(steps(s.subrange(0, n + 1), head)) by {
            assert forall|k: int| #![trigger head[k]] 0 <= k < head.len() implies s.subrange(0, n + 1)[k].visits(head[k], &s.subrange(0, n + 1)[k + 1]) by {
                assert(head[k] == second[k]);
            }
        }
        lemma_runs_concat(start, first, mid, head, before);
        assert(second[n] == second[n]);
        lemma_runs_push(start, first + head, before, second[n], end);
        assert((first + head).push(second[n]) =~= first + second);
    }
}

/// The calls that [`walk_type_def`] makes on a visitor of `ast`: `let_member` for each
/// `let` member of the type, then `def_member` for each `def` member, in order.
pub open spec fn type_def_calls(ast: Ast, id: TypeDefId) -> Seq<Visit> {
    if id.idx() < ast.type_nodes().len() {
        let t = ast.type_nodes()[id.idx() as int];
        Seq::new(run_len(t.lets.lo(), t.lets.hi()), |k: int| Visit::LetMember(Id::of((t.lets.lo() + k) as nat)))
            + Seq::new(run_len(t.defs.lo(), t.defs.hi()), |k: int| Visit::DefMember(Id::of((t.defs.lo() + k) as nat)))
    } else {
        Seq::empty()
    }
}

/// The number of ids from `lo` up to `hi`.
pub open spec fn run_len(lo: nat, hi: nat) -> nat {
    if lo < hi { (hi - lo) as nat } else { 0 }
}

/// Visits the `let` members of a type, then its `def` members, in order.
pub fn walk_type_def<V: Visitor>(visit: &mut V, id: TypeDefId)
    ensures
        final(visit).tree() == old(visit).tree(),
        runs(*old(visit), type_def_calls(old(visit).tree(), id), *final(visit)),
{
    let ghost start = *visit;
    proof {
        lemma_runs_empty(start);
    }
    let types = visit.ast().types();
    if id.as_index() >= types.len() {
        return;
    }
    let ty = *types.at(id);
    let ghost lets = Seq::new(run_len(ty.lets.lo(), ty.lets.hi()), |k: int| Visit::LetMember(Id::of((ty.lets.lo() + k) as nat)));
    let ghost defs = Seq::new(run_len(ty.defs.lo(), ty.defs.hi()), |k: int| Visit::DefMember(Id::of((ty.defs.lo() + k) as nat)));
    let mut i: u32 = ty.lets.start().raw();
    let lets_end: u32 = ty.lets.end().raw();
    proof {
        assert(lets.subrange(0, 0) =~= Seq::<Visit>::empty());
    }
    while i < lets_end
        invariant
            visit.tree() == start.tree(),
            ty.lets.lo() <= i,
            i <= lets_end || i == ty.lets.lo(),
            lets_end == ty.lets.hi(),
            lets.len() == run_len(ty.lets.lo(), ty.lets.hi()),
            lets == Seq::new(run_len(ty.lets.lo(), ty.lets.hi()), |k: int| Visit::LetMember(Id::of((ty.lets.lo() + k) as nat))),
            runs(start, lets.subrange(0, i - ty.lets.lo()), *visit),
        decreases lets_end - i,
    {
        let ghost before = *visit;
        visit.let_member(Id::new(i));
        proof {
            let done = lets.subrange(0, i - ty.lets.lo());
            assert(i - ty.lets.lo() < lets.len());
            assert(lets[i - ty.lets.lo()] == Visit::LetMember(Id::of(i as nat)));
            lemma_runs_push(start, done, before, Visit::LetMember(Id::of(i as nat)), *visit);
            assert(done.push(Visit::LetMember(Id::of(i as nat))) =~= lets.subrange(0, i + 1 - ty.lets.lo()));
        }
        i = i + 1;
    }
    proof {
        assert(lets.subrange(0, lets.len() as int) =~= lets);
        if !(ty.lets.lo() < ty.lets.hi()) {
            assert(lets =~= Seq::<Visit>::empty());
        }
    }
    let ghost mid = *visit;
    proof {
        lemma_runs_empty(mid);
        assert(defs.subrange(0, 0) =~= Seq::<Visit>::empty());
    }
    let mut j: u32 = ty.defs.start().raw();
    let defs_end: u32 = ty.defs.end().raw();
    while j < defs_end
        invariant
            visit.tree() == start.tree(),
            ty.defs.lo() <= j,
            j <= defs_end || j == ty.defs.lo(),
            defs_end == ty.defs.hi(),
            defs.len() == run_len(ty.defs.lo(), ty.defs.hi()),
            defs == Seq::new(run_len(ty.defs.lo(), ty.defs.hi()), |k: int| Visit::DefMember(Id::of((ty.defs.lo() + k) as nat))),
            runs(mid, defs.subrange(0, j - ty.defs.lo()), *visit),
        decreases defs_end - j,
    {
        let ghost before = *visit;
        visit.def_member(Id::new(j));
        proof {
            let done = defs.subrange(0, j - ty.defs.lo());
            assert(j - ty.defs.lo() < defs.len());
            assert(defs[j - ty.defs.lo()] == Visit::DefMember(Id::of(j as nat)));
            lemma_runs_push(mid, done, before, Visit::DefMember(Id::of(j as nat)), *visit);
            assert(done.push(Visit::DefMember(Id::of(j as nat))) =~= defs.subrange(0, j + 1 - ty.defs.lo()));
        }
        j = j + 1;
    }
    proof {
        assert(defs.subrange(0, defs.len() as int) =~= defs);
        if !(ty.defs.lo() < ty.defs.hi()) {
            assert(defs =~= Seq::<Visit>::empty());
        }
        lemma_runs_concat(start, lets, mid, defs, *visit);
    }
}

/// The call that [`walk_let_member`] makes: `expr` on the member's expression.
pub open spec fn let_member_calls(ast: Ast, id: LetMemberId) -> Seq<Visit> {
    if id.idx() < ast.let_nodes().len() {
        seq![Visit::Expr(ast.let_nodes()[id.idx() as int].expr)]
    } else {
        Seq::empty()
    }
}

/// Visits the expression of a `let` member.
pub fn walk_let_member<V: Visitor>(visit: &mut V, id: LetMemberId)
    ensures
        final(visit).tree() == old(visit).tree(),
        runs(*old(visit), let_member_calls(old(visit).tree(), id), *final(visit)),
{
    let ghost start = *visit;
    proof {
        lemma_runs_empty(start);
    }
    let lets = visit.ast().lets();
    if id.as_index() < lets.len() {
        let eid = lets.at(id).expr;
        visit.expr(eid);
        proof {
            lemma_runs_push(start, Seq::empty(), start, Visit::Expr(eid), *visit);
            assert(Seq::<Visit>::empty().push(Visit::Expr(eid)) =~= seq![Visit::Expr(eid)]);
        }
    }
}

/// The call that [`walk_def_member`] makes: `expr` on the member's expression.
pub open spec fn def_member_calls(ast: Ast, id: DefMemberId) -> Seq<Visit> {
    if id.idx() < ast.def_nodes().len() {
        seq![Visit::Expr(ast.def_nodes()[id.idx() as int].expr)]
    } else {
        Seq::empty()
    }
}

/// Visits the expression of a `def` member.
pub fn walk_def_member<V: Visitor>(visit: &mut V, id: DefMemberId)
    ensures
        final(visit).tree() == old(visit).tree(),
        runs(*old(visit), def_member_calls(old(visit).tree(), id), *final(visit)),
{
    let ghost start = *visit;
    proof {
        lemma_runs_empty(start);
    }
    let defs = visit.ast().defs();
    if id.as_index() < defs.len() {
        let eid = defs.at(id).expr;
        visit.expr(eid);
        proof {
            lemma_runs_push(start, Seq::empty(), start, Visit::Expr(eid), *visit);
            assert(Seq::<Visit>::empty().push(Visit::Expr(eid)) =~= seq![Visit::Expr(eid)]);
        }
    }
}

/// The call that visits a leaf term, if `term` is one.
pub open spec fn leaf_calls(term: ExprTerm) -> Seq<Visit> {
    match term {
        ExprTerm::SelfRef(e) => seq![Visit::ExprSelfRef(e)],
        ExprTerm::Traversal(e) => seq![Visit::ExprTraversal(e)],
        ExprTerm::TypeRef(e) => seq![Visit::ExprTypeRef(e)],
        ExprTerm::UsersetTypeRef(e) => seq![Visit::ExprUsersetTypeRef(e)],
        _ => Seq::empty(),
    }
}

/// The calls that [`walk_expr`] makes: `expr_paren` on a parenthesised expression, the
/// matching leaf method on a leaf, and on a binary expression `expr_binary`, then
/// `expr` on its left and then on its right operand.
pub open spec fn expr_calls(ast: Ast, id: ExprId) -> Seq<Visit> {
    if id.idx() < ast.expr_nodes().len() {
        match ast.expr_nodes()[id.idx() as int].term {
            ExprTerm::Paren(e) => seq![Visit::ExprParen(e)],
            ExprTerm::Binary(e) => seq![Visit::ExprBinary(e), Visit::Expr(e.lhs), Visit::Expr(e.rhs)],
            t => leaf_calls(t),
        }
    } else {
        Seq::empty()
    }
}

/// Dispatches on the kind of an expression; a binary expression is visited, then
/// its left and its right operand.
pub fn walk_expr<V: Visitor>(visit: &mut V, id: ExprId)
    ensures
        final(visit).tree() == old(visit).tree(),
        runs(*old(visit), expr_calls(old(visit).tree(), id), *final(visit)),
{
    let ghost start = *visit;
    proof {
        lemma_runs_empty(start);
    }
    let exprs = visit.ast().exprs();
    if id.as_index() >= exprs.len() {
        return;
    }
    let term = exprs.at(id).term;
    match term {
        ExprTerm::Paren(expr) => {
            visit.expr_paren(expr);
            proof {
                lemma_runs_push(start, Seq::empty(), start, Visit::ExprParen(expr), *visit);
                assert(Seq::<Visit>::empty().push(Visit::ExprParen(expr)) =~= seq![Visit::ExprParen(expr)]);
            }
        },
        ExprTerm::SelfRef(expr) => {
            visit.expr_self_ref(expr);
            proof {
                lemma_runs_push(start, Seq::empty(), start, Visit::ExprSelfRef(expr), *visit);
                assert(Seq::<Visit>::empty().push(Visit::ExprSelfRef(expr)) =~= leaf_calls(term));
            }
        },
        ExprTerm::Traversal(expr) => {
            visit.expr_traversal(expr);
            proof {
                lemma_runs_push(start, Seq::empty(), start, Visit::ExprTraversal(expr), *visit);
                assert(Seq::<Visit>::empty().push(Visit::ExprTraversal(expr)) =~= leaf_calls(term));
            }
        },
        ExprTerm::TypeRef(expr) => {
            visit.expr_type_ref(expr);
            proof {
                lemma_runs_push(start, Seq::empty(), start, Visit::ExprTypeRef(expr), *visit);
                assert(Seq::<Visit>::empty().push(Visit::ExprTypeRef(expr)) =~= leaf_calls(term));
            }
        },
        ExprTerm::UsersetTypeRef(expr) => {
            visit.expr_userset_type_ref(expr);
            proof {
                lemma_runs_push(start, Seq::empty(), start, Visit::ExprUsersetTypeRef(expr), *visit);
                assert(Seq::<Visit>::empty().push(Visit::ExprUsersetTypeRef(expr)) =~= leaf_calls(term));
            }
        },
        ExprTerm::Binary(expr) => {
            visit.expr_binary(expr);
            let ghost s1 = *visit;
            visit.expr(expr.lhs);
            let ghost s2 = *visit;
            visit.expr(expr.rhs);
            proof {
                let c1 = Seq::<Visit>::empty().push(Visit::ExprBinary(expr));
                lemma_runs_push(start, Seq::empty(), start, Visit::ExprBinary(expr), s1);
                lemma_runs_push(start, c1, s1, Visit::Expr(expr.lhs), s2);
                lemma_runs_push(start, c1.push(Visit::Expr(expr.lhs)), s2, Visit::Expr(expr.rhs), *visit);
                assert(c1.push(Visit::Expr(expr.lhs)).push(Visit::Expr(expr.rhs))
                    =~= seq![Visit::ExprBinary(expr), Visit::Expr(expr.lhs), Visit::Expr(expr.rhs)]);
            }
        },
        ExprTerm::Error => {
            assert(leaf_calls(term) =~= Seq::<Visit>::empty());
        },
    }
}

/// The calls of a postorder walk from expression `id` that may go `fuel` levels
/// deep: the calls for the operands of a binary expression, the left one first, then
/// `expr_binary`; for a parenthesised expression those of the inner one; the matching
/// leaf method on a leaf.
pub open spec fn postorder_calls(exprs: Seq<Expr>, id: ExprId, fuel: nat) -> Seq<Visit>
    decreases fuel,
{
    if fuel == 0 || id.idx() >= exprs.len() {
        Seq::empty()
    } else {
        match exprs[id.idx() as int].term {
            ExprTerm::Paren(e) => postorder_calls(exprs, e.inner, (fuel - 1) as nat),
            ExprTerm::Binary(e) => postorder_calls(exprs, e.lhs, (fuel - 1) as nat)
                + postorder_calls(exprs, e.rhs, (fuel - 1) as nat) + seq![Visit::ExprBinary(e)],
            t => leaf_calls(t),
        }
    }
}

/// Walks an expression in postorder: the operands of a binary expression before
/// the expression itself, which suits visitors that build a parent value from the
/// values of its children. Parentheses are transparent: neither
/// [`Visitor::expr`] nor [`Visitor::expr_paren`] is called.
///
/// Every child is walked, wherever it stands in the arena. The walk goes at most as
/// many levels deep as the arena has expressions, which no tree without a cycle
/// reaches; on a cycle it stops there.
pub fn walk_expr_postorder<V: Visitor>(visit: &mut V, id: ExprId)
    ensures
        final(visit).tree() == old(visit).tree(),
        runs(*old(visit), postorder_calls(old(visit).tree().expr_nodes(), id, old(visit).tree().expr_nodes().len()), *final(visit)),
{
    let n = visit.ast().exprs().len();
    walk_postorder_within(visit, id, n);
}

/// The postorder walk from `id`, at most `fuel` levels deep.
fn walk_postorder_within<V: Visitor>(visit: &mut V, id: ExprId, fuel: usize)
    ensures
        final(visit).tree() == old(visit).tree(),
        runs(*old(visit), postorder_calls(old(visit).tree().expr_nodes(), id, fuel as nat), *final(visit)),
    decreases fuel,
{
    let ghost start = *visit;
    let ghost exprs_view = visit.tree().expr_nodes();
    proof {
        lemma_runs_empty(start);
    }
    if fuel == 0 {
        return;
    }
    let exprs = visit.ast().exprs();
    if id.as_index() >= exprs.len() {
        return;
    }
    let term = exprs.at(id).term;
    match term {
        ExprTerm::Paren(expr) => {
            walk_postorder_within(visit, expr.inner, fuel - 1);
        },
        ExprTerm::SelfRef(expr) => {
            visit.expr_self_ref(expr);
            proof {
                lemma_runs_push(start, Seq::empty(), start, Visit::ExprSelfRef(expr), *visit);
                assert(Seq::<Visit>::empty().push(Visit::ExprSelfRef(expr)) =~= leaf_calls(term));
            }
        },
        ExprTerm::Traversal(expr) => {
            visit.expr_traversal(expr);
            proof {
                lemma_runs_push(start, Seq::empty(), start, Visit::ExprTraversal(expr), *visit);
                assert(Seq::<Visit>::empty().push(Visit::ExprTraversal(expr)) =~= leaf_calls(term));
            }
        },
        ExprTerm::TypeRef(expr) => {
            visit.expr_type_ref(expr);
            proof {
                lemma_runs_push(start, Seq::empty(), start, Visit::ExprTypeRef(expr), *visit);
                assert(Seq::<Visit>::empty().push(Visit::ExprTypeRef(expr)) =~= leaf_calls(term));
            }
        },
        ExprTerm::UsersetTypeRef(expr) => {
            visit.expr_userset_type_ref(expr);
            proof {
                lemma_runs_push(start, Seq::empty(), start, Visit::ExprUsersetTypeRef(expr), *visit);
                assert(Seq::<Visit>::empty().push(Visit::ExprUsersetTypeRef(expr)) =~= leaf_calls(term));
            }
        },
        ExprTerm::Binary(expr) => {
            walk_postorder_within(visit, expr.lhs, fuel - 1);
            let ghost s1 = *visit;
            let ghost left = postorder_calls(exprs_view, expr.lhs, (fuel - 1) as nat);
            walk_postorder_within(visit, expr.rhs, fuel - 1);
            let ghost s2 = *visit;
            let ghost right = postorder_calls(exprs_view, expr.rhs, (fuel - 1) as nat);
            visit.expr_binary(expr);
            proof {
                lemma_runs_concat(start, left, s1, right, s2);
                lemma_runs_push(start, left + right, s2, Visit::ExprBinary(expr), *visit);
                assert((left + right).push(Visit::ExprBinary(expr)) =~= left + right + seq![Visit::ExprBinary(expr)]);
            }
        },
        ExprTerm::Error => {
            assert(leaf_calls(term) =~= Seq::<Visit>::empty());
        },
    }
}

/// The calls that [`walk_test_def`] makes on a visitor of `ast`: `relation` for each
/// relation of the test, then `assertion` for each of its assertions, in order.
pub open spec fn test_def_calls(ast: Ast, id: TestDefId) -> Seq<Visit> {
    if id.idx() < ast.test_nodes().len() {
        let t = ast.test_nodes()[id.idx() as int];
        Seq::new(run_len(t.relations.lo(), t.relations.hi()), |k: int| Visit::Relation(Id::of((t.relations.lo() + k) as nat)))
            + Seq::new(run_len(t.asserts.lo(), t.asserts.hi()), |k: int| Visit::Assertion(Id::of((t.asserts.lo() + k) as nat)))
    } else {
        Seq::empty()
    }
}

/// Visits the relations of a test, then its assertions, in order.
pub fn walk_test_def<V: Visitor>(visit: &mut V, id: TestDefId)
    ensures
        final(visit).tree() == old(visit).tree(),
        runs(*old(visit), test_def_calls(old(visit).tree(), id), *final(visit)),
{
    let ghost start = *visit;
    proof {
        lemma_runs_empty(start);
    }
    let tests = visit.ast().tests();
    if id.as_index() >= tests.len() {
        return;
    }
    let test = *tests.at(id);
    let ghost rels = Seq::new(run_len(test.relations.lo(), test.relations.hi()), |k: int| Visit::Relation(Id::of((test.relations.lo() + k) as nat)));
    let ghost asserts = Seq::new(run_len(test.asserts.lo(), test.asserts.hi()), |k: int| Visit::Assertion(Id::of((test.asserts.lo() + k) as nat)));
    let mut i: u32 = test.relations.start().raw();
    let relations_end: u32 = test.relations.end().raw();
    proof {
        assert(rels.subrange(0, 0) =~= Seq::<Visit>::empty());
    }
    while i < relations_end
        invariant
            visit.tree() == start.tree(),
            test.relations.lo() <= i,
            i <= relations_end || i == test.relations.lo(),
            relations_end == test.relations.hi(),
            rels.len() == run_len(test.relations.lo(), test.relations.hi()),
            rels == Seq::new(run_len(test.relations.lo(), test.relations.hi()), |k: int| Visit::Relation(Id::of((test.relations.lo() + k) as nat))),
            runs(start, rels.subrange(0, i - test.relations.lo()), *visit),
        decreases relations_end - i,
    {
        let ghost before = *visit;
        visit.relation(Id::new(i));
        proof {
            let done = rels.subrange(0, i - test.relations.lo());
            assert(i - test.relations.lo() < rels.len());
            assert(rels[i - test.relations.lo()] == Visit::Relation(Id::of(i as nat)));
            lemma_runs_push(start, done, before, Visit::Relation(Id::of(i as nat)), *visit);
            assert(done.push(Visit::Relation(Id::of(i as nat))) =~= rels.subrange(0, i + 1 - test.relations.lo()));
        }
        i = i + 1;
    }
    proof {
        assert(rels.subrange(0, rels.len() as int) =~= rels);
        if !(test.relations.lo() < test.relations.hi()) {
            assert(rels =~= Seq::<Visit>::empty());
        }
    }
    let ghost mid = *visit;
    proof {
        lemma_runs_empty(mid);
        assert(asserts.subrange(0, 0) =~= Seq::<Visit>::empty());
    }
    let mut j: u32 = test.asserts.start().raw();
    let asserts_end: u32 = test.asserts.end().raw();
    while j < asserts_end
        invariant
            visit.tree() == start.tree(),
            test.asserts.lo() <= j,
            j <= asserts_end || j == test.asserts.lo(),
            asserts_end == test.asserts.hi(),
            asserts.len() == run_len(test.asserts.lo(), test.asserts.hi()),
            asserts == Seq::new(run_len(test.asserts.lo(), test.asserts.hi()), |k: int| Visit::Assertion(Id::of((test.asserts.lo() + k) as nat))),
            runs(mid, asserts.subrange(0, j - test.asserts.lo()), *visit),
        decreases asserts_end - j,
    {
        let ghost before = *visit;
        visit.assertion(Id::new(j));
        proof {
            let done = asserts.subrange(0, j - test.asserts.lo());
            assert(j - test.asserts.lo() < asserts.len());
            assert(asserts[j - test.asserts.lo()] == Visit::Assertion(Id::of(j as nat)));
            lemma_runs_push(mid, done, before, Visit::Assertion(Id::of(j as nat)), *visit);
            assert(done.push(Visit::Assertion(Id::of(j as nat))) =~= asserts.subrange(0, j + 1 - test.asserts.lo()));
        }
        j = j + 1;
    }
    proof {
        assert(asserts.subrange(0, asserts.len() as int) =~= asserts);
        if !(test.asserts.lo() < test.asserts.hi()) {
            assert(asserts =~= Seq::<Visit>::empty());
        }
        lemma_runs_concat(start, rels, mid, asserts, *visit);
    }
}

/// How many of `n` nodes have a `u32` id.
pub open spec fn id_count(n: nat) -> nat {
    if n <= 0x1_0000_0000 { n } else { 0x1_0000_0000 }
}

/// The calls that [`schema`] makes on a visitor of `ast`: `type_def` on each type
/// definition, then `test_def` on each test, in id order.
pub open spec fn schema_calls(ast: Ast) -> Seq<Visit> {
    Seq::new(id_count(ast.type_nodes().len()), |k: int| Visit::TypeDef(Id::of(k as nat)))
        + Seq::new(id_count(ast.test_nodes().len()), |k: int| Visit::TestDef(Id::of(k as nat)))
}

/// Visits every type definition of the tree, then every test, in source order.
pub fn schema<V: Visitor>(visit: &mut V)
    ensures
        final(visit).tree() == old(visit).tree(),
        runs(*old(visit), schema_calls(old(visit).tree()), *final(visit)),
{
    let ghost start = *visit;
    let n_types: usize = visit.ast().types().len();
    let n_tests: usize = visit.ast().tests().len();
    let ghost types = Seq::new(id_count(n_types as nat), |k: int| Visit::TypeDef(Id::of(k as nat)));
    let ghost tests = Seq::new(id_count(n_tests as nat), |k: int| Visit::TestDef(Id::of(k as nat)));
    proof {
        lemma_runs_empty(start);
        assert(types.subrange(0, 0) =~= Seq::<Visit>::empty());
    }
    let mut i: u64 = 0;
    while i < n_types as u64 && i < 0x1_0000_0000
        invariant
            visit.tree() == start.tree(),
            i <= id_count(n_types as nat),
            types.len() == id_count(n_types as nat),
            types == Seq::new(id_count(n_types as nat), |k: int| Visit::TypeDef(Id::of(k as nat))),
            runs(start, types.subrange(0, i as int), *visit),
        decreases n_types - i,
    {
        let ghost before = *visit;
        visit.type_def(Id::new(i as u32));
        proof {
            let done = types.subrange(0, i as int);
            assert((i as int) < types.len());
            assert(types[i as int] == Visit::TypeDef(Id::of(i as nat)));
            lemma_runs_push(start, done, before, Visit::TypeDef(Id::of(i as nat)), *visit);
            assert(done.push(Visit::TypeDef(Id::of(i as nat))) =~= types.subrange(0, i + 1));
        }
        i = i + 1;
    }
    proof {
        assert(types.subrange(0, types.len() as int) =~= types);
    }
    let ghost mid = *visit;
    proof {
        lemma_runs_empty(mid);
        assert(tests.subrange(0, 0) =~= Seq::<Visit>::empty());
    }
    let mut j: u64 = 0;
    while j < n_tests as u64 && j < 0x1_0000_0000
        invariant
            visit.tree() == start.tree(),
            j <= id_count(n_tests as nat),
            tests.len() == id_count(n_tests as nat),
            tests == Seq::new(id_count(n_tests as nat), |k: int| Visit::TestDef(Id::of(k as nat))),
            runs(mid, tests.subrange(0, j as int), *visit),
        decreases n_tests - j,
    {
        let ghost before = *visit;
        visit.test_def(Id::new(j as u32));
        proof {
            let done = tests.subrange(0, j as int);
            assert((j as int) < tests.len());
            assert(tests[j as int] == Visit::TestDef(Id::of(j as nat)));
            lemma_runs_push(mid, done, before, Visit::TestDef(Id::of(j as nat)), *visit);
            assert(done.push(Visit::TestDef(Id::of(j as nat))) =~= tests.subrange(0, j + 1));
        }
        j = j + 1;
    }
    proof {
        assert(tests.subrange(0, tests.len() as int) =~= tests);
        lemma_runs_concat(start, types, mid, tests, *visit);
    }
}

} // verus!
