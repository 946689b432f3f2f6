use aegis::ast::{
    AssertId, AssertionKind, Ast, AstBuilder, BinaryOp, DefMemberId, ExprId, ExprTerm, ExprTermBinary,
    ExprTermParen, ExprTermSelfRef, ExprTermTraversal, ExprTermTypeRef, ExprTermUsersetTypeRef, Instance,
    LetMemberId, RelationId, TestDefId, TypeDefId,
};
use aegis::span::Span;
use aegis::visit::{
    schema, walk_def_member, walk_expr, walk_expr_postorder, walk_let_member, walk_test_def, walk_type_def,
    Visitor,
};

fn span() -> Span {
    Span::from_range(0, 0)
}

#[derive(Debug, PartialEq, Clone, Copy)]
enum Evt {
    TypeDef,
    LetMember,
    DefMember,
    Expr,
    ExprSelfRef,
    ExprTraversal,
    ExprTypeRef,
    ExprUsersetTypeRef,
    ExprBinary,
    TestDef,
    Relation,
    Assert,
}

#[derive(Debug)]
struct Recorder<'src> {
    ast: &'src Ast,
    evts: Vec<Evt>,
}

impl<'src> Visitor for Recorder<'src> {
    fn ast(&self) -> &Ast {
        self.ast
    }

    fn type_def(&mut self, id: TypeDefId) {
        self.evts.push(Evt::TypeDef);
        walk_type_def(self, id);
    }

    fn let_member(&mut self, id: LetMemberId) {
        self.evts.push(Evt::LetMember);
        walk_let_member(self, id);
    }

    fn def_member(&mut self, id: DefMemberId) {
        self.evts.push(Evt::DefMember);
        walk_def_member(self, id);
    }

    fn expr(&mut self, id: ExprId) {
        self.evts.push(Evt::Expr);
        walk_expr(self, id);
    }

    fn expr_paren(&mut self, expr: ExprTermParen) {
        walk_expr(self, expr.inner);
    }

    fn expr_self_ref(&mut self, _: ExprTermSelfRef) {
        self.evts.push(Evt::ExprSelfRef);
    }

    fn expr_traversal(&mut self, _: ExprTermTraversal) {
        self.evts.push(Evt::ExprTraversal);
    }

    fn expr_type_ref(&mut self, _: ExprTermTypeRef) {
        self.evts.push(Evt::ExprTypeRef);
    }

    fn expr_userset_type_ref(&mut self, _: ExprTermUsersetTypeRef) {
        self.evts.push(Evt::ExprUsersetTypeRef);
    }

    fn expr_binary(&mut self, _: ExprTermBinary) {
        self.evts.push(Evt::ExprBinary);
    }

    fn test_def(&mut self, id: TestDefId) {
        self.evts.push(Evt::TestDef);
        walk_test_def(self, id);
    }

    fn relation(&mut self, _: RelationId) {
        self.evts.push(Evt::Relation);
    }

    fn assertion(&mut self, _: AssertId) {
        self.evts.push(Evt::Assert);
    }
}

fn build_ast(build: impl Fn(&mut AstBuilder)) -> Ast {
    let mut b = AstBuilder::new();
    build(&mut b);
    b.finish()
}

fn run(build: impl Fn(&mut AstBuilder)) -> Vec<Evt> {
    let ast = build_ast(build);

    let mut recorder = Recorder { ast: &ast, evts: Vec::new() };
    schema(&mut recorder);
    recorder.evts
}

#[test]
fn empty_schema_visits_nothing() {
    let evts = run(|_| {});

    assert!(evts.is_empty());
}

#[test]
fn empty_type_visits_only_type_def() {
    let evts = run(|b| {
        let lets = b.lets.empty_range();
        let defs = b.defs.empty_range();
        b.type_def(span(), span(), lets, defs);
    });

    assert_eq!(evts, vec![Evt::TypeDef]);
}

#[test]
fn two_empty_types_visits_two_type_defs() {
    let evts = run(|b| {
        let lets = b.lets.empty_range();
        let defs = b.defs.empty_range();
        b.type_def(span(), span(), lets, defs);
        let lets = b.lets.empty_range();
        let defs = b.defs.empty_range();
        b.type_def(span(), span(), lets, defs);
    });

    assert_eq!(evts, vec![Evt::TypeDef, Evt::TypeDef]);
}

#[test]
fn let_member_with_type_ref() {
    let evts = run(|b| {
        let expr = b.expr(span(), ExprTerm::type_ref(span()));
        let lets = {
            let cp = b.lets.checkpoint();
            b.let_member(span(), span(), expr);
            b.lets.since(cp)
        };
        let defs = b.defs.empty_range();
        b.type_def(span(), span(), lets, defs);
    });

    assert_eq!(evts, vec![Evt::TypeDef, Evt::LetMember, Evt::Expr, Evt::ExprTypeRef]);
}

#[test]
fn def_member_with_self_ref() {
    let evts = run(|b| {
        let expr = b.expr(span(), ExprTerm::self_ref(span()));
        let defs = {
            let cp = b.defs.checkpoint();
            b.def_member(span(), span(), expr);
            b.defs.since(cp)
        };
        let lets = b.lets.empty_range();
        b.type_def(span(), span(), lets, defs);
    });

    assert_eq!(evts, vec![Evt::TypeDef, Evt::DefMember, Evt::Expr, Evt::ExprSelfRef]);
}

#[test]
fn def_member_with_traversal() {
    let evts = run(|b| {
        let expr = b.expr(span(), ExprTerm::traversal(span(), span()));
        let defs = {
            let cp = b.defs.checkpoint();
            b.def_member(span(), span(), expr);
            b.defs.since(cp)
        };
        let lets = b.lets.empty_range();
        b.type_def(span(), span(), lets, defs);
    });

    assert_eq!(evts, vec![Evt::TypeDef, Evt::DefMember, Evt::Expr, Evt::ExprTraversal]);
}

#[test]
fn let_member_with_userset_type_ref() {
    let evts = run(|b| {
        let expr = b.expr(span(), ExprTerm::userset_type_ref(span(), span()));
        let lets = {
            let cp = b.lets.checkpoint();
            b.let_member(span(), span(), expr);
            b.lets.since(cp)
        };
        let defs = b.defs.empty_range();
        b.type_def(span(), span(), lets, defs);
    });

    assert_eq!(evts, vec![Evt::TypeDef, Evt::LetMember, Evt::Expr, Evt::ExprUsersetTypeRef]);
}

#[test]
fn binary_expr_visits_both_sides() {
    let evts = run(|b| {
        let lhs = b.expr(span(), ExprTerm::self_ref(span()));
        let rhs = b.expr(span(), ExprTerm::userset_type_ref(span(), span()));
        let expr = b.expr(span(), ExprTerm::binary(BinaryOp::Union, lhs, rhs));

        let defs = {
            let cp = b.defs.checkpoint();
            b.def_member(span(), span(), expr);
            b.defs.since(cp)
        };
        let lets = b.lets.empty_range();
        b.type_def(span(), span(), lets, defs);
    });

    assert_eq!(
        evts,
        vec![
            Evt::TypeDef,
            Evt::DefMember,
            Evt::Expr,
            Evt::ExprBinary,
            Evt::Expr,
            Evt::ExprSelfRef,
            Evt::Expr,
            Evt::ExprUsersetTypeRef,
        ]
    );
}

#[test]
fn paren_expr_visits_inner() {
    let evts = run(|b| {
        let inner = b.expr(span(), ExprTerm::self_ref(span()));
        let expr = b.expr(span(), ExprTerm::paren(inner));
        let defs = {
            let cp = b.defs.checkpoint();
            b.def_member(span(), span(), expr);
            b.defs.since(cp)
        };
        let lets = b.lets.empty_range();
        b.type_def(span(), span(), lets, defs);
    });

    assert_eq!(evts, vec![Evt::TypeDef, Evt::DefMember, Evt::Expr, Evt::ExprSelfRef]);
}

#[test]
fn multiple_members_visited_in_order() {
    let evts = run(|b| {
        let e1 = b.expr(span(), ExprTerm::type_ref(span()));
        let e2 = b.expr(span(), ExprTerm::type_ref(span()));
        let e3 = b.expr(span(), ExprTerm::self_ref(span()));

        let lets = {
            let cp = b.lets.checkpoint();
            b.let_member(span(), span(), e1);
            b.let_member(span(), span(), e2);
            b.lets.since(cp)
        };
        let defs = {
            let cp = b.defs.checkpoint();
            b.def_member(span(), span(), e3);
            b.defs.since(cp)
        };
        b.type_def(span(), span(), lets, defs);
    });

    assert_eq!(
        evts,
        vec![
            Evt::TypeDef,
            Evt::LetMember,
            Evt::Expr,
            Evt::ExprTypeRef,
            Evt::LetMember,
            Evt::Expr,
            Evt::ExprTypeRef,
            Evt::DefMember,
            Evt::Expr,
            Evt::ExprSelfRef,
        ]
    );
}

#[test]
fn test_def() {
    let evts = run(|b| {
        let relations = {
            let cp = b.relations.checkpoint();

            let sub = b.subject(span(), Instance::new(span(), span()), None);
            b.relation(span(), Instance::new(span(), span()), span(), sub);

            b.relations.since(cp)
        };

        let asserts = {
            let cp = b.asserts.checkpoint();

            b.assertion(span(), AssertionKind::Assert, Instance::new(span(), span()), span(), Instance::new(span(), span()));

            b.asserts.since(cp)
        };

        b.test_def(span(), span(), relations, asserts);
    });

    assert_eq!(evts, vec![Evt::TestDef, Evt::Relation, Evt::Assert]);
}

/// Records only the leaves and binary nodes, for the postorder walk.
struct Postorder<'src> {
    ast: &'src Ast,
    evts: Vec<Evt>,
}

impl<'src> Visitor for Postorder<'src> {
    fn ast(&self) -> &Ast {
        self.ast
    }

    fn type_def(&mut self, id: TypeDefId) {
        walk_type_def(self, id);
    }

    fn let_member(&mut self, id: LetMemberId) {
        walk_let_member(self, id);
    }

    fn def_member(&mut self, id: DefMemberId) {
        let expr = self.ast.defs().at(id).expr;
        walk_expr_postorder(self, expr);
    }

    fn expr(&mut self, id: ExprId) {
        self.evts.push(Evt::Expr);
        walk_expr_postorder(self, id);
    }

    fn expr_paren(&mut self, expr: ExprTermParen) {
        walk_expr(self, expr.inner);
    }

    fn expr_self_ref(&mut self, _: ExprTermSelfRef) {
        self.evts.push(Evt::ExprSelfRef);
    }

    fn expr_traversal(&mut self, _: ExprTermTraversal) {
        self.evts.push(Evt::ExprTraversal);
    }

    fn expr_type_ref(&mut self, _: ExprTermTypeRef) {
        self.evts.push(Evt::ExprTypeRef);
    }

    fn expr_userset_type_ref(&mut self, _: ExprTermUsersetTypeRef) {
        self.evts.push(Evt::ExprUsersetTypeRef);
    }

    fn expr_binary(&mut self, _: ExprTermBinary) {
        self.evts.push(Evt::ExprBinary);
    }

    fn test_def(&mut self, id: TestDefId) {
        walk_test_def(self, id);
    }

    fn relation(&mut self, _: RelationId) {}

    fn assertion(&mut self, _: AssertId) {}
}

#[test]
fn postorder_walk_visits_operands_before_operator_and_skips_parens() {
    let ast = build_ast(|b| {
        let lhs = b.expr(span(), ExprTerm::self_ref(span()));
        let inner = b.expr(span(), ExprTerm::type_ref(span()));
        let rhs = b.expr(span(), ExprTerm::paren(inner));
        let expr = b.expr(span(), ExprTerm::binary(BinaryOp::Intersection, lhs, rhs));
        let defs = {
            let cp = b.defs.checkpoint();
            b.def_member(span(), span(), expr);
            b.defs.since(cp)
        };
        let lets = b.lets.empty_range();
        b.type_def(span(), span(), lets, defs);
    });

    let mut visitor = Postorder { ast: &ast, evts: Vec::new() };
    schema(&mut visitor);
    assert_eq!(visitor.evts, vec![Evt::ExprSelfRef, Evt::ExprTypeRef, Evt::ExprBinary]);
}

#[test]
fn postorder_walk_visits_a_traversal_leaf() {
    let ast = build_ast(|b| {
        let expr = b.expr(span(), ExprTerm::traversal(span(), span()));
        let defs = {
            let cp = b.defs.checkpoint();
            b.def_member(span(), span(), expr);
            b.defs.since(cp)
        };
        let lets = b.lets.empty_range();
        b.type_def(span(), span(), lets, defs);
        let relations = b.relations.empty_range();
        let asserts = b.asserts.empty_range();
        b.test_def(span(), span(), relations, asserts);
    });

    let mut visitor = Postorder { ast: &ast, evts: Vec::new() };
    schema(&mut visitor);
    assert_eq!(visitor.evts, vec![Evt::ExprTraversal]);
}

#[test]
fn postorder_walk_visits_children_after_their_parent() {
    let ast = build_ast(|b| {
        let outer = b.expr(span(), ExprTerm::paren(ExprId::new(1)));
        let _ = b.expr(span(), ExprTerm::self_ref(span()));
        let defs = {
            let cp = b.defs.checkpoint();
            b.def_member(span(), span(), outer);
            b.defs.since(cp)
        };
        let lets = b.lets.empty_range();
        b.type_def(span(), span(), lets, defs);
    });

    let mut visitor = Postorder { ast: &ast, evts: Vec::new() };
    schema(&mut visitor);
    assert_eq!(visitor.evts, vec![Evt::ExprSelfRef]);
}

#[test]
fn postorder_walk_stops_on_a_cycle() {
    let ast = build_ast(|b| {
        let outer = b.expr(span(), ExprTerm::paren(ExprId::new(0)));
        let defs = {
            let cp = b.defs.checkpoint();
            b.def_member(span(), span(), outer);
            b.defs.since(cp)
        };
        let lets = b.lets.empty_range();
        b.type_def(span(), span(), lets, defs);
    });

    let mut visitor = Postorder { ast: &ast, evts: Vec::new() };
    schema(&mut visitor);
    assert!(visitor.evts.is_empty());
}
