use crate::id::{Checkpoint, Id, Range};
use crate::span::Span;
use vstd::prelude::*;

verus! {

/// A read-only arena of nodes of one kind, indexed by [`Id`].
#[derive(Debug, Clone)]
pub struct Pool<T> {
    pub(crate) items: Vec<T>,
}

impl<T> Pool<T> {
    /// The nodes, in id order.
    pub open(crate) spec fn nodes(&self) -> Seq<T> {
        self.items@
    }

    pub fn len(&self) -> (r: usize)
        ensures
            r == self.nodes().len(),
    {
        self.items.len()
    }

    pub fn is_empty(&self) -> (r: bool)
        ensures
            r == (self.nodes().len() == 0),
    {
        self.items.len() == 0
    }

    /// The node with the given id, which must be in the pool.
    pub fn at(&self, id: Id<T>) -> (r: &T)
        requires
            id.idx() < self.nodes().len(),
        ensures
            *r == self.nodes()[id.idx() as int],
    {
        &self.items[id.as_index()]
    }
}

impl<T: Copy> Pool<T> {
    /// The nodes of a range of ids, in order.
    pub fn range(&self, range: Range<T>) -> (r: Vec<T>)
        requires
            range.wf(),
            range.hi() <= self.nodes().len(),
        ensures
            r@ == self.nodes().subrange(range.lo() as int, range.hi() as int),
    {
        let mut out: Vec<T> = Vec::new();
        let mut i: usize = range.start().as_index();
        let end: usize = range.end().as_index();
        while i < end
            invariant
                range.lo() <= i <= end == range.hi() <= self.nodes().len(),
                out@ == self.nodes().subrange(range.lo() as int, i as int),
            decreases end - i,
        {
            out.push(self.items[i]);
            i = i + 1;
            assert(out@ =~= self.nodes().subrange(range.lo() as int, i as int));
        }
        out
    }
}

/// A growable arena of nodes of one kind; [`PoolBuilder::finish`] freezes it into a [`Pool`].
#[derive(Debug)]
pub struct PoolBuilder<T> {
    pub(crate) items: Vec<T>,
}

impl<T> PoolBuilder<T> {
    pub open(crate) spec fn nodes(&self) -> Seq<T> {
        self.items@
    }

    pub fn new() -> (b: PoolBuilder<T>)
        ensures
            b.nodes() == Seq::<T>::empty(),
    {
        PoolBuilder { items: Vec::new() }
    }

    pub fn len(&self) -> (r: usize)
        ensures
            r == self.nodes().len(),
    {
        self.items.len()
    }

    fn current_id(&self) -> (id: Id<T>)
        requires
            self.nodes().len() <= u32::MAX,
        ensures
            id.idx() == self.nodes().len(),
    {
        Id::new(self.items.len() as u32)
    }

    /// Marks the current end of the arena.
    pub fn checkpoint(&self) -> (c: Checkpoint<T>)
        requires
            self.nodes().len() <= u32::MAX,
        ensures
            c.at() == self.nodes().len(),
    {
        Checkpoint::new(self.current_id())
    }

    /// The ids of the nodes pushed since `checkpoint`.
    pub fn since(&self, checkpoint: Checkpoint<T>) -> (r: Range<T>)
        requires
            checkpoint.at() <= self.nodes().len() <= u32::MAX,
        ensures
            r.lo() == checkpoint.at(),
            r.hi() == self.nodes().len(),
            r.wf(),
    {
        Range::new(checkpoint.id(), self.current_id())
    }

    /// The empty range at the current end of the arena.
    pub fn empty_range(&self) -> (r: Range<T>)
        requires
            self.nodes().len() <= u32::MAX,
        ensures
            r.lo() == self.nodes().len(),
            r.hi() == self.nodes().len(),
            r.wf(),
    {
        let id = self.current_id();
        Range::new(id, id)
    }

    /// Appends a node and returns its id; ids are `u32`, so the arena holds fewer
    /// than `u32::MAX` nodes.
    pub fn push(&mut self, node: T) -> (id: Id<T>)
        requires
            old(self).nodes().len() < u32::MAX,
        ensures
            final(self).nodes() == old(self).nodes().push(node),
            id.idx() == old(self).nodes().len(),
    {
        let id = self.current_id();
        self.items.push(node);
        id
    }

    pub fn finish(self) -> (p: Pool<T>)
        ensures
            p.nodes() == self.nodes(),
    {
        Pool { items: self.items }
    }
}

/// A `type` definition: `type name { let ...; def ...; }`.
#[derive(Debug, Clone, Copy)]
pub struct TypeDef {
    pub span: Span,
    pub name: Span,
    pub lets: LetMemberRange,
    pub defs: DefMemberRange,
}

/// A `let` member, a stored relation: `let member = user | team::member;`.
#[derive(Debug, Clone, Copy)]
pub struct LetMember {
    pub span: Span,
    pub name: Span,
    pub expr: ExprId,
}

/// A `def` member, a computed permission: `def admin = .owner | .parent.admin;`.
#[derive(Debug, Clone, Copy)]
pub struct DefMember {
    pub span: Span,
    pub name: Span,
    pub expr: ExprId,
}

/// An expression node.
#[derive(Debug, Clone, Copy)]
pub struct Expr {
    pub span: Span,
    pub term: ExprTerm,
}

#[derive(Debug, Clone, Copy, PartialEq, Eq, Structural)]
pub enum BinaryOp {
    Union,
    Intersection,
    Exclusion,
}

#[derive(Debug, Clone, Copy)]
pub struct ExprTermParen {
    pub inner: ExprId,
}

#[derive(Debug, Clone, Copy)]
pub struct ExprTermSelfRef {
    pub span: Span,
}

#[derive(Debug, Clone, Copy)]
pub struct ExprTermTraversal {
    pub relation: Span,
    pub permission: Span,
}

#[derive(Debug, Clone, Copy)]
pub struct ExprTermTypeRef {
    pub span: Span,
}

#[derive(Debug, Clone, Copy)]
pub struct ExprTermUsersetTypeRef {
    pub ty: Span,
    pub member: Span,
}

#[derive(Debug, Clone, Copy)]
pub struct ExprTermBinary {
    pub op: BinaryOp,
    pub lhs: ExprId,
    pub rhs: ExprId,
}

/// The shape of an expression: `( e )`, `.relation`, `.relation.permission`, `type`,
/// `type::member`, `e op e`, or a placeholder where the parser found no term.
#[derive(Debug, Clone, Copy)]
pub enum ExprTerm {
    Paren(ExprTermParen),
    SelfRef(ExprTermSelfRef),
    Traversal(ExprTermTraversal),
    TypeRef(ExprTermTypeRef),
    UsersetTypeRef(ExprTermUsersetTypeRef),
    Binary(ExprTermBinary),
    Error,
}

impl ExprTerm {
    pub fn type_ref(span: Span) -> (r: ExprTerm)
        ensures
            r == ExprTerm::TypeRef(ExprTermTypeRef { span }),
    {
        ExprTerm::TypeRef(ExprTermTypeRef { span })
    }

    pub fn self_ref(span: Span) -> (r: ExprTerm)
        ensures
            r == ExprTerm::SelfRef(ExprTermSelfRef { span }),
    {
        ExprTerm::SelfRef(ExprTermSelfRef { span })
    }

    pub fn traversal(relation: Span, permission: Span) -> (r: ExprTerm)
        ensures
            r == ExprTerm::Traversal(ExprTermTraversal { relation, permission }),
    {
        ExprTerm::Traversal(ExprTermTraversal { relation, permission })
    }

    pub fn userset_type_ref(ty: Span, member: Span) -> (r: ExprTerm)
        ensures
            r == ExprTerm::UsersetTypeRef(ExprTermUsersetTypeRef { ty, member }),
    {
        ExprTerm::UsersetTypeRef(ExprTermUsersetTypeRef { ty, member })
    }

    pub fn paren(inner: ExprId) -> (r: ExprTerm)
        ensures
            r == ExprTerm::Paren(ExprTermParen { inner }),
    {
        ExprTerm::Paren(ExprTermParen { inner })
    }

    pub fn binary(op: BinaryOp, lhs: ExprId, rhs: ExprId) -> (r: ExprTerm)
        ensures
            r == ExprTerm::Binary(ExprTermBinary { op, lhs, rhs }),
    {
        ExprTerm::Binary(ExprTermBinary { op, lhs, rhs })
    }
}

/// A `test` definition: `test "name" { relations { ... } assert(...); }`.
#[derive(Debug, Clone, Copy)]
pub struct TestDef {
    pub span: Span,
    pub name: Span,
    pub relations: RelationRange,
    pub asserts: AssertRange,
}

/// A relation statement of a test: `user("alice").friend: user("bob");`.
#[derive(Debug, Clone, Copy)]
pub struct Relation {
    pub span: Span,
    pub resource: Instance,
    pub relation: Span,
    pub subject: SubjectId,
}

#[derive(Debug, Clone, Copy, PartialEq, Eq, Structural)]
pub enum AssertionKind {
    Assert,
    AssertNot,
}

/// An assertion of a test: `assert(object.permission(subject));`.
#[derive(Debug, Clone, Copy)]
pub struct Assert {
    pub span: Span,
    pub kind: AssertionKind,
    pub resource: Instance,
    pub permission: Span,
    pub actor: Instance,
}

/// The subject of a relation statement: `user("alice")` or `team("t1")::member`.
#[derive(Debug, Clone, Copy)]
pub struct Subject {
    pub span: Span,
    pub instance: Instance,
    pub permission: Option<Span>,
}

/// An object instance: `type("id")`.
#[derive(Debug, Clone, Copy)]
pub struct Instance {
    pub ty: Span,
    pub ident: Span,
}

pub type TypeDefId = Id<TypeDef>;
pub type TypeDefRange = Range<TypeDef>;
pub type TypeDefPool = Pool<TypeDef>;
pub type TypeDefPoolBuilder = PoolBuilder<TypeDef>;
pub type LetMemberId = Id<LetMember>;
pub type LetMemberRange = Range<LetMember>;
pub type LetMemberPool = Pool<LetMember>;
pub type LetMemberPoolBuilder = PoolBuilder<LetMember>;
pub type DefMemberId = Id<DefMember>;
pub type DefMemberRange = Range<DefMember>;
pub type DefMemberPool = Pool<DefMember>;
pub type DefMemberPoolBuilder = PoolBuilder<DefMember>;
pub type ExprId = Id<Expr>;
pub type ExprRange = Range<Expr>;
pub type ExprPool = Pool<Expr>;
pub type ExprPoolBuilder = PoolBuilder<Expr>;
pub type TestDefId = Id<TestDef>;
pub type TestDefRange = Range<TestDef>;
pub type TestDefPool = Pool<TestDef>;
pub type TestDefPoolBuilder = PoolBuilder<TestDef>;
pub type RelationId = Id<Relation>;
pub type RelationRange = Range<Relation>;
pub type RelationPool = Pool<Relation>;
pub type RelationPoolBuilder = PoolBuilder<Relation>;
pub type AssertId = Id<Assert>;
pub type AssertRange = Range<Assert>;
pub type AssertPool = Pool<Assert>;
pub type AssertPoolBuilder = PoolBuilder<Assert>;
pub type SubjectId = Id<Subject>;
pub type SubjectRange = Range<Subject>;
pub type SubjectPool = Pool<Subject>;
pub type SubjectPoolBuilder = PoolBuilder<Subject>;


/// The child expressions of an expression node come before it in the arena.
pub open spec fn expr_children_before(exprs: Seq<Expr>) -> bool {
    forall|i: int|
        0 <= i < exprs.len() ==> match #[trigger] exprs[i].term {
            ExprTerm::Paren(p) => p.inner.idx() < i,
            ExprTerm::Binary(b) => b.lhs.idx() < i && b.rhs.idx() < i,
            _ => true,
        }
}

/// Expression `c` is an operand of expression `p`: a side of a binary operator or the
/// inside of parentheses.
pub open spec fn operand_of(exprs: Seq<Expr>, p: int, c: int) -> bool {
    0 <= p < exprs.len() && match exprs[p].term {
        ExprTerm::Binary(b) => c == b.lhs.idx() || c == b.rhs.idx(),
        ExprTerm::Paren(q) => c == q.inner.idx(),
        _ => false,
    }
}

/// Each expression of `path` after the first is an operand of the one before it.
pub open spec fn operand_path(exprs: Seq<Expr>, path: Seq<int>) -> bool {
    &&& path.len() > 0
    &&& forall|k: int| 1 <= k < path.len() ==> operand_of(exprs, path[k - 1], #[trigger] path[k])
}

/// Expression `j` lies within expression `id`: `id` itself, or reached from it
/// through operands.
pub open spec fn within(exprs: Seq<Expr>, id: int, j: int) -> bool {
    exists|path: Seq<int>| #[trigger] operand_path(exprs, path) && path[0] == id && path.last() == j
}

/// Every id that a node holds names a node of its arena.
pub open spec fn links_wf(
    types: Seq<TypeDef>,
    lets: Seq<LetMember>,
    defs: Seq<DefMember>,
    exprs: Seq<Expr>,
    tests: Seq<TestDef>,
    relations: Seq<Relation>,
    subjects: Seq<Subject>,
    asserts: Seq<Assert>,
) -> bool {
    &&& forall|i: int| 0 <= i < types.len() ==> (#[trigger] types[i]).lets.wf() && types[i].lets.hi() <= lets.len()
    &&& forall|i: int| 0 <= i < types.len() ==> (#[trigger] types[i]).defs.wf() && types[i].defs.hi() <= defs.len()
    &&& forall|i: int| 0 <= i < lets.len() ==> (#[trigger] lets[i]).expr.idx() < exprs.len()
    &&& forall|i: int| 0 <= i < defs.len() ==> (#[trigger] defs[i]).expr.idx() < exprs.len()
    &&& expr_children_before(exprs)
    &&& forall|i: int| 0 <= i < tests.len() ==> (#[trigger] tests[i]).relations.wf() && tests[i].relations.hi() <= relations.len()
    &&& forall|i: int| 0 <= i < tests.len() ==> (#[trigger] tests[i]).asserts.wf() && tests[i].asserts.hi() <= asserts.len()
    &&& forall|i: int| 0 <= i < relations.len() ==> (#[trigger] relations[i]).subject.idx() < subjects.len()
}

/// The member ranges of the types come one after another: each type's lets and defs
/// end before those of any later type begin.
pub open spec fn ranges_ordered(types: Seq<TypeDef>) -> bool {
    forall|i: int, j: int|
        0 <= i < j < types.len() ==> (#[trigger] types[i]).lets.hi() <= (#[trigger] types[j]).lets.lo()
            && types[i].defs.hi() <= types[j].defs.lo()
}

pub open spec fn instance_fits(inst: Instance, src: Seq<u8>) -> bool {
    inst.ty.fits(src) && inst.ident.fits(src)
}

pub open spec fn term_fits(t: ExprTerm, src: Seq<u8>) -> bool {
    match t {
        ExprTerm::SelfRef(e) => e.span.fits(src),
        ExprTerm::Traversal(e) => e.relation.fits(src) && e.permission.fits(src),
        ExprTerm::TypeRef(e) => e.span.fits(src),
        ExprTerm::UsersetTypeRef(e) => e.ty.fits(src) && e.member.fits(src),
        _ => true,
    }
}

/// Every span of every node lies within `src`; names, references and instance
/// parts lie on character boundaries, so their text can be taken.
pub open spec fn spans_fit(
    types: Seq<TypeDef>,
    lets: Seq<LetMember>,
    defs: Seq<DefMember>,
    exprs: Seq<Expr>,
    tests: Seq<TestDef>,
    relations: Seq<Relation>,
    subjects: Seq<Subject>,
    asserts: Seq<Assert>,
    src: Seq<u8>,
) -> bool {
    &&& forall|i: int| 0 <= i < types.len() ==> (#[trigger] types[i]).span.within(src) && types[i].name.fits(src)
    &&& forall|i: int| 0 <= i < lets.len() ==> (#[trigger] lets[i]).span.within(src) && lets[i].name.fits(src)
    &&& forall|i: int| 0 <= i < defs.len() ==> (#[trigger] defs[i]).span.within(src) && defs[i].name.fits(src)
    &&& forall|i: int| 0 <= i < exprs.len() ==> (#[trigger] exprs[i]).span.within(src) && term_fits(exprs[i].term, src)
    &&& forall|i: int| 0 <= i < tests.len() ==> (#[trigger] tests[i]).span.within(src) && tests[i].name.fits(src)
    &&& forall|i: int| 0 <= i < relations.len() ==> (#[trigger] relations[i]).span.within(src) && relations[i].relation.fits(src) && instance_fits(relations[i].resource, src)
    &&& forall|i: int| 0 <= i < subjects.len() ==> (#[trigger] subjects[i]).span.within(src) && instance_fits(subjects[i].instance, src) && (subjects[i].permission matches Some(p) ==> p.fits(src))
    &&& forall|i: int| 0 <= i < asserts.len() ==> (#[trigger] asserts[i]).span.within(src) && asserts[i].permission.fits(src) && instance_fits(asserts[i].resource, src) && instance_fits(asserts[i].actor, src)
}

/// The syntax tree of a source file, stored as one arena per node kind.
#[derive(Debug, Clone)]
pub struct Ast {
    pub(crate) types: TypeDefPool,
    pub(crate) lets: LetMemberPool,
    pub(crate) defs: DefMemberPool,
    pub(crate) exprs: ExprPool,
    pub(crate) tests: TestDefPool,
    pub(crate) relations: RelationPool,
    pub(crate) subjects: SubjectPool,
    pub(crate) asserts: AssertPool,
}

impl Ast {
    pub open(crate) spec fn type_nodes(&self) -> Seq<TypeDef> {
        self.types.nodes()
    }

    pub open(crate) spec fn let_nodes(&self) -> Seq<LetMember> {
        self.lets.nodes()
    }

    pub open(crate) spec fn def_nodes(&self) -> Seq<DefMember> {
        self.defs.nodes()
    }

    pub open(crate) spec fn expr_nodes(&self) -> Seq<Expr> {
        self.exprs.nodes()
    }

    pub open(crate) spec fn test_nodes(&self) -> Seq<TestDef> {
        self.tests.nodes()
    }

    pub open(crate) spec fn relation_nodes(&self) -> Seq<Relation> {
        self.relations.nodes()
    }

    pub open(crate) spec fn subject_nodes(&self) -> Seq<Subject> {
        self.subjects.nodes()
    }

    pub open(crate) spec fn assert_nodes(&self) -> Seq<Assert> {
        self.asserts.nodes()
    }

    /// Every id held by a node names a node.
    pub open(crate) spec fn wf(&self) -> bool {
        links_wf(
            self.type_nodes(),
            self.let_nodes(),
            self.def_nodes(),
            self.expr_nodes(),
            self.test_nodes(),
            self.relation_nodes(),
            self.subject_nodes(),
            self.assert_nodes(),
        )
    }

    /// Every span lies within `src` on character boundaries.
    pub open(crate) spec fn fits(&self, src: Seq<u8>) -> bool {
        spans_fit(
            self.type_nodes(),
            self.let_nodes(),
            self.def_nodes(),
            self.expr_nodes(),
            self.test_nodes(),
            self.relation_nodes(),
            self.subject_nodes(),
            self.assert_nodes(),
            src,
        )
    }

    /// The member ranges of the types are ordered as the types are.
    pub open(crate) spec fn ordered(&self) -> bool {
        ranges_ordered(self.type_nodes())
    }

    /// The number of nodes of all kinds.
    pub open(crate) spec fn node_count(&self) -> nat {
        self.type_nodes().len() + self.let_nodes().len() + self.def_nodes().len()
            + self.expr_nodes().len() + self.test_nodes().len() + self.relation_nodes().len()
            + self.subject_nodes().len() + self.assert_nodes().len()
    }

    pub fn types(&self) -> (r: &TypeDefPool)
        ensures
            r.nodes() == self.type_nodes(),
    {
        &self.types
    }

    /// All type definitions, in source order.
    pub fn iter_types(&self) -> (r: Vec<TypeDef>)
        ensures
            r@ == self.type_nodes(),
    {
        let mut out: Vec<TypeDef> = Vec::new();
        let mut i: usize = 0;
        while i < self.types.len()
            invariant
                i <= self.type_nodes().len(),
                out@ == self.type_nodes().subrange(0, i as int),
            decreases self.type_nodes().len() - i,
        {
            out.push(self.types.items[i]);
            i = i + 1;
            assert(out@ =~= self.type_nodes().subrange(0, i as int));
        }
        assert(out@ =~= self.type_nodes());
        out
    }

    pub fn lets(&self) -> (r: &LetMemberPool)
        ensures
            r.nodes() == self.let_nodes(),
    {
        &self.lets
    }

    pub fn defs(&self) -> (r: &DefMemberPool)
        ensures
            r.nodes() == self.def_nodes(),
    {
        &self.defs
    }

    pub fn exprs(&self) -> (r: &ExprPool)
        ensures
            r.nodes() == self.expr_nodes(),
    {
        &self.exprs
    }

    pub fn tests(&self) -> (r: &TestDefPool)
        ensures
            r.nodes() == self.test_nodes(),
    {
        &self.tests
    }

    /// All test definitions, in source order.
    pub fn iter_tests(&self) -> (r: Vec<TestDef>)
        ensures
            r@ == self.test_nodes(),
    {
        let mut out: Vec<TestDef> = Vec::new();
        let mut i: usize = 0;
        while i < self.tests.len()
            invariant
                i <= self.test_nodes().len(),
                out@ == self.test_nodes().subrange(0, i as int),
            decreases self.test_nodes().len() - i,
        {
            out.push(self.tests.items[i]);
            i = i + 1;
            assert(out@ =~= self.test_nodes().subrange(0, i as int));
        }
        assert(out@ =~= self.test_nodes());
        out
    }

    pub fn relations(&self) -> (r: &RelationPool)
        ensures
            r.nodes() == self.relation_nodes(),
    {
        &self.relations
    }

    pub fn subjects(&self) -> (r: &SubjectPool)
        ensures
            r.nodes() == self.subject_nodes(),
    {
        &self.subjects
    }

    pub fn asserts(&self) -> (r: &AssertPool)
        ensures
            r.nodes() == self.assert_nodes(),
    {
        &self.asserts
    }
}

/// Builds an [`Ast`] by appending nodes to its arenas.
#[derive(Debug)]
pub struct AstBuilder {
    pub types: TypeDefPoolBuilder,
    pub lets: LetMemberPoolBuilder,
    pub defs: DefMemberPoolBuilder,
    pub exprs: ExprPoolBuilder,
    pub tests: TestDefPoolBuilder,
    pub relations: RelationPoolBuilder,
    pub subjects: SubjectPoolBuilder,
    pub asserts: AssertPoolBuilder,
}

impl AstBuilder {
    pub open spec fn node_count(&self) -> nat {
        self.types.nodes().len() + self.lets.nodes().len() + self.defs.nodes().len()
            + self.exprs.nodes().len() + self.tests.nodes().len() + self.relations.nodes().len()
            + self.subjects.nodes().len() + self.asserts.nodes().len()
    }

    pub open spec fn wf(&self) -> bool {
        links_wf(
            self.types.nodes(),
            self.lets.nodes(),
            self.defs.nodes(),
            self.exprs.nodes(),
            self.tests.nodes(),
            self.relations.nodes(),
            self.subjects.nodes(),
            self.asserts.nodes(),
        )
    }

    pub open spec fn fits(&self, src: Seq<u8>) -> bool {
        spans_fit(
            self.types.nodes(),
            self.lets.nodes(),
            self.defs.nodes(),
            self.exprs.nodes(),
            self.tests.nodes(),
            self.relations.nodes(),
            self.subjects.nodes(),
            self.asserts.nodes(),
            src,
        )
    }

    pub fn new() -> (b: AstBuilder)
        ensures
            b.node_count() == 0,
            b.types.nodes().len() == 0,
            b.lets.nodes().len() == 0,
            b.defs.nodes().len() == 0,
            b.exprs.nodes().len() == 0,
            b.tests.nodes().len() == 0,
            b.relations.nodes().len() == 0,
            b.subjects.nodes().len() == 0,
            b.asserts.nodes().len() == 0,
    {
        AstBuilder {
            types: PoolBuilder::new(),
            lets: PoolBuilder::new(),
            defs: PoolBuilder::new(),
            exprs: PoolBuilder::new(),
            tests: PoolBuilder::new(),
            relations: PoolBuilder::new(),
            subjects: PoolBuilder::new(),
            asserts: PoolBuilder::new(),
        }
    }

    pub fn type_def(&mut self, span: Span, name: Span, lets: LetMemberRange, defs: DefMemberRange) -> (id: TypeDefId)
        requires
            old(self).types.nodes().len() < u32::MAX,
        ensures
            final(self).types.nodes() == old(self).types.nodes().push(TypeDef { span, name, lets, defs }),
            final(self).lets == old(self).lets,
            final(self).defs == old(self).defs,
            final(self).exprs == old(self).exprs,
            final(self).tests == old(self).tests,
            final(self).relations == old(self).relations,
            final(self).subjects == old(self).subjects,
            final(self).asserts == old(self).asserts,
            id.idx() == old(self).types.nodes().len(),
            old(self).wf() && lets.wf() && lets.hi() <= old(self).lets.nodes().len() && defs.wf()
                && defs.hi() <= old(self).defs.nodes().len() ==> final(self).wf(),
            forall|src: Seq<u8>| old(self).fits(src) && span.within(src) && name.fits(src) ==> #[trigger] final(self).fits(src),
    {
        self.types.push(TypeDef { span, name, lets, defs })
    }

    pub fn let_member(&mut self, span: Span, name: Span, expr: ExprId) -> (id: LetMemberId)
        requires
            old(self).lets.nodes().len() < u32::MAX,
        ensures
            final(self).lets.nodes() == old(self).lets.nodes().push(LetMember { span, name, expr }),
            final(self).types == old(self).types,
            final(self).defs == old(self).defs,
            final(self).exprs == old(self).exprs,
            final(self).tests == old(self).tests,
            final(self).relations == old(self).relations,
            final(self).subjects == old(self).subjects,
            final(self).asserts == old(self).asserts,
            id.idx() == old(self).lets.nodes().len(),
            old(self).wf() && expr.idx() < old(self).exprs.nodes().len() ==> final(self).wf(),
            forall|src: Seq<u8>| old(self).fits(src) && span.within(src) && name.fits(src) ==> #[trigger] final(self).fits(src),
    {
        self.lets.push(LetMember { span, name, expr })
    }

    pub fn def_member(&mut self, span: Span, name: Span, expr: ExprId) -> (id: DefMemberId)
        requires
            old(self).defs.nodes().len() < u32::MAX,
        ensures
            final(self).defs.nodes() == old(self).defs.nodes().push(DefMember { span, name, expr }),
            final(self).types == old(self).types,
            final(self).lets == old(self).lets,
            final(self).exprs == old(self).exprs,
            final(self).tests == old(self).tests,
            final(self).relations == old(self).relations,
            final(self).subjects == old(self).subjects,
            final(self).asserts == old(self).asserts,
            id.idx() == old(self).defs.nodes().len(),
            old(self).wf() && expr.idx() < old(self).exprs.nodes().len() ==> final(self).wf(),
            forall|src: Seq<u8>| old(self).fits(src) && span.within(src) && name.fits(src) ==> #[trigger] final(self).fits(src),
    {
        self.defs.push(DefMember { span, name, expr })
    }

    pub fn expr(&mut self, span: Span, term: ExprTerm) -> (id: ExprId)
        requires
            old(self).exprs.nodes().len() < u32::MAX,
        ensures
            final(self).exprs.nodes() == old(self).exprs.nodes().push(Expr { span, term }),
            final(self).types == old(self).types,
            final(self).lets == old(self).lets,
            final(self).defs == old(self).defs,
            final(self).tests == old(self).tests,
            final(self).relations == old(self).relations,
            final(self).subjects == old(self).subjects,
            final(self).asserts == old(self).asserts,
            id.idx() == old(self).exprs.nodes().len(),
    {
        self.exprs.push(Expr { span, term })
    }

    pub fn test_def(&mut self, span: Span, name: Span, relations: RelationRange, asserts: AssertRange) -> (id: TestDefId)
        requires
            old(self).tests.nodes().len() < u32::MAX,
        ensures
            final(self).tests.nodes() == old(self).tests.nodes().push(TestDef { span, name, relations, asserts }),
            final(self).types == old(self).types,
            final(self).lets == old(self).lets,
            final(self).defs == old(self).defs,
            final(self).exprs == old(self).exprs,
            final(self).relations == old(self).relations,
            final(self).subjects == old(self).subjects,
            final(self).asserts == old(self).asserts,
            id.idx() == old(self).tests.nodes().len(),
            old(self).wf() && relations.wf() && relations.hi() <= old(self).relations.nodes().len() && asserts.wf()
                && asserts.hi() <= old(self).asserts.nodes().len() ==> final(self).wf(),
            forall|src: Seq<u8>| old(self).fits(src) && span.within(src) && name.fits(src) ==> #[trigger] final(self).fits(src),
    {
        self.tests.push(TestDef { span, name, relations, asserts })
    }

    pub fn relation(&mut self, span: Span, resource: Instance, relation: Span, subject: SubjectId) -> (id: RelationId)
        requires
            old(self).relations.nodes().len() < u32::MAX,
        ensures
            final(self).relations.nodes() == old(self).relations.nodes().push(Relation { span, resource, relation, subject }),
            final(self).types == old(self).types,
            final(self).lets == old(self).lets,
            final(self).defs == old(self).defs,
            final(self).exprs == old(self).exprs,
            final(self).tests == old(self).tests,
            final(self).subjects == old(self).subjects,
            final(self).asserts == old(self).asserts,
            id.idx() == old(self).relations.nodes().len(),
            old(self).wf() && subject.idx() < old(self).subjects.nodes().len() ==> final(self).wf(),
            forall|src: Seq<u8>| old(self).fits(src) && span.within(src) && relation.fits(src) && instance_fits(resource, src) ==> #[trigger] final(self).fits(src),
    {
        self.relations.push(Relation { span, resource, relation, subject })
    }

    pub fn assertion(&mut self, span: Span, kind: AssertionKind, resource: Instance, permission: Span, actor: Instance) -> (id: AssertId)
        requires
            old(self).asserts.nodes().len() < u32::MAX,
        ensures
            final(self).asserts.nodes() == old(self).asserts.nodes().push(Assert { span, kind, resource, permission, actor }),
            final(self).types == old(self).types,
            final(self).lets == old(self).lets,
            final(self).defs == old(self).defs,
            final(self).exprs == old(self).exprs,
            final(self).tests == old(self).tests,
            final(self).relations == old(self).relations,
            final(self).subjects == old(self).subjects,
            id.idx() == old(self).asserts.nodes().len(),
            old(self).wf() ==> final(self).wf(),
            forall|src: Seq<u8>| old(self).fits(src) && span.within(src) && permission.fits(src) && instance_fits(resource, src)
                && instance_fits(actor, src) ==> #[trigger] final(self).fits(src),
    {
        self.asserts.push(Assert { span, kind, resource, permission, actor })
    }

    pub fn subject(&mut self, span: Span, instance: Instance, permission: Option<Span>) -> (id: SubjectId)
        requires
            old(self).subjects.nodes().len() < u32::MAX,
        ensures
            final(self).subjects.nodes() == old(self).subjects.nodes().push(Subject { span, instance, permission }),
            final(self).types == old(self).types,
            final(self).lets == old(self).lets,
            final(self).defs == old(self).defs,
            final(self).exprs == old(self).exprs,
            final(self).tests == old(self).tests,
            final(self).relations == old(self).relations,
            final(self).asserts == old(self).asserts,
            id.idx() == old(self).subjects.nodes().len(),
            old(self).wf() ==> final(self).wf(),
            forall|src: Seq<u8>| old(self).fits(src) && span.within(src) && instance_fits(instance, src)
                && (permission matches Some(p) ==> p.fits(src)) ==> #[trigger] final(self).fits(src),
    {
        self.subjects.push(Subject { span, instance, permission })
    }

    pub fn finish(self) -> (ast: Ast)
        ensures
            ast.type_nodes() == self.types.nodes(),
            ast.let_nodes() == self.lets.nodes(),
            ast.def_nodes() == self.defs.nodes(),
            ast.expr_nodes() == self.exprs.nodes(),
            ast.test_nodes() == self.tests.nodes(),
            ast.relation_nodes() == self.relations.nodes(),
            ast.subject_nodes() == self.subjects.nodes(),
            ast.assert_nodes() == self.asserts.nodes(),
    {
        Ast {
            types: self.types.finish(),
            lets: self.lets.finish(),
            defs: self.defs.finish(),
            exprs: self.exprs.finish(),
            tests: self.tests.finish(),
            relations: self.relations.finish(),
            subjects: self.subjects.finish(),
            asserts: self.asserts.finish(),
        }
    }
}

impl Instance {
    pub fn new(ty: Span, ident: Span) -> (r: Instance)
        ensures
            r == (Instance { ty, ident }),
    {
        Instance { ty, ident }
    }

    pub fn ty(&self) -> (r: Span)
        ensures
            r == self.ty,
    {
        self.ty
    }

    pub fn ident(&self) -> (r: Span)
        ensures
            r == self.ident,
    {
        self.ident
    }
}

} // verus!
