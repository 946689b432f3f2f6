//! The intermediate representation that a checked schema is exported to.
use vstd::prelude::*;
use vstd::string::*;

verus! {

/// A schema: its type definitions, in source order.
#[derive(Debug, PartialEq)]
pub struct Schema {
    pub types: Vec<TypeDefinition>,
}

/// A type with its relations and permissions, in source order.
#[derive(Debug, PartialEq)]
pub struct TypeDefinition {
    pub name: String,
    pub relations: Vec<Relation>,
    pub permissions: Vec<Permission>,
}

/// A stored relation and the actor types it may hold.
#[derive(Debug, PartialEq)]
pub struct Relation {
    pub name: String,
    pub actors: Vec<ActorType>,
}

/// A computed permission and its expression.
#[derive(Debug, PartialEq)]
pub struct Permission {
    pub name: String,
    pub expr: Option<Expression>,
}

/// An actor type a relation may hold: `type` or `type::member`.
#[derive(Debug, PartialEq)]
pub struct ActorType {
    pub actor: Option<Actor>,
}

#[derive(Debug, PartialEq)]
pub enum Actor {
    Direct(String),
    Userset(UsersetType),
}

/// `ty::member`: the holders of relation `member` of an object of type `ty`.
#[derive(Debug, PartialEq)]
pub struct UsersetType {
    pub ty: String,
    pub member: String,
}

/// A permission expression.
#[derive(Debug, PartialEq)]
pub struct Expression {
    pub kind: Option<Kind>,
}

#[derive(Debug, PartialEq)]
pub enum Kind {
    Union(UnionExpr),
    Intersection(IntersectionExpr),
    Difference(Box<DifferenceExpr>),
    Term(TermExpr),
}

#[derive(Debug, PartialEq)]
pub struct UnionExpr {
    pub terms: Vec<Expression>,
}

#[derive(Debug, PartialEq)]
pub struct IntersectionExpr {
    pub terms: Vec<Expression>,
}

#[derive(Debug, PartialEq)]
pub struct DifferenceExpr {
    pub lhs: Option<Box<Expression>>,
    pub rhs: Option<Box<Expression>>,
}

#[derive(Debug, PartialEq)]
pub struct TermExpr {
    pub term: Option<Term>,
}

#[derive(Debug, PartialEq)]
pub enum Term {
    SelfRef(SelfRef),
    Traversal(Traversal),
}

/// `.relation`.
#[derive(Debug, PartialEq)]
pub struct SelfRef {
    pub relation: String,
}

/// `.relation.permission`.
#[derive(Debug, PartialEq)]
pub struct Traversal {
    pub relation: String,
    pub permission: String,
}

/// An actor type as plain values.
pub enum ActorView {
    Missing,
    Direct(Seq<char>),
    Userset(Seq<char>, Seq<char>),
}

/// A relation as plain values: its name and actor types.
pub struct RelationView {
    pub name: Seq<char>,
    pub actors: Seq<ActorView>,
}

/// A permission as plain values: its name and expression.
pub struct PermissionView {
    pub name: Seq<char>,
    pub expr: Option<ExprView>,
}

/// A type definition as plain values.
pub struct TypeView {
    pub name: Seq<char>,
    pub relations: Seq<RelationView>,
    pub permissions: Seq<PermissionView>,
}

/// An expression as plain values.
pub enum ExprView {
    Missing,
    SelfRef(Seq<char>),
    Traversal(Seq<char>, Seq<char>),
    Union(Seq<ExprView>),
    Intersection(Seq<ExprView>),
    Difference(Option<Box<ExprView>>, Option<Box<ExprView>>),
    EmptyTerm,
}

/// The set of subjects an expression grants, given the set that each `.relation`
/// term (`rel`) and each `.relation.permission` term (`trav`) grants: a union grants
/// what any operand grants, an intersection what every operand grants, a difference
/// what its first operand grants and its second does not; anything incomplete grants
/// nothing.
pub open spec fn denote(
    v: ExprView,
    rel: spec_fn(Seq<char>) -> Set<int>,
    trav: spec_fn(Seq<char>, Seq<char>) -> Set<int>,
) -> Set<int>
    decreases v,
{
    match v {
        ExprView::SelfRef(r) => rel(r),
        ExprView::Traversal(r, p) => trav(r, p),
        ExprView::Union(ts) => denote_any(ts, rel, trav),
        ExprView::Intersection(ts) => denote_every(ts, rel, trav),
        ExprView::Difference(Some(a), Some(b)) => denote(*a, rel, trav).difference(denote(*b, rel, trav)),
        _ => Set::empty(),
    }
}

/// What any of the operands `ts` grants.
pub open spec fn denote_any(
    ts: Seq<ExprView>,
    rel: spec_fn(Seq<char>) -> Set<int>,
    trav: spec_fn(Seq<char>, Seq<char>) -> Set<int>,
) -> Set<int>
    decreases ts,
{
    if ts.len() == 0 {
        Set::empty()
    } else {
        denote_any(ts.drop_last(), rel, trav).union(denote(ts.last(), rel, trav))
    }
}

/// What every one of the operands `ts` grants.
pub open spec fn denote_every(
    ts: Seq<ExprView>,
    rel: spec_fn(Seq<char>) -> Set<int>,
    trav: spec_fn(Seq<char>, Seq<char>) -> Set<int>,
) -> Set<int>
    decreases ts,
{
    if ts.len() == 0 {
        Set::full()
    } else {
        denote_every(ts.drop_last(), rel, trav).intersect(denote(ts.last(), rel, trav))
    }
}

/// What a concatenation of operands grants as a union is what either part grants.
pub proof fn lemma_denote_any_concat(
    a: Seq<ExprView>,
    b: Seq<ExprView>,
    rel: spec_fn(Seq<char>) -> Set<int>,
    trav: spec_fn(Seq<char>, Seq<char>) -> Set<int>,
)
    ensures
        denote_any(a + b, rel, trav) == denote_any(a, rel, trav).union(denote_any(b, rel, trav)),
    decreases b.len(),
{
    if b.len() == 0 {
        assert(a + b =~= a);
        assert(denote_any(a, rel, trav).union(Set::empty()) =~= denote_any(a, rel, trav));
    } else {
        lemma_denote_any_concat(a, b.drop_last(), rel, trav);
        assert((a + b).drop_last() =~= a + b.drop_last());
        assert((a + b).last() == b.last());
        assert(denote_any(a + b, rel, trav) =~= denote_any(a, rel, trav).union(denote_any(b, rel, trav)));
    }
}

/// What a concatenation of operands grants as an intersection is what both parts grant.
pub proof fn lemma_denote_every_concat(
    a: Seq<ExprView>,
    b: Seq<ExprView>,
    rel: spec_fn(Seq<char>) -> Set<int>,
    trav: spec_fn(Seq<char>, Seq<char>) -> Set<int>,
)
    ensures
        denote_every(a + b, rel, trav) == denote_every(a, rel, trav).intersect(denote_every(b, rel, trav)),
    decreases b.len(),
{
    if b.len() == 0 {
        assert(a + b =~= a);
        assert(denote_every(a, rel, trav).intersect(Set::full()) =~= denote_every(a, rel, trav));
    } else {
        lemma_denote_every_concat(a, b.drop_last(), rel, trav);
        assert((a + b).drop_last() =~= a + b.drop_last());
        assert((a + b).last() == b.last());
        assert(denote_every(a + b, rel, trav) =~= denote_every(a, rel, trav).intersect(denote_every(b, rel, trav)));
    }
}

/// The views of a sequence of expressions.
pub open spec fn deep_terms(terms: Seq<Expression>) -> Seq<ExprView>
    decreases terms,
{
    if terms.len() == 0 {
        Seq::empty()
    } else {
        deep_terms(terms.drop_last()).push(terms.last().deep())
    }
}

impl Expression {
    /// The expression as plain values.
    pub open spec fn deep(&self) -> ExprView
        decreases self,
    {
        match self.kind {
            None => ExprView::Missing,
            Some(Kind::Term(t)) => match t.term {
                None => ExprView::EmptyTerm,
                Some(Term::SelfRef(s)) => ExprView::SelfRef(s.relation@),
                Some(Term::Traversal(t)) => ExprView::Traversal(t.relation@, t.permission@),
            },
            Some(Kind::Union(u)) => ExprView::Union(deep_terms(u.terms@)),
            Some(Kind::Intersection(u)) => ExprView::Intersection(deep_terms(u.terms@)),
            Some(Kind::Difference(d)) => ExprView::Difference(
                match d.lhs {
                    Some(l) => Some(Box::new(l.deep())),
                    None => None,
                },
                match d.rhs {
                    Some(r) => Some(Box::new(r.deep())),
                    None => None,
                },
            ),
        }
    }
}

/// Each view of `deep_terms` is the view of the expression at the same position.
pub proof fn lemma_deep_terms(terms: Seq<Expression>)
    ensures
        deep_terms(terms).len() == terms.len(),
        forall|i: int| 0 <= i < terms.len() ==> #[trigger] deep_terms(terms)[i] == terms[i].deep(),
    decreases terms.len(),
{
    if terms.len() > 0 {
        lemma_deep_terms(terms.drop_last());
    }
}

/// The views of a concatenation are the concatenation of the views.
pub proof fn lemma_deep_terms_concat(a: Seq<Expression>, b: Seq<Expression>)
    ensures
        deep_terms(a + b) == deep_terms(a) + deep_terms(b),
{
    lemma_deep_terms(a);
    lemma_deep_terms(b);
    lemma_deep_terms(a + b);
    assert(deep_terms(a + b) =~= deep_terms(a) + deep_terms(b));
}

impl ActorType {
    pub open spec fn deep(&self) -> ActorView {
        match self.actor {
            None => ActorView::Missing,
            Some(Actor::Direct(s)) => ActorView::Direct(s@),
            Some(Actor::Userset(u)) => ActorView::Userset(u.ty@, u.member@),
        }
    }

    /// The actor type `name`.
    pub fn direct(name: &str) -> (r: ActorType)
        ensures
            r.deep() == ActorView::Direct(name@),
    {
        ActorType { actor: Some(Actor::Direct(String::from_str(name))) }
    }

    /// The actor type `ty::member`.
    pub fn userset(ty: &str, member: &str) -> (r: ActorType)
        ensures
            r.deep() == ActorView::Userset(ty@, member@),
    {
        ActorType { actor: Some(Actor::Userset(UsersetType { ty: String::from_str(ty), member: String::from_str(member) })) }
    }
}

impl Expression {
    /// `.relation`.
    pub fn self_ref(relation: &str) -> (r: Expression)
        ensures
            r.deep() == ExprView::SelfRef(relation@),
    {
        Expression { kind: Some(Kind::Term(TermExpr { term: Some(Term::SelfRef(SelfRef { relation: String::from_str(relation) })) })) }
    }

    /// `.relation.permission`.
    pub fn traversal(relation: &str, permission: &str) -> (r: Expression)
        ensures
            r.deep() == ExprView::Traversal(relation@, permission@),
    {
        Expression {
            kind: Some(Kind::Term(TermExpr {
                term: Some(Term::Traversal(Traversal { relation: String::from_str(relation), permission: String::from_str(permission) })),
            })),
        }
    }

    /// The union of `terms`.
    pub fn union(terms: Vec<Expression>) -> (r: Expression)
        ensures
            r.deep() == ExprView::Union(deep_terms(terms@)),
    {
        Expression { kind: Some(Kind::Union(UnionExpr { terms })) }
    }

    /// The intersection of `terms`.
    pub fn intersection(terms: Vec<Expression>) -> (r: Expression)
        ensures
            r.deep() == ExprView::Intersection(deep_terms(terms@)),
    {
        Expression { kind: Some(Kind::Intersection(IntersectionExpr { terms })) }
    }

    /// `lhs` without `rhs`.
    pub fn difference(lhs: Expression, rhs: Expression) -> (r: Expression)
        ensures
            r.deep() == ExprView::Difference(Some(Box::new(lhs.deep())), Some(Box::new(rhs.deep()))),
    {
        Expression { kind: Some(Kind::Difference(Box::new(DifferenceExpr { lhs: Some(Box::new(lhs)), rhs: Some(Box::new(rhs)) }))) }
    }
}

impl Relation {
    pub open spec fn deep(&self) -> RelationView {
        RelationView { name: self.name@, actors: self.actors@.map_values(|a: ActorType| a.deep()) }
    }

    pub fn new(name: &str, actors: Vec<ActorType>) -> (r: Relation)
        ensures
            r.deep() == (RelationView { name: name@, actors: actors@.map_values(|a: ActorType| a.deep()) }),
    {
        Relation { name: String::from_str(name), actors }
    }
}

impl Permission {
    pub open spec fn deep(&self) -> PermissionView {
        PermissionView {
            name: self.name@,
            expr: match self.expr {
                Some(e) => Some(e.deep()),
                None => None,
            },
        }
    }

    pub fn new(name: &str, expr: Option<Expression>) -> (r: Permission)
        ensures
            r.deep() == (PermissionView {
                name: name@,
                expr: match expr {
                    Some(e) => Some(e.deep()),
                    None => None,
                },
            }),
    {
        Permission { name: String::from_str(name), expr }
    }
}

impl TypeDefinition {
    pub open spec fn deep(&self) -> TypeView {
        TypeView {
            name: self.name@,
            relations: self.relations@.map_values(|r: Relation| r.deep()),
            permissions: self.permissions@.map_values(|p: Permission| p.deep()),
        }
    }

    /// A type with no relations and no permissions yet; the capacities only reserve room.
    pub fn with_capacity(name: &str, relation_capacity: usize, permission_capacity: usize) -> (r: TypeDefinition)
        ensures
            r.deep().name == name@,
            r.deep().relations.len() == 0,
            r.deep().permissions.len() == 0,
    {
        TypeDefinition {
            name: String::from_str(name),
            relations: Vec::with_capacity(relation_capacity),
            permissions: Vec::with_capacity(permission_capacity),
        }
    }
}

impl Schema {
    pub open spec fn deep(&self) -> Seq<TypeView> {
        self.types@.map_values(|t: TypeDefinition| t.deep())
    }

    pub fn new(types: Vec<TypeDefinition>) -> (r: Schema)
        ensures
            r.deep() == types@.map_values(|t: TypeDefinition| t.deep()),
    {
        Schema { types }
    }
}

} // verus!
