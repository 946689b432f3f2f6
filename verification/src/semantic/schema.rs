//! The result of a successful analysis: the declared types with their members.
use crate::ast::ExprId;
use crate::fx::{
    index_set, index_set_contains, index_set_elements, index_set_insert, index_set_new, member_table,
    member_table_keys, IndexSet, MemberTable,
};
use crate::interner::{lemma_position_unique, position};
use crate::semantic::index::{IndexModel, SemanticIndex};
use crate::semantic::{
    PermissionInterner, PermissionSymbol, RelationInterner, RelationSymbol, TypeInterner, TypeMarker, TypeSymbol,
};
use crate::span::Span;
use crate::symbols::{SymbolId, SymbolMap};
use vstd::prelude::*;

verus! {

/// The members of one type, by symbol.
pub struct TypeSchema {
    pub(crate) relations: IndexSet,
    pub(crate) permissions: IndexSet,
}

/// The content of a [`Schema`] as plain values: the type names by symbol, and for each
/// type the symbols of its relations and of its permissions.
pub struct SchemaModel {
    pub types: Seq<Seq<char>>,
    pub relations: Seq<Set<u32>>,
    pub permissions: Seq<Set<u32>>,
    pub relation_names: Seq<Seq<char>>,
    pub permission_names: Seq<Seq<char>>,
}

/// The schema that an index describes: each type with the names of its members.
pub open spec fn schema_of(m: IndexModel) -> SchemaModel {
    SchemaModel {
        types: m.types,
        relations: m.relations.map_values(|t: Map<u32, (Span, ExprId)>| t.dom()),
        permissions: m.permissions.map_values(|t: Map<u32, (Span, ExprId)>| t.dom()),
        relation_names: m.relation_names,
        permission_names: m.permission_names,
    }
}

/// A checked schema: its types, relations and permissions, each named by a symbol.
pub struct Schema<'src> {
    pub(crate) types: SymbolMap<TypeMarker, TypeSchema>,
    pub(crate) types_int: TypeInterner<'src>,
    pub(crate) relations_int: RelationInterner<'src>,
    pub(crate) permissions_int: PermissionInterner<'src>,
}

pub open(crate) spec fn relations_of_slot(o: Option<TypeSchema>) -> Set<u32> {
    match o {
        Some(t) => index_set(t.relations),
        None => Set::empty(),
    }
}

pub open(crate) spec fn permissions_of_slot(o: Option<TypeSchema>) -> Set<u32> {
    match o {
        Some(t) => index_set(t.permissions),
        None => Set::empty(),
    }
}

impl<'src> Schema<'src> {
    pub open(crate) spec fn model(&self) -> SchemaModel {
        SchemaModel {
            types: self.types_int.view(),
            relations: self.types.slots().map_values(|o: Option<TypeSchema>| relations_of_slot(o)),
            permissions: self.types.slots().map_values(|o: Option<TypeSchema>| permissions_of_slot(o)),
            relation_names: self.relations_int.view(),
            permission_names: self.permissions_int.view(),
        }
    }

    pub open(crate) spec fn wf(&self) -> bool {
        let n = self.types_int.view().len();
        &&& self.types_int.wf()
        &&& self.relations_int.wf()
        &&& self.permissions_int.wf()
        &&& self.types.wf()
        &&& self.types.slots().len() == n
        &&& forall|k: int| 0 <= k < n ==> (#[trigger] self.types.slots()[k]) is Some
        &&& forall|k: int, s: u32| 0 <= k < n && #[trigger] self.model().relations[k].contains(s) ==> s < self.relations_int.view().len()
        &&& forall|k: int, s: u32| 0 <= k < n && #[trigger] self.model().permissions[k].contains(s) ==> s < self.permissions_int.view().len()
    }

    /// Whether `name` is a type of the schema.
    pub fn has_type(&self, name: TypeSymbol) -> (r: bool)
        requires
            self.wf(),
        ensures
            r == (name.idx() < self.model().types.len()),
    {
        self.types.get(name).is_some()
    }

    /// Whether type `ty` has the relation `relation`.
    pub fn has_relation(&self, ty: TypeSymbol, relation: RelationSymbol) -> (r: bool)
        requires
            self.wf(),
        ensures
            r == (ty.idx() < self.model().types.len() && self.model().relations[ty.idx() as int].contains(relation.idx() as u32)),
    {
        match self.types.get(ty) {
            Some(t) => index_set_contains(&t.relations, relation.raw()),
            None => false,
        }
    }

    /// Whether type `ty` has the permission `permission`.
    pub fn has_permission(&self, ty: TypeSymbol, permission: PermissionSymbol) -> (r: bool)
        requires
            self.wf(),
        ensures
            r == (ty.idx() < self.model().types.len() && self.model().permissions[ty.idx() as int].contains(permission.idx() as u32)),
    {
        match self.types.get(ty) {
            Some(t) => index_set_contains(&t.permissions, permission.raw()),
            None => false,
        }
    }

    /// Whether type `ty` has a relation or a permission named `name`.
    pub fn has_member(&self, ty: TypeSymbol, name: &str) -> (r: bool)
        requires
            self.wf(),
        ensures
            r == (ty.idx() < self.model().types.len() && (
                (self.model().relation_names.contains(name@)
                    && self.model().relations[ty.idx() as int].contains(position(self.model().relation_names, name@) as u32))
                || (self.model().permission_names.contains(name@)
                    && self.model().permissions[ty.idx() as int].contains(position(self.model().permission_names, name@) as u32)))),
    {
        let has_rel = match self.relations_int.get(name) {
            Some(sym) => {
                proof {
                    lemma_position_unique(self.relations_int.view(), name@, sym.idx() as int);
                }
                self.has_relation(ty, sym)
            },
            None => false,
        };
        let has_perm = match self.permissions_int.get(name) {
            Some(sym) => {
                proof {
                    lemma_position_unique(self.permissions_int.view(), name@, sym.idx() as int);
                }
                self.has_permission(ty, sym)
            },
            None => false,
        };
        has_rel || has_perm
    }

    /// The types, in symbol order.
    pub fn types(&self) -> (r: Vec<TypeSymbol>)
        requires
            self.wf(),
        ensures
            r@.len() == self.model().types.len(),
            forall|k: int| 0 <= k < r@.len() ==> (#[trigger] r@[k]).idx() == k,
    {
        let keys = self.types.keys();
        proof {
            let n = self.model().types.len();
            assert forall|i: nat| #[trigger] below(i, n as int) implies exists|j: int| 0 <= j < keys@.len() && #[trigger] keys@[j].idx() == i by {
                assert(SymbolMap::<TypeMarker, TypeSchema>::lookup(self.types.slots(), i) is Some);
            }
            assert forall|k: int| 0 <= k < keys@.len() implies (#[trigger] keys@[k]).idx() == k by {
                lemma_sorted_dense(keys@, n as int, k);
            }
            if keys@.len() > n {
                assert(keys@[n as int].idx() == n);
                assert(SymbolMap::<TypeMarker, TypeSchema>::lookup(self.types.slots(), keys@[n as int].idx()) is Some);
            }
            if n > 0 && keys@.len() < n {
                assert(below((n - 1) as nat, n as int));
                let j = choose|j: int| 0 <= j < keys@.len() && #[trigger] keys@[j].idx() == (n - 1) as nat;
                assert(keys@[j].idx() == j);
            }
        }
        keys
    }

    /// The relations of type `ty`, each once, in an order that is left unstated.
    pub fn relations_of(&self, ty: TypeSymbol) -> (r: Vec<RelationSymbol>)
        requires
            self.wf(),
        ensures
            ty.idx() < self.model().types.len() ==> (forall|s: u32| self.model().relations[ty.idx() as int].contains(s)
                <==> exists|j: int| 0 <= j < r@.len() && (#[trigger] r@[j]).idx() == s),
            ty.idx() >= self.model().types.len() ==> r@.len() == 0,
            forall|i: int, j: int| 0 <= i < j < r@.len() ==> r@[i].idx() != r@[j].idx(),
    {
        match self.types.get(ty) {
            Some(t) => {
                proof {
                    assert(self.model().relations[ty.idx() as int] == index_set(t.relations));
                    assert forall|s: u32| #[trigger] index_set(t.relations).contains(s) implies s < self.relations_int.view().len() by {
                        assert(self.model().relations[ty.idx() as int].contains(s));
                    }
                }
                symbols_of(&t.relations, Ghost(self.relations_int.view().len()))
            },
            None => Vec::new(),
        }
    }

    /// The permissions of type `ty`, each once, in an order that is left unstated.
    pub fn permissions_of(&self, ty: TypeSymbol) -> (r: Vec<PermissionSymbol>)
        requires
            self.wf(),
        ensures
            ty.idx() < self.model().types.len() ==> (forall|s: u32| self.model().permissions[ty.idx() as int].contains(s)
                <==> exists|j: int| 0 <= j < r@.len() && (#[trigger] r@[j]).idx() == s),
            ty.idx() >= self.model().types.len() ==> r@.len() == 0,
            forall|i: int, j: int| 0 <= i < j < r@.len() ==> r@[i].idx() != r@[j].idx(),
    {
        match self.types.get(ty) {
            Some(t) => {
                proof {
                    assert(self.model().permissions[ty.idx() as int] == index_set(t.permissions));
                    assert forall|s: u32| #[trigger] index_set(t.permissions).contains(s) implies s < self.permissions_int.view().len() by {
                        assert(self.model().permissions[ty.idx() as int].contains(s));
                    }
                }
                symbols_of(&t.permissions, Ghost(self.permissions_int.view().len()))
            },
            None => Vec::new(),
        }
    }

    pub fn resolve_type_name(&self, sym: TypeSymbol) -> (r: &'src str)
        requires
            sym.idx() < self.model().types.len(),
        ensures
            r@ == self.model().types[sym.idx() as int],
    {
        self.types_int.resolve(sym)
    }

    pub fn resolve_relation_name(&self, sym: RelationSymbol) -> (r: &'src str)
        requires
            sym.idx() < self.model().relation_names.len(),
        ensures
            r@ == self.model().relation_names[sym.idx() as int],
    {
        self.relations_int.resolve(sym)
    }

    pub fn resolve_permission_name(&self, sym: PermissionSymbol) -> (r: &'src str)
        requires
            sym.idx() < self.model().permission_names.len(),
        ensures
            r@ == self.model().permission_names[sym.idx() as int],
    {
        self.permissions_int.resolve(sym)
    }

    pub fn types_interner(&self) -> (r: &TypeInterner<'src>)
        ensures
            r.view() == self.model().types,
    {
        &self.types_int
    }

    pub fn relations_interner(&self) -> (r: &RelationInterner<'src>)
        ensures
            r.view() == self.model().relation_names,
    {
        &self.relations_int
    }

    pub fn permissions_interner(&self) -> (r: &PermissionInterner<'src>)
        ensures
            r.view() == self.model().permission_names,
    {
        &self.permissions_int
    }
}

spec fn below(i: nat, n: int) -> bool {
    i < n
}

/// Strictly increasing indices that cover exactly `0..n` are `0, 1, ..., n - 1`.
proof fn lemma_sorted_dense<K>(keys: Seq<SymbolId<K>>, n: int, k: int)
    requires
        forall|a: int, b: int| 0 <= a < b < keys.len() ==> (#[trigger] keys[a]).idx() < (#[trigger] keys[b]).idx(),
        forall|j: int| 0 <= j < keys.len() ==> #[trigger] keys[j].idx() < n,
        forall|i: nat| #[trigger] below(i, n) ==> exists|j: int| 0 <= j < keys.len() && #[trigger] keys[j].idx() == i,
        0 <= k < keys.len(),
    ensures
        keys[k].idx() == k,
    decreases k,
{
    if k > 0 {
        lemma_sorted_dense(keys, n, k - 1);
        assert(keys[k - 1].idx() < keys[k].idx());
    }
    if keys[k].idx() > k {
        let target = k as nat;
        assert(below(target, n));
        let j = choose|j: int| 0 <= j < keys.len() && #[trigger] keys[j].idx() == target;
        if j > k {
            assert(keys[k].idx() < keys[j].idx());
        } else if j < k - 1 {
            assert(keys[j].idx() < keys[k - 1].idx());
        }
    }
}

/// The keys of a member table, as a set.
fn key_set(t: &MemberTable) -> (s: IndexSet)
    ensures
        index_set(s) == member_table(*t).dom(),
{
    let keys = member_table_keys(t);
    let mut s = index_set_new();
    let mut j: usize = 0;
    while j < keys.len()
        invariant
            j <= keys@.len(),
            forall|k: u32| #[trigger] keys@.contains(k) <==> member_table(*t).contains_key(k),
            forall|k: u32| #[trigger] index_set(s).contains(k) <==> exists|i: int| 0 <= i < j && keys@[i] == k,
        decreases keys@.len() - j,
    {
        let ghost before = index_set(s);
        index_set_insert(&mut s, keys[j]);
        proof {
            assert forall|k: u32| #[trigger] index_set(s).contains(k) <==> exists|i: int| 0 <= i < j + 1 && keys@[i] == k by {
                if k == keys@[j as int] {
                    assert(keys@[j as int] == k);
                }
                if exists|i: int| 0 <= i < j + 1 && keys@[i] == k {
                    let i = choose|i: int| 0 <= i < j + 1 && keys@[i] == k;
                    if i < j {
                        assert(before.contains(k));
                    }
                }
            }
        }
        j = j + 1;
    }
    proof {
        assert forall|k: u32| #[trigger] index_set(s).contains(k) <==> member_table(*t).dom().contains(k) by {
            if member_table(*t).contains_key(k) {
                assert(keys@.contains(k));
                let i = choose|i: int| 0 <= i < keys@.len() && keys@[i] == k;
                assert(exists|i: int| 0 <= i < j && keys@[i] == k);
            }
            if index_set(s).contains(k) {
                let i = choose|i: int| 0 <= i < j && keys@[i] == k;
                assert(keys@.contains(k));
            }
        }
        assert(index_set(s) =~= member_table(*t).dom());
    }
    s
}

impl<'src> SemanticIndex<'src> {
    /// The schema of the index: each declared type with the symbols of its members.
    pub fn into_schema(self) -> (s: Schema<'src>)
        requires
            self.wf(),
        ensures
            s.wf(),
            s.model() == schema_of(self.model()),
    {
        let ghost m = self.model();
        let mut types: SymbolMap<TypeMarker, TypeSchema> = SymbolMap::new();
        let n = self.members.names.len();
        let mut i: usize = 0;
        while i < n
            invariant
                i <= n == m.types.len() <= u32::MAX,
                self.wf(),
                m == self.model(),
                types.wf(),
                types.slots().len() == i,
                forall|k: int| 0 <= k < i ==> (#[trigger] types.slots()[k]) is Some,
                forall|k: int| 0 <= k < i ==> relations_of_slot(#[trigger] types.slots()[k]) == m.relations[k].dom(),
                forall|k: int| 0 <= k < i ==> permissions_of_slot(#[trigger] types.slots()[k]) == m.permissions[k].dom(),
            decreases n - i,
        {
            let relations = key_set(&self.members.relations[i]);
            let permissions = key_set(&self.members.permissions[i]);
            proof {
                assert(m.relations[i as int] == member_table(self.members.relations@[i as int]));
                assert(m.permissions[i as int] == member_table(self.members.permissions@[i as int]));
            }
            types.push_sequential(TypeSymbol::new(i as u32), TypeSchema { relations, permissions });
            i = i + 1;
        }
        let s = Schema { types, types_int: self.types, relations_int: self.relations, permissions_int: self.permissions };
        proof {
            assert(s.model().relations =~= schema_of(m).relations);
            assert(s.model().permissions =~= schema_of(m).permissions);
            assert forall|k: int, x: u32| 0 <= k < n && #[trigger] s.model().relations[k].contains(x) implies x < s.relations_int.view().len() by {
                assert(m.relations[k].contains_key(x));
            }
            assert forall|k: int, x: u32| 0 <= k < n && #[trigger] s.model().permissions[k].contains(x) implies x < s.permissions_int.view().len() by {
                assert(m.permissions[k].contains_key(x));
            }
        }
        s
    }
}

/// The symbols of a set, each once.
fn symbols_of<T>(set: &IndexSet, Ghost(bound): Ghost<nat>) -> (r: Vec<SymbolId<T>>)
    requires
        forall|s: u32| #[trigger] index_set(*set).contains(s) ==> s < bound,
        bound <= u32::MAX,
    ensures
        forall|s: u32| index_set(*set).contains(s) <==> exists|j: int| 0 <= j < r@.len() && (#[trigger] r@[j]).idx() == s,
        forall|i: int, j: int| 0 <= i < j < r@.len() ==> r@[i].idx() != r@[j].idx(),
{
    let elements = index_set_elements(set);
    let mut out: Vec<SymbolId<T>> = Vec::new();
    let mut i: usize = 0;
    while i < elements.len()
        invariant
            i <= elements@.len(),
            out@.len() == i,
            elements@.no_duplicates(),
            forall|s: u32| #[trigger] elements@.contains(s) <==> index_set(*set).contains(s),
            forall|s: u32| #[trigger] index_set(*set).contains(s) ==> s < bound,
            bound <= u32::MAX,
            forall|j: int| 0 <= j < i ==> (#[trigger] out@[j]).idx() == elements@[j],
        decreases elements@.len() - i,
    {
        let raw = elements[i];
        assert(elements@.contains(raw));
        out.push(SymbolId::new(raw));
        i = i + 1;
    }
    proof {
        assert forall|s: u32| index_set(*set).contains(s) implies exists|j: int| 0 <= j < out@.len() && (#[trigger] out@[j]).idx() == s by {
            assert(elements@.contains(s));
            let j = choose|j: int| 0 <= j < elements@.len() && elements@[j] == s;
            assert(out@[j].idx() == s);
        }
        assert forall|s: u32| (exists|j: int| 0 <= j < out@.len() && (#[trigger] out@[j]).idx() == s) implies index_set(*set).contains(s) by {
            let j = choose|j: int| 0 <= j < out@.len() && (#[trigger] out@[j]).idx() == s;
            assert(elements@[j] == s);
            assert(elements@.contains(s));
        }
    }
    out
}

} // verus!
