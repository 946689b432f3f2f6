use crate::ast::{ExprId, TypeDefId};
use crate::fx::{member_table, member_table_get, member_table_insert, member_table_new, MemberTable};
use crate::interner::{interned, lemma_position_unique, position};
use crate::semantic::{PermissionInterner, RelationInterner, TypeInterner, TypeMarker, TypeSymbol};
use crate::span::Span;
use crate::symbols::SymbolMap;
use vstd::prelude::*;

verus! {

/// The content of a [`SemanticIndex`] as plain values.
///
/// Slot `k` of `symbols`, `relations` and `permissions` belongs to the type whose
/// name is `types[k]`, the `k`-th distinct type name declared. Member tables are keyed
/// by the index of the member name among `relation_names` (or `permission_names`).
pub struct IndexModel {
    pub types: Seq<Seq<char>>,
    pub symbols: Seq<Option<(TypeDefId, Span)>>,
    pub relations: Seq<Map<u32, (Span, ExprId)>>,
    pub permissions: Seq<Map<u32, (Span, ExprId)>>,
    pub relation_names: Seq<Seq<char>>,
    pub permission_names: Seq<Seq<char>>,
}

/// The index with nothing declared.
pub open spec fn empty_model() -> IndexModel {
    IndexModel {
        types: Seq::empty(),
        symbols: Seq::empty(),
        relations: Seq::empty(),
        permissions: Seq::empty(),
        relation_names: Seq::empty(),
        permission_names: Seq::empty(),
    }
}

/// The entry of member `name` in slot `scope` of `tables`, whose keys are indices into
/// `names`.
pub open spec fn member_entry(
    names: Seq<Seq<char>>,
    tables: Seq<Map<u32, (Span, ExprId)>>,
    scope: int,
    name: Seq<char>,
) -> Option<(Span, ExprId)> {
    let key = position(names, name) as u32;
    if names.contains(name) && 0 <= scope < tables.len() && tables[scope].contains_key(key) {
        Some(tables[scope][key])
    } else {
        None
    }
}

/// The relation `name` of the type in slot `scope`.
pub open spec fn relation_entry(m: IndexModel, scope: int, name: Seq<char>) -> Option<(Span, ExprId)> {
    member_entry(m.relation_names, m.relations, scope, name)
}

/// The permission `name` of the type in slot `scope`.
pub open spec fn permission_entry(m: IndexModel, scope: int, name: Seq<char>) -> Option<(Span, ExprId)> {
    member_entry(m.permission_names, m.permissions, scope, name)
}

/// The span of an entry.
pub open spec fn entry_span(e: Option<(Span, ExprId)>) -> Option<Span> {
    match e {
        Some(p) => Some(p.0),
        None => None,
    }
}

/// The type declared under `name`, if any.
pub open spec fn type_model(m: IndexModel, name: Seq<char>) -> Option<TypeDefId> {
    if m.types.contains(name) {
        match m.symbols[position(m.types, name)] {
            Some(p) => Some(p.0),
            None => None,
        }
    } else {
        None
    }
}

/// Declaring the type `name` with definition `id` at `span`: the span of an earlier
/// declaration of the same name, which leaves the index as it is; else a new slot.
pub open spec fn declare_type_model(m: IndexModel, id: TypeDefId, span: Span, name: Seq<char>) -> (IndexModel, Option<Span>) {
    if m.types.contains(name) {
        (m, match m.symbols[position(m.types, name)] {
            Some(p) => Some(p.1),
            None => None,
        })
    } else {
        (IndexModel {
            types: m.types.push(name),
            symbols: m.symbols.push(Some((id, span))),
            relations: m.relations.push(Map::empty()),
            permissions: m.permissions.push(Map::empty()),
            relation_names: m.relation_names,
            permission_names: m.permission_names,
        }, None)
    }
}

/// Declaring member `name` in slot `scope` of `tables`: the name is interned in any
/// case; if the slot exists the member is stored there, replacing an earlier one,
/// whose span is returned.
pub open spec fn declare_member(
    names: Seq<Seq<char>>,
    tables: Seq<Map<u32, (Span, ExprId)>>,
    scope: nat,
    span: Span,
    name: Seq<char>,
    expr: ExprId,
) -> (Seq<Seq<char>>, Seq<Map<u32, (Span, ExprId)>>, Option<Span>) {
    let names2 = interned(names, name);
    let key = position(names2, name) as u32;
    if scope < tables.len() {
        let t = tables[scope as int];
        (names2, tables.update(scope as int, t.insert(key, (span, expr))), if t.contains_key(key) {
            Some(t[key].0)
        } else {
            None
        })
    } else {
        (names2, tables, None)
    }
}

pub open spec fn declare_relation_model(m: IndexModel, scope: nat, span: Span, name: Seq<char>, expr: ExprId) -> (IndexModel, Option<Span>) {
    let (names, tables, prev) = declare_member(m.relation_names, m.relations, scope, span, name, expr);
    (IndexModel {
        types: m.types,
        symbols: m.symbols,
        relations: tables,
        permissions: m.permissions,
        relation_names: names,
        permission_names: m.permission_names,
    }, prev)
}

pub open spec fn declare_permission_model(m: IndexModel, scope: nat, span: Span, name: Seq<char>, expr: ExprId) -> (IndexModel, Option<Span>) {
    let (names, tables, prev) = declare_member(m.permission_names, m.permissions, scope, span, name, expr);
    (IndexModel {
        types: m.types,
        symbols: m.symbols,
        relations: m.relations,
        permissions: tables,
        relation_names: m.relation_names,
        permission_names: names,
    }, prev)
}

/// Every key of every table is below `n`.
pub open spec fn keys_below(tables: Seq<Map<u32, (Span, ExprId)>>, n: nat) -> bool {
    forall|k: int, key: u32| 0 <= k < tables.len() && #[trigger] tables[k].contains_key(key) ==> key < n
}

/// Room for one more name of each kind: symbol ids stay below `u32::MAX`.
pub open spec fn has_room(m: IndexModel) -> bool {
    &&& m.types.len() < u32::MAX
    &&& m.relation_names.len() < u32::MAX
    &&& m.permission_names.len() < u32::MAX
}

/// The names, members and declarations that semantic analysis collects.
pub struct SemanticIndex<'src> {
    pub(crate) symbols: SymbolMap<TypeMarker, (TypeDefId, Span)>,
    pub(crate) members: TypeIndex,
    pub(crate) types: TypeInterner<'src>,
    pub(crate) relations: RelationInterner<'src>,
    pub(crate) permissions: PermissionInterner<'src>,
}

/// One slot per declared type: the span of its name, its symbol, and its relation and
/// permission tables.
pub struct TypeIndex {
    pub(crate) spans: Vec<Span>,
    pub(crate) names: Vec<TypeSymbol>,
    pub(crate) relations: Vec<MemberTable>,
    pub(crate) permissions: Vec<MemberTable>,
}

impl TypeIndex {
    fn with_capacity(capacity: usize) -> (r: TypeIndex)
        ensures
            r.spans@.len() == 0,
            r.names@.len() == 0,
            r.relations@.len() == 0,
            r.permissions@.len() == 0,
    {
        TypeIndex {
            spans: Vec::with_capacity(capacity),
            names: Vec::with_capacity(capacity),
            relations: Vec::with_capacity(capacity),
            permissions: Vec::with_capacity(capacity),
        }
    }

    fn push(&mut self, span: Span, name: TypeSymbol)
        ensures
            final(self).spans@ == old(self).spans@.push(span),
            final(self).names@ == old(self).names@.push(name),
            final(self).relations@.len() == old(self).relations@.len() + 1,
            final(self).permissions@.len() == old(self).permissions@.len() + 1,
            forall|k: int| 0 <= k < old(self).relations@.len() ==> #[trigger] final(self).relations@[k] == old(self).relations@[k],
            forall|k: int| 0 <= k < old(self).permissions@.len() ==> #[trigger] final(self).permissions@[k] == old(self).permissions@[k],
            member_table(final(self).relations@[old(self).relations@.len() as int]) == Map::<u32, (Span, ExprId)>::empty(),
            member_table(final(self).permissions@[old(self).permissions@.len() as int]) == Map::<u32, (Span, ExprId)>::empty(),
    {
        self.spans.push(span);
        self.names.push(name);
        self.relations.push(member_table_new());
        self.permissions.push(member_table_new());
    }
}

impl<'src> SemanticIndex<'src> {
    pub open(crate) spec fn model(&self) -> IndexModel {
        IndexModel {
            types: self.types.view(),
            symbols: self.symbols.slots(),
            relations: self.members.relations@.map_values(|t: MemberTable| member_table(t)),
            permissions: self.members.permissions@.map_values(|t: MemberTable| member_table(t)),
            relation_names: self.relations.view(),
            permission_names: self.permissions.view(),
        }
    }

    pub open(crate) spec fn wf(&self) -> bool {
        let n = self.types.view().len();
        &&& self.types.wf()
        &&& self.relations.wf()
        &&& self.permissions.wf()
        &&& self.symbols.wf()
        &&& self.symbols.slots().len() == n
        &&& forall|k: int| 0 <= k < n ==> (#[trigger] self.symbols.slots()[k]) is Some
        &&& self.members.spans@.len() == n
        &&& self.members.names@.len() == n
        &&& self.members.relations@.len() == n
        &&& self.members.permissions@.len() == n
        &&& forall|k: int| 0 <= k < n ==> (#[trigger] self.members.names@[k]).idx() == k
        &&& forall|k: int| 0 <= k < n ==> (self.symbols.slots()[k] matches Some(p) && p.1 == #[trigger] self.members.spans@[k])
        &&& keys_below(self.model().relations, self.relations.view().len())
        &&& keys_below(self.model().permissions, self.permissions.view().len())
    }

    /// An empty index; the capacity only reserves room.
    pub fn with_capacity(capacity: usize) -> (r: Self)
        ensures
            r.wf(),
            r.model() == empty_model(),
    {
        let member_capacity = if capacity <= usize::MAX / 2 {
            2 * capacity
        } else {
            capacity
        };
        let r = SemanticIndex {
            symbols: SymbolMap::with_capacity(capacity),
            members: TypeIndex::with_capacity(capacity),
            types: TypeInterner::with_capacity(capacity),
            relations: RelationInterner::with_capacity(member_capacity),
            permissions: PermissionInterner::with_capacity(member_capacity),
        };
        assert(r.model().types =~= Seq::<Seq<char>>::empty());
        assert(r.model().symbols =~= Seq::<Option<(TypeDefId, Span)>>::empty());
        assert(r.model().relation_names =~= Seq::<Seq<char>>::empty());
        assert(r.model().permission_names =~= Seq::<Seq<char>>::empty());
        assert(r.model().relations =~= Seq::<Map<u32, (Span, ExprId)>>::empty());
        assert(r.model().permissions =~= Seq::<Map<u32, (Span, ExprId)>>::empty());
        r
    }
    /// Declares the type `name`, defined by `id` with its name at `span`. Returns the
    /// span of an earlier declaration of the same name, and then changes nothing.
    pub fn declare_type(&mut self, id: TypeDefId, span: Span, name: &'src str) -> (r: Option<Span>)
        requires
            old(self).wf(),
            has_room(old(self).model()),
        ensures
            final(self).wf(),
            (final(self).model(), r) == declare_type_model(old(self).model(), id, span, name@),
    {
        let ghost m = self.model();
        let sym = self.types.intern(name);
        proof {
            lemma_position_unique(self.types.view(), name@, sym.idx() as int);
        }
        if let Some(entry) = self.symbols.get(sym) {
            let prev = entry.1;
            proof {
                assert(self.model() =~= m);
            }
            return Some(prev);
        }
        self.symbols.push_sequential(sym, (id, span));
        let ghost rels = self.members.relations@;
        let ghost perms = self.members.permissions@;
        self.members.push(span, sym);
        proof {
            assert(self.symbols.slots() =~= m.symbols.push(Some((id, span))));
            assert(self.model().relations =~= m.relations.push(Map::empty()));
            assert(self.model().permissions =~= m.permissions.push(Map::empty()));
        }
        None
    }

    /// Declares relation `name` of the type in slot `scope`, with its name at `span`
    /// and its expression `expr_id`. Returns the span of an earlier relation of the
    /// same name in that slot, which the new one replaces.
    pub fn declare_relation(&mut self, scope: TypeDefId, span: Span, name: &'src str, expr_id: ExprId) -> (r: Option<Span>)
        requires
            old(self).wf(),
            has_room(old(self).model()),
        ensures
            final(self).wf(),
            (final(self).model(), r) == declare_relation_model(old(self).model(), scope.idx(), span, name@, expr_id),
    {
        let ghost m = self.model();
        let sym = self.relations.intern(name);
        proof {
            lemma_position_unique(self.relations.view(), name@, sym.idx() as int);
        }
        let i = scope.as_index();
        if i >= self.members.relations.len() {
            proof {
                assert(self.model() =~= declare_relation_model(m, scope.idx(), span, name@, expr_id).0);
            }
            return None;
        }
        let key = sym.raw();
        let prev = member_table_get(&self.members.relations[i], key);
        member_table_insert(&mut self.members.relations[i], key, (span, expr_id));
        proof {
            assert(self.model().relations =~= declare_relation_model(m, scope.idx(), span, name@, expr_id).0.relations);
        }
        match prev {
            Some(p) => Some(p.0),
            None => None,
        }
    }

    /// Declares permission `name` of the type in slot `scope`; as
    /// [`SemanticIndex::declare_relation`].
    pub fn declare_permission(&mut self, scope: TypeDefId, span: Span, name: &'src str, expr_id: ExprId) -> (r: Option<Span>)
        requires
            old(self).wf(),
            has_room(old(self).model()),
        ensures
            final(self).wf(),
            (final(self).model(), r) == declare_permission_model(old(self).model(), scope.idx(), span, name@, expr_id),
    {
        let ghost m = self.model();
        let sym = self.permissions.intern(name);
        proof {
            lemma_position_unique(self.permissions.view(), name@, sym.idx() as int);
        }
        let i = scope.as_index();
        if i >= self.members.permissions.len() {
            proof {
                assert(self.model() =~= declare_permission_model(m, scope.idx(), span, name@, expr_id).0);
            }
            return None;
        }
        let key = sym.raw();
        let prev = member_table_get(&self.members.permissions[i], key);
        member_table_insert(&mut self.members.permissions[i], key, (span, expr_id));
        proof {
            assert(self.model().permissions =~= declare_permission_model(m, scope.idx(), span, name@, expr_id).0.permissions);
        }
        match prev {
            Some(p) => Some(p.0),
            None => None,
        }
    }

    /// The span of relation `name` in slot `scope`, if there is one.
    pub fn relation_collision(&self, scope: TypeDefId, name: &str) -> (r: Option<Span>)
        requires
            self.wf(),
        ensures
            r == entry_span(relation_entry(self.model(), scope.idx() as int, name@)),
    {
        match self.relation(scope, name) {
            Some(e) => Some(e.0),
            None => None,
        }
    }

    /// The span of permission `name` in slot `scope`, if there is one.
    pub fn permission_collision(&self, scope: TypeDefId, name: &str) -> (r: Option<Span>)
        requires
            self.wf(),
        ensures
            r == entry_span(permission_entry(self.model(), scope.idx() as int, name@)),
    {
        match self.permission(scope, name) {
            Some(e) => Some(e.0),
            None => None,
        }
    }

    /// The definition of the type declared under `name`.
    pub fn type_(&self, name: &str) -> (r: Option<TypeDefId>)
        requires
            self.wf(),
        ensures
            r == type_model(self.model(), name@),
    {
        match self.types.get(name) {
            Some(sym) => {
                proof {
                    lemma_position_unique(self.types.view(), name@, sym.idx() as int);
                }
                match self.symbols.get(sym) {
                    Some(entry) => Some(entry.0),
                    None => None,
                }
            },
            None => None,
        }
    }

    /// The name of the type in slot `id`.
    pub fn name_of_type(&self, id: TypeDefId) -> (r: Option<&'src str>)
        requires
            self.wf(),
        ensures
            r matches Some(s) ==> id.idx() < self.model().types.len() && s@ == self.model().types[id.idx() as int],
            r is None ==> id.idx() >= self.model().types.len(),
    {
        let i = id.as_index();
        if i < self.members.names.len() {
            let sym = self.members.names[i];
            Some(self.types.resolve(sym))
        } else {
            None
        }
    }

    /// Relation `name` of the type in slot `scope`: the span of its name and its expression.
    pub fn relation(&self, scope: TypeDefId, name: &str) -> (r: Option<(Span, ExprId)>)
        requires
            self.wf(),
        ensures
            r == relation_entry(self.model(), scope.idx() as int, name@),
    {
        match self.relations.get(name) {
            Some(sym) => {
                proof {
                    lemma_position_unique(self.relations.view(), name@, sym.idx() as int);
                }
                let i = scope.as_index();
                if i < self.members.relations.len() {
                    member_table_get(&self.members.relations[i], sym.raw())
                } else {
                    None
                }
            },
            None => None,
        }
    }

    pub fn has_relation(&self, scope: TypeDefId, name: &str) -> (r: bool)
        requires
            self.wf(),
        ensures
            r == relation_entry(self.model(), scope.idx() as int, name@) is Some,
    {
        self.relation(scope, name).is_some()
    }

    /// Permission `name` of the type in slot `scope`: the span of its name and its
    /// expression.
    pub fn permission(&self, scope: TypeDefId, name: &str) -> (r: Option<(Span, ExprId)>)
        requires
            self.wf(),
        ensures
            r == permission_entry(self.model(), scope.idx() as int, name@),
    {
        match self.permissions.get(name) {
            Some(sym) => {
                proof {
                    lemma_position_unique(self.permissions.view(), name@, sym.idx() as int);
                }
                let i = scope.as_index();
                if i < self.members.permissions.len() {
                    member_table_get(&self.members.permissions[i], sym.raw())
                } else {
                    None
                }
            },
            None => None,
        }
    }

    pub fn has_permission(&self, scope: TypeDefId, name: &str) -> (r: bool)
        requires
            self.wf(),
        ensures
            r == permission_entry(self.model(), scope.idx() as int, name@) is Some,
    {
        self.permission(scope, name).is_some()
    }

    /// Whether the type in slot `scope` has a relation or a permission `name`.
    pub fn has_member(&self, scope: TypeDefId, name: &str) -> (r: bool)
        requires
            self.wf(),
        ensures
            r == (relation_entry(self.model(), scope.idx() as int, name@) is Some
                || permission_entry(self.model(), scope.idx() as int, name@) is Some),
    {
        self.relation(scope, name).is_some() || self.permission(scope, name).is_some()
    }
}

} // verus!
