//! The hash maps and sets of the compiler, from `rustc_hash`, and what the library
//! relies on of each operation it calls.
use crate::ast::ExprId;
use crate::span::Span;
use rustc_hash::{FxBuildHasher, FxHashMap, FxHashSet};
use crate::vfs::File;
use vstd::prelude::*;

verus! {

#[verifier::external_type_specification]
#[verifier::external_body]
pub struct ExFxBuildHasher(FxBuildHasher);

/// A table from names to symbol indices.
pub type NameTable = FxHashMap<String, u32>;

/// The entries of a table from names to symbol indices, each name taken by its characters.
pub uninterp spec fn name_table(m: NameTable) -> Map<Seq<char>, u32>;


/// The table with no entry.
pub open spec fn no_names() -> Map<Seq<char>, u32> {
    Map::empty()
}

/// `FxHashMap::with_capacity_and_hasher`: a new map holds no entry; the capacity only
/// reserves room.
#[verifier::external_body]
pub(crate) fn name_table_new(capacity: usize) -> (m: NameTable)
    ensures
        name_table(m) == no_names(),
{
    FxHashMap::with_capacity_and_hasher(capacity, FxBuildHasher)
}

/// `HashMap::get`: the value stored under the key whose characters are those of `key`.
#[verifier::external_body]
pub(crate) fn name_table_get(m: &NameTable, key: &str) -> (r: Option<u32>)
    ensures
        r == (if name_table(*m).contains_key(key@) { Some(name_table(*m)[key@]) } else { None }),
{
    m.get(key).copied()
}

/// `HashMap::insert`: afterwards `key` maps to `value`, the other entries are kept.
#[verifier::external_body]
pub(crate) fn name_table_insert(m: &mut NameTable, key: &str, value: u32)
    ensures
        name_table(*final(m)) == name_table(*old(m)).insert(key@, value),
{
    m.insert(String::from(key), value);
}

/// `Clone::clone` of a map: the same entries.
#[verifier::external_body]
pub(crate) fn name_table_clone(m: &NameTable) -> (r: NameTable)
    ensures
        name_table(r) == name_table(*m),
{
    m.clone()
}

/// The files of a virtual file system, by the raw index of their id.
pub type FileTable = FxHashMap<u32, File>;

/// The entries of a file table.
pub uninterp spec fn file_table(m: FileTable) -> Map<u32, File>;

/// The file table with no entry.
pub open spec fn no_files() -> Map<u32, File> {
    Map::empty()
}

/// `FxHashMap::default`: a new map holds no entry.
#[verifier::external_body]
pub(crate) fn file_table_new() -> (m: FileTable)
    ensures
        file_table(m) == no_files(),
{
    FxHashMap::default()
}

/// `HashMap::insert`: afterwards `key` maps to `file`, the other entries are kept.
#[verifier::external_body]
pub(crate) fn file_table_insert(m: &mut FileTable, key: u32, file: File)
    ensures
        file_table(*final(m)) == file_table(*old(m)).insert(key, file),
{
    m.insert(key, file);
}

/// `HashMap::get`: the file stored under `key`, if any.
#[verifier::external_body]
pub(crate) fn file_table_get(m: &FileTable, key: u32) -> (r: Option<&File>)
    ensures
        r matches Some(f) ==> file_table(*m).contains_key(key) && file_table(*m)[key] == *f,
        r is None ==> !file_table(*m).contains_key(key),
{
    m.get(&key)
}

/// The members of one type, by the raw index of their symbol: the span of the name
/// and the expression of the member.
pub type MemberTable = FxHashMap<u32, (Span, ExprId)>;

/// The entries of a member table.
pub uninterp spec fn member_table(m: MemberTable) -> Map<u32, (Span, ExprId)>;

/// The member table with no entry.
pub open spec fn no_members() -> Map<u32, (Span, ExprId)> {
    Map::empty()
}

/// `FxHashMap::default`: a new map holds no entry.
#[verifier::external_body]
pub(crate) fn member_table_new() -> (m: MemberTable)
    ensures
        member_table(m) == no_members(),
{
    FxHashMap::default()
}

/// `HashMap::get`: the entry under `key`, if any.
#[verifier::external_body]
pub(crate) fn member_table_get(m: &MemberTable, key: u32) -> (r: Option<(Span, ExprId)>)
    ensures
        r == (if member_table(*m).contains_key(key) { Some(member_table(*m)[key]) } else { None }),
{
    m.get(&key).copied()
}

/// `HashMap::insert`: afterwards `key` maps to `value`, the other entries are kept.
#[verifier::external_body]
pub(crate) fn member_table_insert(m: &mut MemberTable, key: u32, value: (Span, ExprId))
    ensures
        member_table(*final(m)) == member_table(*old(m)).insert(key, value),
{
    m.insert(key, value);
}

/// `HashMap::keys`, collected: each key once, in the order of the walk, which is left
/// unstated.
#[verifier::external_body]
pub(crate) fn member_table_keys(m: &MemberTable) -> (r: Vec<u32>)
    ensures
        r@.no_duplicates(),
        forall|k: u32| #[trigger] r@.contains(k) <==> member_table(*m).contains_key(k),
{
    m.keys().copied().collect()
}

/// A set of symbol indices.
pub type IndexSet = FxHashSet<u32>;

/// The elements of a set of symbol indices.
pub uninterp spec fn index_set(s: IndexSet) -> Set<u32>;

/// `FxHashSet::default`: a new set is empty.
#[verifier::external_body]
pub(crate) fn index_set_new() -> (s: IndexSet)
    ensures
        index_set(s) == Set::<u32>::empty(),
{
    FxHashSet::default()
}

/// `HashSet::insert`: afterwards `value` is an element, the others are kept.
#[verifier::external_body]
pub(crate) fn index_set_insert(s: &mut IndexSet, value: u32)
    ensures
        index_set(*final(s)) == index_set(*old(s)).insert(value),
{
    s.insert(value);
}

/// `HashSet::contains`.
#[verifier::external_body]
pub(crate) fn index_set_contains(s: &IndexSet, value: u32) -> (r: bool)
    ensures
        r == index_set(*s).contains(value),
{
    s.contains(&value)
}

/// `HashSet::iter`, collected: each element once, in the order of the walk, which is
/// left unstated.
#[verifier::external_body]
pub(crate) fn index_set_elements(s: &IndexSet) -> (r: Vec<u32>)
    ensures
        r@.no_duplicates(),
        forall|k: u32| #[trigger] r@.contains(k) <==> index_set(*s).contains(k),
{
    s.iter().copied().collect()
}

} // verus!
