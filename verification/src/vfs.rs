use crate::fx::{file_table, file_table_get, file_table_insert, file_table_new, FileTable};
use crate::id::Id;
use vstd::prelude::*;

verus! {

/// A source file held by a [`Vfs`]: its path and its text.
#[derive(Debug)]
pub struct File {
    pub(crate) path: String,
    pub(crate) source: String,
}

impl File {
    pub open(crate) spec fn path_view(&self) -> Seq<char> {
        self.path@
    }

    pub open(crate) spec fn source_view(&self) -> Seq<char> {
        self.source@
    }
}

/// The id of a file in a [`Vfs`].
pub type FileId = Id<File>;

/// A borrowed view of one file of a [`Vfs`].
#[derive(Debug, Clone, Copy)]
pub struct FileRef<'a> {
    pub(crate) id: FileId,
    pub(crate) path: &'a str,
    pub(crate) source: &'a str,
}

impl<'a> FileRef<'a> {
    pub open(crate) spec fn id_of(&self) -> FileId {
        self.id
    }

    pub open(crate) spec fn path_of(&self) -> &'a str {
        self.path
    }

    pub open(crate) spec fn source_of(&self) -> &'a str {
        self.source
    }

    pub fn new(id: FileId, path: &'a str, source: &'a str) -> (r: FileRef<'a>)
        ensures
            r.id_of() == id,
            r.path_of() == path,
            r.source_of() == source,
    {
        FileRef { id, path, source }
    }

    pub fn id(&self) -> (r: FileId)
        ensures
            r == self.id_of(),
    {
        self.id
    }

    pub fn path(&self) -> (r: &'a str)
        ensures
            r == self.path_of(),
    {
        self.path
    }

    pub fn source(&self) -> (r: &'a str)
        ensures
            r == self.source_of(),
    {
        self.source
    }
}

/// Owns the source files of a compilation and hands out an id for each.
pub struct Vfs {
    pub(crate) files: FileTable,
    pub(crate) next_id: u32,
}

impl Vfs {
    /// The files, by the raw index of their id.
    pub open(crate) spec fn files(&self) -> Map<u32, File> {
        file_table(self.files)
    }

    /// The index the next added file will get.
    pub open(crate) spec fn next(&self) -> u32 {
        self.next_id
    }

    /// Every file has an id below the next one.
    pub open(crate) spec fn wf(&self) -> bool {
        forall|k: u32| #[trigger] self.files().contains_key(k) ==> k < self.next_id
    }

    pub fn new() -> (v: Vfs)
        ensures
            v.wf(),
            v.files() == Map::<u32, File>::empty(),
            v.next() == 0,
    {
        Vfs { files: file_table_new(), next_id: 0 }
    }

    fn gen_id(&mut self) -> (id: FileId)
        requires
            old(self).next() < u32::MAX,
        ensures
            id.idx() == old(self).next(),
            final(self).next() == old(self).next() + 1,
            final(self).files == old(self).files,
    {
        let id = FileId::new(self.next_id);
        self.next_id = self.next_id + 1;
        id
    }

    /// Adds a file and returns its new id, one more than the last.
    pub fn add(&mut self, path: String, source: String) -> (id: FileId)
        requires
            old(self).wf(),
            old(self).next() < u32::MAX,
        ensures
            final(self).wf(),
            id.idx() == old(self).next(),
            final(self).next() == old(self).next() + 1,
            added(*old(self), *final(self), path@, source@),
    {
        let id = self.gen_id();
        file_table_insert(&mut self.files, id.raw(), File { path, source });
        proof {
            assert forall|k: u32| #[trigger] self.files().contains_key(k) implies k < self.next_id by {
                if k != old(self).next() {
                    assert(old(self).files().contains_key(k));
                }
            }
        }
        id
    }

    /// The file with the given id, if it was added.
    pub fn get(&self, id: FileId) -> (r: Option<FileRef<'_>>)
        ensures
            r matches Some(f) ==> self.files().contains_key(id.idx() as u32) && f.id_of() == id
                && f.source_of()@ == self.files()[id.idx() as u32].source_view()
                && f.path_of()@ == self.files()[id.idx() as u32].path_view(),
            r is None ==> !self.files().contains_key(id.idx() as u32),
    {
        match file_table_get(&self.files, id.raw()) {
            Some(file) => Some(FileRef::new(id, file.path.as_str(), file.source.as_str())),
            None => None,
        }
    }
}

/// `after` is `before` with one more file, of the given path and source, under the
/// next id; every other file is kept.
pub open spec fn added(before: Vfs, after: Vfs, path: Seq<char>, source: Seq<char>) -> bool {
    let k = before.next();
    &&& after.next() == k + 1
    &&& after.files().dom() == before.files().dom().insert(k)
    &&& after.files()[k].path_view() == path
    &&& after.files()[k].source_view() == source
    &&& forall|j: u32| j != k && #[trigger] before.files().contains_key(j) ==> after.files()[j] == before.files()[j]
}

/// A file reads back as it was added, under an id no earlier file has, and the files
/// added before it are unchanged.
pub proof fn lemma_read_after_add(before: Vfs, after: Vfs, path: Seq<char>, source: Seq<char>)
    requires
        before.wf(),
        added(before, after, path, source),
    ensures
        !before.files().contains_key(before.next()),
        after.files().contains_key(before.next()),
        after.files()[before.next()].source_view() == source,
        after.files()[before.next()].path_view() == path,
        after.wf(),
        forall|j: u32| #[trigger] before.files().contains_key(j) ==> after.files().contains_key(j) && after.files()[j] == before.files()[j],
{
    assert(after.files().dom().contains(before.next()));
    assert forall|j: u32| #[trigger] after.files().contains_key(j) implies j < after.next() by {
        assert(after.files().dom().contains(j));
    }
}

} // verus!
