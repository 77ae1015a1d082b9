use vstd::prelude::*;

use std::ops::ControlFlow;

use crate::error::FsError;
use crate::file_types::{child_ids, listing_with, DirEntry, DirList, Directory, EntryType, File};
use crate::metadata::{advanced, FileAttribute, Inode, InodeMapper, TimeOrNow, Timestamp, ROOT_INODE};

verus! {

/// The namespace engine: the path index (with the identifier frontier) and
/// the directory tree, whose entries carry their attribute records.
pub struct Daniel {
    mapper: InodeMapper,
    list: DirList,
}

/// A child-listing record of directory `dir` names a live entry, not the
/// root, whose parent is `dir` and whose kind is the one recorded.
pub open spec fn child_ok(tree: Map<u64, DirEntry>, dir: u64, c: (u64, EntryType)) -> bool {
    &&& tree.contains_key(c.0)
    &&& c.0 != ROOT_INODE
    &&& tree[c.0].spec_parent() == dir
    &&& tree[c.0].spec_entry_type() == c.1
}

/// What holds of each live entry `id`.
pub open spec fn entry_ok(
    tree: Map<u64, DirEntry>,
    index: Map<(u64, Seq<char>), u64>,
    next: u64,
    id: u64,
) -> bool {
    let e = tree[id];
    &&& 0 < id < next
    &&& e.spec_attr().ino == id
    &&& e.spec_attr().kind == e.spec_entry_type()
    &&& index.contains_key((e.spec_parent(), e.spec_name()))
    &&& index[(e.spec_parent(), e.spec_name())] == id
    &&& id != ROOT_INODE ==> {
        &&& tree.contains_key(e.spec_parent())
        &&& tree[e.spec_parent()] is Directory
        &&& child_ids(tree[e.spec_parent()].spec_children()).contains(id)
    }
    &&& forall|i: int|
        0 <= i < e.spec_children().len() ==> child_ok(tree, id, #[trigger] e.spec_children()[i])
}

/// The tree, the index and the frontier describe one namespace: the root
/// is the directory "/" under itself, every entry sits in its parent's
/// listing, and the index holds exactly each entry's (parent, name) pair.
pub open spec fn tree_wf(tree: Map<u64, DirEntry>, index: Map<(u64, Seq<char>), u64>, next: u64) -> bool {
    &&& tree.contains_key(ROOT_INODE)
    &&& tree[ROOT_INODE] is Directory
    &&& tree[ROOT_INODE].spec_parent() == ROOT_INODE
    &&& tree[ROOT_INODE].spec_name() == "/"@
    &&& forall|id: u64| #[trigger] tree.contains_key(id) ==> entry_ok(tree, index, next, id)
    &&& forall|k: (u64, Seq<char>)| #[trigger]
        index.contains_key(k) ==> {
            &&& tree.contains_key(index[k])
            &&& tree[index[k]].spec_parent() == k.0
            &&& tree[index[k]].spec_name() == k.1
        }
}

/// The position in a directory's listing that a `readdir` offset asks for.
pub open spec fn listing_rank(offset: u64) -> int {
    if offset == 0 {
        0
    } else {
        offset - 1
    }
}

/// One position of a directory listing as a protocol presents it: the
/// directory itself, its parent, a child (identifier, kind, name), or the end.
#[derive(Debug, PartialEq, Eq)]
pub enum DirSlot {
    Current(u64),
    Parent(u64),
    Entry(u64, EntryType, String),
    End,
}

impl Daniel {
    /// Every live entry, keyed by its identifier.
    pub closed spec fn tree(&self) -> Map<u64, DirEntry> {
        self.list@
    }

    /// The path index: (parent, name) pairs and the identifiers they name.
    pub closed spec fn index(&self) -> Map<(u64, Seq<char>), u64> {
        self.mapper.index()
    }

    /// The identifier the next created entry receives.
    pub closed spec fn next_id(&self) -> u64 {
        self.mapper.next()
    }

    pub closed spec fn wf(&self) -> bool {
        &&& self.mapper.wf()
        &&& self.list.wf()
        &&& tree_wf(self.tree(), self.index(), self.next_id())
    }

    /// Why (parent, name) cannot take a new entry, if it cannot.
    pub open spec fn placement_outcome(&self, parent: u64, name: Seq<char>) -> Result<(), FsError> {
        if parent == 0 || name.len() == 0 {
            Err(FsError::Invalid)
        } else if !self.tree().contains_key(parent) {
            Err(FsError::NotFound)
        } else if self.tree()[parent] is File {
            Err(FsError::Invalid)
        } else if self.index().contains_key((parent, name)) {
            Err(FsError::AlreadyExists)
        } else {
            Ok(())
        }
    }

    /// The result of `push(item)`.
    pub open spec fn push_outcome(&self, item: DirEntry) -> Result<(), FsError> {
        let ino = item.spec_attr().ino;
        if ino == 0 || item.spec_attr().kind != item.spec_entry_type() || item.spec_children().len()
            != 0 {
            Err(FsError::Invalid)
        } else {
            match self.placement_outcome(item.spec_parent(), item.spec_name()) {
                Err(e) => Err(e),
                Ok(_) => if self.tree().contains_key(ino) {
                    Err(FsError::AlreadyExists)
                } else if ino == u64::MAX {
                    Err(FsError::Exhausted)
                } else {
                    Ok(())
                },
            }
        }
    }

    /// The result of `create` or `mkdir` under (parent, name), as an outcome.
    pub open spec fn create_outcome(&self, parent: u64, name: Seq<char>) -> Result<(), FsError> {
        match self.placement_outcome(parent, name) {
            Err(e) => Err(e),
            Ok(_) => if self.next_id() == u64::MAX {
                Err(FsError::Exhausted)
            } else {
                Ok(())
            },
        }
    }

    /// `new` is `old` with `item` added under its parent: the item stored
    /// under its identifier, listed last by its parent, and indexed by its
    /// (parent, name) pair; the frontier moved past it; nothing else changed.
    pub open spec fn added(old: &Daniel, new: &Daniel, item: DirEntry) -> bool {
        let ino = item.spec_attr().ino;
        let parent = item.spec_parent();
        &&& new.tree().dom() == old.tree().dom().insert(ino)
        &&& new.tree()[ino] == item
        &&& forall|k: u64|
            k != parent && #[trigger] old.tree().contains_key(k) ==> new.tree()[k] == old.tree()[k]
        &&& new.tree()[parent].same_but_children(&old.tree()[parent])
        &&& new.tree()[parent].spec_children() == old.tree()[parent].spec_children().push(
            (ino, item.spec_entry_type()),
        )
        &&& new.index() == old.index().insert((parent, item.spec_name()), ino)
        &&& new.next_id() == advanced(old.next_id(), ino)
    }

    /// `new` and `old` hold the same namespace.
    pub open spec fn same(old: &Daniel, new: &Daniel) -> bool {
        &&& new.tree() == old.tree()
        &&& new.index() == old.index()
        &&& new.next_id() == old.next_id()
    }

    /// After a create or mkdir of kind `kind` that returned `r`: on an
    /// error nothing changed; on success a fresh childless entry with the
    /// next identifier and a fresh record was added under (parent, name).
    pub open spec fn created(
        old: &Daniel,
        new: &Daniel,
        parent: u64,
        name: Seq<char>,
        kind: EntryType,
        perms: u16,
        now: Timestamp,
        r: Result<FileAttribute, FsError>,
    ) -> bool {
        match old.create_outcome(parent, name) {
            Err(e) => r == Err::<FileAttribute, FsError>(e) && Daniel::same(old, new),
            Ok(_) => {
                let id = old.next_id();
                let attr = FileAttribute::fresh(id, kind, perms, now);
                &&& r == Ok::<FileAttribute, FsError>(attr)
                &&& !old.tree().contains_key(id)
                &&& new.tree()[id].spec_entry_type() == kind
                &&& new.tree()[id].spec_parent() == parent
                &&& new.tree()[id].spec_name() == name
                &&& new.tree()[id].spec_attr() == attr
                &&& new.tree()[id].spec_children() == Seq::<(u64, EntryType)>::empty()
                &&& Daniel::added(old, new, new.tree()[id])
                &&& new.next_id() == id + 1
            },
        }
    }

    /// What `lookup(parent, name)` returns.
    pub open spec fn lookup_spec(&self, parent: u64, name: Seq<char>) -> Result<FileAttribute, FsError> {
        if parent == 0 || name.len() == 0 {
            Err(FsError::Invalid)
        } else if self.index().contains_key((parent, name)) {
            Ok(self.tree()[self.index()[(parent, name)]].spec_attr())
        } else {
            Err(FsError::NotFound)
        }
    }

    /// What `getattr(ino)` returns.
    pub open spec fn getattr_spec(&self, ino: u64) -> Result<FileAttribute, FsError> {
        if ino == 0 {
            Err(FsError::Invalid)
        } else if self.tree().contains_key(ino) {
            Ok(self.tree()[ino].spec_attr())
        } else {
            Err(FsError::NotFound)
        }
    }

    /// `new` is `old` with the record of entry `ino` replaced by `attr`.
    pub open spec fn attr_replaced(old: &Daniel, new: &Daniel, ino: u64, attr: FileAttribute) -> bool {
        &&& new.tree().dom() == old.tree().dom()
        &&& forall|k: u64|
            k != ino && #[trigger] old.tree().contains_key(k) ==> new.tree()[k] == old.tree()[k]
        &&& new.tree()[ino].same_but_attr(&old.tree()[ino])
        &&& new.tree()[ino].spec_attr() == attr
        &&& new.index() == old.index()
        &&& new.next_id() == old.next_id()
    }

    /// The result of `unlink(parent, name)`.
    pub open spec fn unlink_outcome(&self, parent: u64, name: Seq<char>) -> Result<(), FsError> {
        if parent == 0 || name.len() == 0 {
            Err(FsError::Invalid)
        } else if !self.index().contains_key((parent, name)) {
            Err(FsError::NotFound)
        } else if self.index()[(parent, name)] == ROOT_INODE {
            Err(FsError::Invalid)
        } else if self.tree()[self.index()[(parent, name)]].spec_children().len() != 0 {
            Err(FsError::Invalid)
        } else {
            Ok(())
        }
    }

    /// `new` is `old` with the entry at (parent, name) taken out: gone from
    /// the tree, from its parent's listing and from the index.
    pub open spec fn removed(old: &Daniel, new: &Daniel, parent: u64, name: Seq<char>) -> bool {
        let id = old.index()[(parent, name)];
        let cs = old.tree()[parent].spec_children();
        &&& new.tree().dom() == old.tree().dom().remove(id)
        &&& forall|k: u64|
            k != parent && k != id && #[trigger] old.tree().contains_key(k) ==> new.tree()[k]
                == old.tree()[k]
        &&& new.tree()[parent].same_but_children(&old.tree()[parent])
        &&& new.tree()[parent].spec_children() == cs.remove(child_ids(cs).index_of(id))
        &&& new.tree()[parent].spec_children().len() == cs.len() - 1
        &&& !child_ids(new.tree()[parent].spec_children()).contains(id)
        &&& new.index() == old.index().remove((parent, name))
        &&& new.next_id() == old.next_id()
    }

    /// Whether `offset` falls within the listing of live directory `ino`,
    /// the first child standing at offsets 0 and 1.
    pub open spec fn lists_child(&self, ino: u64, offset: u64) -> bool {
        &&& self.tree().contains_key(ino)
        &&& self.tree()[ino] is Directory
        &&& listing_rank(offset) < self.tree()[ino].spec_children().len()
    }

    /// A namespace holding only the root directory "/".
    pub fn new(now: Timestamp) -> (r: Daniel)
        ensures
            r.wf(),
            r.tree().dom() == set![ROOT_INODE],
            r.tree()[ROOT_INODE] is Directory,
            r.tree()[ROOT_INODE].spec_attr() == FileAttribute::fresh(
                ROOT_INODE,
                EntryType::Directory,
                0o755,
                now,
            ),
            r.tree()[ROOT_INODE].spec_children() == Seq::<(u64, EntryType)>::empty(),
            r.index() == Map::<(u64, Seq<char>), u64>::empty().insert((ROOT_INODE, "/"@), ROOT_INODE),
            r.next_id() == 2,
    {
        let r = Daniel { mapper: InodeMapper::new(), list: DirList::new(now) };
        assert(r.tree().contains_key(ROOT_INODE));
        r
    }

    /// The path index.
    pub fn mapper(&self) -> (r: &InodeMapper)
        requires
            self.wf(),
        ensures
            r.wf(),
            r.index() == self.index(),
            r.next() == self.next_id(),
    {
        &self.mapper
    }

    /// The directory tree.
    pub fn list(&self) -> (r: &DirList)
        requires
            self.wf(),
        ensures
            r@ == self.tree(),
    {
        &self.list
    }

    /// Checks that (parent, name) can take a new entry.
    fn check_placement(&self, parent: u64, name: &str) -> (r: Result<(), FsError>)
        requires
            self.wf(),
        ensures
            r == self.placement_outcome(parent, name@),
    {
        if parent == 0 || name.is_empty() {
            return Err(FsError::Invalid);
        }
        match self.list.get(parent) {
            None => {
                return Err(FsError::NotFound);
            },
            Some(DirEntry::File(_)) => {
                return Err(FsError::Invalid);
            },
            Some(DirEntry::Directory(_)) => {},
        }
        match self.mapper.get_map(Inode::new(parent), name) {
            Some(_) => Err(FsError::AlreadyExists),
            None => Ok(()),
        }
    }

    /// Adds a fully built entry under its parent: registers its (parent,
    /// name) pair, lists it in the parent, and stores it in the tree.
    pub fn push(&mut self, item: DirEntry) -> (r: Result<(), FsError>)
        requires
            old(self).wf(),
        ensures
            final(self).wf(),
            r == old(self).push_outcome(item),
            r is Err ==> *final(self) == *old(self),
            r is Ok ==> Daniel::added(old(self), final(self), item),
    {
        let attr = item.attr();
        let ino = attr.ino;
        let parent = item.parent();
        let kind = item.entry_type();
        let empty = match &item {
            DirEntry::Directory(d) => d.entries().len() == 0,
            DirEntry::File(_) => true,
        };
        if ino == 0 || attr.kind != kind || !empty {
            return Err(FsError::Invalid);
        }
        let name = item.name().to_owned();
        match self.check_placement(parent, name.as_str()) {
            Err(e) => {
                return Err(e);
            },
            Ok(()) => {},
        }
        if self.list.contains(ino) {
            return Err(FsError::AlreadyExists);
        }
        if ino == u64::MAX {
            return Err(FsError::Exhausted);
        }
        let ghost old_tree = self.tree();
        let ghost old_index = self.index();
        let ghost old_next = self.next_id();
        let child = Inode::new(ino);
        proof {
            lemma_not_listed(old_tree, old_index, old_next, parent, ino);
            lemma_empty_wf(item);
        }
        self.mapper.insert(Inode::new(parent), name.as_str(), child);
        let _ = self.list.child_insert(parent, child, kind);
        self.list.insert(child, item);
        proof {
            lemma_added_wf(old_tree, old_index, old_next, self.tree(), self.index(), self.next_id(), item);
            assert(self.tree().dom() =~= old_tree.dom().insert(ino));
            assert forall|k: u64| #[trigger] self.list@.contains_key(k) implies self.list@[k].wf() by {
                if k != ino && k != parent {
                    assert(old_tree.contains_key(k));
                }
            }
        }
        Ok(())
    }

    /// Adds a fresh, empty entry of kind `kind` under (parent, name).
    fn add_entry(&mut self, parent: u64, name: &str, kind: EntryType, perms: u16, now: Timestamp) -> (r:
        Result<FileAttribute, FsError>)
        requires
            old(self).wf(),
        ensures
            final(self).wf(),
            Daniel::created(old(self), final(self), parent, name@, kind, perms, now, r),
    {
        match self.check_placement(parent, name) {
            Err(e) => {
                return Err(e);
            },
            Ok(()) => {},
        }
        let id = self.mapper.next_inode();
        let p = Inode::new(parent);
        let item = match kind {
            EntryType::File => DirEntry::File(File::new(name.to_owned(), p, id, perms, now)),
            EntryType::Directory => DirEntry::Directory(
                Directory::new(p, name.to_owned(), id, perms, now),
            ),
        };
        let attr = item.attr();
        proof {
            if self.tree().contains_key(id@) {
                assert(entry_ok(self.tree(), self.index(), self.next_id(), id@));
            }
        }
        match self.push(item) {
            Err(e) => Err(e),
            Ok(()) => {
                assert(self.tree()[id@] == item);
                Ok(attr)
            },
        }
    }

    /// Creates an empty regular file `name` in directory `parent`.
    pub fn create(&mut self, parent: u64, name: &str, perms: u16, now: Timestamp) -> (r: Result<
        FileAttribute,
        FsError,
    >)
        requires
            old(self).wf(),
        ensures
            final(self).wf(),
            Daniel::created(old(self), final(self), parent, name@, EntryType::File, perms, now, r),
    {
        self.add_entry(parent, name, EntryType::File, perms, now)
    }

    /// Creates an empty directory `name` in directory `parent`.
    pub fn mkdir(&mut self, parent: u64, name: &str, perms: u16, now: Timestamp) -> (r: Result<
        FileAttribute,
        FsError,
    >)
        requires
            old(self).wf(),
        ensures
            final(self).wf(),
            Daniel::created(old(self), final(self), parent, name@, EntryType::Directory, perms, now, r),
    {
        self.add_entry(parent, name, EntryType::Directory, perms, now)
    }

    /// The record of the entry `name` in directory `parent`, found through
    /// the path index.
    pub fn lookup(&self, parent: u64, name: &str) -> (r: Result<FileAttribute, FsError>)
        requires
            self.wf(),
        ensures
            r == self.lookup_spec(parent, name@),
    {
        if parent == 0 || name.is_empty() {
            return Err(FsError::Invalid);
        }
        match self.mapper.get_map(Inode::new(parent), name) {
            None => Err(FsError::NotFound),
            Some(ino) => match self.list.get(ino.get()) {
                Some(e) => Ok(e.attr()),
                None => Err(FsError::NotFound),
            },
        }
    }

    /// The record of entry `ino`.
    pub fn getattr(&self, ino: u64, _fh: Option<u64>) -> (r: Result<FileAttribute, FsError>)
        requires
            self.wf(),
        ensures
            r == self.getattr_spec(ino),
    {
        if ino == 0 {
            return Err(FsError::Invalid);
        }
        match self.list.get(ino) {
            Some(e) => Ok(e.attr()),
            None => Err(FsError::NotFound),
        }
    }

    /// Succeeds exactly when entry `ino` exists; the mask is not evaluated.
    /// A zero identifier is `Invalid`.
    pub fn access(&self, ino: u64, _mask: i32) -> (r: Result<(), FsError>)
        requires
            self.wf(),
        ensures
            ino == 0 ==> r == Err::<(), FsError>(FsError::Invalid),
            ino != 0 && self.tree().contains_key(ino) ==> r == Ok::<(), FsError>(()),
            ino != 0 && !self.tree().contains_key(ino) ==> r == Err::<(), FsError>(FsError::NotFound),
    {
        if ino == 0 {
            Err(FsError::Invalid)
        } else if self.list.contains(ino) {
            Ok(())
        } else {
            Err(FsError::NotFound)
        }
    }

    /// Applies the fields that are present to the record of entry `ino`
    /// and returns the updated record.
    pub fn setattr(
        &mut self,
        ino: u64,
        size: Option<u64>,
        atime: Option<TimeOrNow>,
        mtime: Option<TimeOrNow>,
        ctime: Option<Timestamp>,
        now: Timestamp,
    ) -> (r: Result<FileAttribute, FsError>)
        requires
            old(self).wf(),
        ensures
            final(self).wf(),
            ino == 0 ==> r == Err::<FileAttribute, FsError>(FsError::Invalid),
            ino != 0 && !old(self).tree().contains_key(ino) ==> r == Err::<FileAttribute, FsError>(
                FsError::NotFound,
            ),
            r is Err ==> Daniel::same(old(self), final(self)),
            ino != 0 && old(self).tree().contains_key(ino) ==> {
                let attr = old(self).tree()[ino].spec_attr().updated(size, atime, mtime, ctime, now);
                &&& r == Ok::<FileAttribute, FsError>(attr)
                &&& Daniel::attr_replaced(old(self), final(self), ino, attr)
            },
    {
        if ino == 0 {
            return Err(FsError::Invalid);
        }
        let mut attr = match self.list.get(ino) {
            Some(e) => e.attr(),
            None => {
                return Err(FsError::NotFound);
            },
        };
        attr.update(size, atime, mtime, ctime, now);
        let ghost old_tree = self.tree();
        let _ = self.list.set_attr(ino, attr);
        proof {
            let tree = self.tree();
            assert(tree.dom() =~= old_tree.dom());
            assert forall|id: u64| #[trigger] tree.contains_key(id) implies entry_ok(
                tree,
                self.index(),
                self.next_id(),
                id,
            ) by {
                assert(entry_ok(old_tree, self.index(), self.next_id(), id));
                let e = old_tree[id];
                assert forall|i: int| 0 <= i < tree[id].spec_children().len() implies child_ok(
                    tree,
                    id,
                    #[trigger] tree[id].spec_children()[i],
                ) by {
                    assert(child_ok(old_tree, id, e.spec_children()[i]));
                }
                if id != ROOT_INODE {
                    let p = e.spec_parent();
                    assert(old_tree.contains_key(p));
                }
            }
            assert forall|k: (u64, Seq<char>)| #[trigger] self.index().contains_key(k) implies {
                &&& tree.contains_key(self.index()[k])
                &&& tree[self.index()[k]].spec_parent() == k.0
                &&& tree[self.index()[k]].spec_name() == k.1
            } by {
                assert(old_tree.contains_key(self.index()[k]));
            }
        }
        Ok(attr)
    }

    /// Removes the entry `name` of directory `parent`: from the parent's
    /// listing, from the tree, and from the path index. The root and
    /// directories that still have children are refused with `Invalid`.
    pub fn unlink(&mut self, parent: u64, name: &str) -> (r: Result<(), FsError>)
        requires
            old(self).wf(),
        ensures
            final(self).wf(),
            r == old(self).unlink_outcome(parent, name@),
            r is Err ==> *final(self) == *old(self),
            r is Ok ==> Daniel::removed(old(self), final(self), parent, name@),
    {
        if parent == 0 || name.is_empty() {
            return Err(FsError::Invalid);
        }
        let p = Inode::new(parent);
        let id = match self.mapper.get_map(p, name) {
            None => {
                return Err(FsError::NotFound);
            },
            Some(i) => i,
        };
        if id.get() == ROOT_INODE {
            return Err(FsError::Invalid);
        }
        match self.list.get(id.get()) {
            Some(DirEntry::Directory(d)) => {
                if d.entries().len() != 0 {
                    return Err(FsError::Invalid);
                }
            },
            _ => {},
        }
        let ghost old_tree = self.tree();
        let ghost old_index = self.index();
        proof {
            assert(old_tree.contains_key(id@));
            assert(entry_ok(old_tree, old_index, self.next_id(), id@));
            assert(old_tree[parent].wf());
        }
        let _ = self.list.child_remove(parent, id);
        let _ = self.list.remove(id.get());
        self.mapper.remove(p, name);
        proof {
            lemma_removed_wf(old_tree, old_index, self.next_id(), self.tree(), self.index(), parent, name@);
            assert(self.tree().dom() =~= old_tree.dom().remove(id@));
            assert forall|k: u64| #[trigger] self.list@.contains_key(k) implies self.list@[k].wf() by {
                assert(old_tree.contains_key(k));
            }
        }
        Ok(())
    }

    /// The child of directory `ino` at position `max(offset, 1) - 1` of its
    /// listing; `Break` for a file, an absent entry, or past the end.
    pub fn readdir(&self, ino: u64, _fh: u64, offset: u64) -> (r: ControlFlow<(), &DirEntry>)
        requires
            self.wf(),
        ensures
            match r {
                ControlFlow::Continue(e) => self.lists_child(ino, offset) && *e == self.tree()[self.tree()[ino].spec_children()[listing_rank(offset)].0],
                ControlFlow::Break(_) => !self.lists_child(ino, offset),
            },
    {
        let rank: u64 = if offset == 0 {
            0
        } else {
            offset - 1
        };
        match self.list.get(ino) {
            Some(DirEntry::Directory(d)) => {
                let es = d.entries();
                if rank < es.len() as u64 {
                    let c = es[rank as usize].0.get();
                    proof {
                        assert(entry_ok(self.tree(), self.index(), self.next_id(), ino));
                        assert(child_ok(self.tree(), ino, self.tree()[ino].spec_children()[rank as int]));
                    }
                    match self.list.get(c) {
                        Some(e) => ControlFlow::Continue(e),
                        None => ControlFlow::Break(()),
                    }
                } else {
                    ControlFlow::Break(())
                }
            },
            _ => ControlFlow::Break(()),
        }
    }

    /// Position `offset` of the listing of directory `ino`: 0 is the
    /// directory itself, 1 its parent, and from 2 on its children in order.
    /// A file or an absent entry has no listing.
    pub fn dir_slot(&self, ino: u64, offset: u64) -> (r: DirSlot)
        requires
            self.wf(),
        ensures
            !(self.tree().contains_key(ino) && self.tree()[ino] is Directory) ==> r == DirSlot::End,
            self.tree().contains_key(ino) && self.tree()[ino] is Directory ==> {
                let cs = self.tree()[ino].spec_children();
                &&& offset == 0 ==> r == DirSlot::Current(ino)
                &&& offset == 1 ==> r == DirSlot::Parent(self.tree()[ino].spec_parent())
                &&& offset >= 2 && offset - 2 >= cs.len() ==> r == DirSlot::End
                &&& offset >= 2 && offset - 2 < cs.len() ==> {
                    let c = cs[offset - 2];
                    &&& r matches DirSlot::Entry(id, kind, name)
                    &&& id == c.0
                    &&& kind == c.1
                    &&& name@ == self.tree()[c.0].spec_name()
                }
            },
    {
        match self.list.get(ino) {
            Some(DirEntry::Directory(d)) => {
                if offset == 0 {
                    DirSlot::Current(ino)
                } else if offset == 1 {
                    DirSlot::Parent(d.parent())
                } else {
                    let es = d.entries();
                    let rank = offset - 2;
                    if rank < es.len() as u64 {
                        let c = es[rank as usize].0.get();
                        let kind = es[rank as usize].1;
                        proof {
                            assert(entry_ok(self.tree(), self.index(), self.next_id(), ino));
                            assert(child_ok(self.tree(), ino, self.tree()[ino].spec_children()[rank as int]));
                        }
                        match self.list.get(c) {
                            Some(e) => DirSlot::Entry(c, kind, e.name().to_owned()),
                            None => DirSlot::End,
                        }
                    } else {
                        DirSlot::End
                    }
                }
            },
            _ => DirSlot::End,
        }
    }
}

/// Taking a childless, non-root entry out of the tree, its parent's listing
/// and the index keeps the namespace well formed.
proof fn lemma_removed_wf(
    tree: Map<u64, DirEntry>,
    index: Map<(u64, Seq<char>), u64>,
    next: u64,
    tree2: Map<u64, DirEntry>,
    index2: Map<(u64, Seq<char>), u64>,
    parent: u64,
    name: Seq<char>,
)
    requires
        tree_wf(tree, index, next),
        index.contains_key((parent, name)),
        ({
            let id = index[(parent, name)];
            let cs = tree[parent].spec_children();
            &&& id != ROOT_INODE
            &&& tree[id].spec_children().len() == 0
            &&& tree[parent].wf()
            &&& tree2.dom() == tree.dom().remove(id)
            &&& forall|k: u64| k != parent && k != id && #[trigger] tree.contains_key(k) ==> tree2[k] == tree[k]
            &&& tree2[parent].same_but_children(&tree[parent])
            &&& tree2[parent].spec_children() == (if child_ids(cs).contains(id) {
                cs.remove(child_ids(cs).index_of(id))
            } else {
                cs
            })
            &&& index2 == index.remove((parent, name))
        }),
    ensures
        tree_wf(tree2, index2, next),
        ({
            let id = index[(parent, name)];
            let cs = tree[parent].spec_children();
            &&& child_ids(cs).contains(id)
            &&& tree2[parent].spec_children() == cs.remove(child_ids(cs).index_of(id))
            &&& tree2[parent].spec_children().len() == cs.len() - 1
            &&& !child_ids(tree2[parent].spec_children()).contains(id)
        }),
{
    let id = index[(parent, name)];
    let key = (parent, name);
    assert(tree.contains_key(id));
    assert(entry_ok(tree, index, next, id));
    assert(tree.contains_key(parent));
    assert(entry_ok(tree, index, next, parent));
    let cs = tree[parent].spec_children();
    let ids = child_ids(cs);
    assert(ids.contains(id));
    let j = ids.index_of(id);
    assert(0 <= j < ids.len() && ids[j] == id);
    let cs2 = cs.remove(j);
    assert(tree2[parent].spec_children() == cs2);
    // The listing without position j keeps every other position, shifted.
    assert forall|i: int| 0 <= i < cs2.len() implies #[trigger] cs2[i] == (if i < j {
        cs[i]
    } else {
        cs[i + 1]
    }) by {}
    assert forall|i: int| 0 <= i < cs2.len() implies cs2[i].0 != id by {
        if i < j {
            assert(ids[i] == cs[i].0);
        } else {
            assert(ids[i + 1] == cs[i + 1].0);
        }
    }
    assert(!child_ids(cs2).contains(id)) by {
        if child_ids(cs2).contains(id) {
            let m = choose|m: int| 0 <= m < child_ids(cs2).len() && child_ids(cs2)[m] == id;
            assert(cs2[m].0 == id);
        }
    }
    // The index names `id` only at (parent, name).
    assert forall|k: (u64, Seq<char>)| index.contains_key(k) && k != key implies #[trigger] index[k]
        != id by {
        if index[k] == id {
            assert(tree[id].spec_parent() == k.0 && tree[id].spec_name() == k.1);
        }
    }
    assert(tree2.contains_key(ROOT_INODE));
    assert forall|x: u64| #[trigger] tree2.contains_key(x) implies entry_ok(tree2, index2, next, x) by {
        assert(tree.contains_key(x) && x != id);
        assert(entry_ok(tree, index, next, x));
        let e = tree[x];
        let e2 = tree2[x];
        assert(e2.spec_parent() == e.spec_parent() && e2.spec_name() == e.spec_name());
        assert(index[(e.spec_parent(), e.spec_name())] == x);
        if x != ROOT_INODE {
            let p = e.spec_parent();
            let m = choose|m: int|
                0 <= m < child_ids(tree[p].spec_children()).len() && child_ids(tree[p].spec_children())[m] == x;
            if p == id {
                assert(false);
            }
            if p == parent {
                assert(m != j);
                if m < j {
                    assert(child_ids(cs2)[m] == x);
                } else {
                    assert(child_ids(cs2)[m - 1] == x);
                }
            } else {
                assert(tree2[p] == tree[p]);
            }
        }
        assert forall|i: int| 0 <= i < e2.spec_children().len() implies child_ok(
            tree2,
            x,
            #[trigger] e2.spec_children()[i],
        ) by {
            let c = e2.spec_children()[i];
            if x == parent {
                let i0 = if i < j {
                    i
                } else {
                    i + 1
                };
                assert(c == cs[i0]);
                assert(child_ok(tree, x, cs[i0]));
            } else {
                assert(c == e.spec_children()[i]);
                assert(child_ok(tree, x, c));
            }
            assert(c.0 != id);
            if c.0 == parent {
                assert(tree2[c.0].spec_parent() == tree[c.0].spec_parent());
            }
        }
    }
    assert forall|k: (u64, Seq<char>)| #[trigger] index2.contains_key(k) implies {
        &&& tree2.contains_key(index2[k])
        &&& tree2[index2[k]].spec_parent() == k.0
        &&& tree2[index2[k]].spec_name() == k.1
    } by {
        let x = index[k];
        assert(x != id);
        assert(tree.contains_key(x));
        if x == parent {
            assert(tree2[x].spec_parent() == tree[x].spec_parent());
        }
    }
}

/// An entry without children lists no child twice.
proof fn lemma_empty_wf(item: DirEntry)
    requires
        item.spec_children().len() == 0,
    ensures
        item.wf(),
{
    assert(child_ids(item.spec_children()) =~= Seq::<u64>::empty());
}

/// An identifier that is not live is listed by no directory.
proof fn lemma_not_listed(
    tree: Map<u64, DirEntry>,
    index: Map<(u64, Seq<char>), u64>,
    next: u64,
    dir: u64,
    ino: u64,
)
    requires
        tree_wf(tree, index, next),
        tree.contains_key(dir),
        !tree.contains_key(ino),
    ensures
        !child_ids(tree[dir].spec_children()).contains(ino),
{
    let cs = tree[dir].spec_children();
    if child_ids(cs).contains(ino) {
        let i = choose|i: int| 0 <= i < child_ids(cs).len() && child_ids(cs)[i] == ino;
        assert(entry_ok(tree, index, next, dir));
        assert(child_ok(tree, dir, cs[i]));
    }
}

/// Adding a fresh, childless entry under a live directory, at a free
/// (parent, name) pair, keeps the namespace well formed.
proof fn lemma_added_wf(
    tree: Map<u64, DirEntry>,
    index: Map<(u64, Seq<char>), u64>,
    next: u64,
    tree2: Map<u64, DirEntry>,
    index2: Map<(u64, Seq<char>), u64>,
    next2: u64,
    item: DirEntry,
)
    requires
        tree_wf(tree, index, next),
        ({
            let ino = item.spec_attr().ino;
            let parent = item.spec_parent();
            &&& 0 < ino < u64::MAX
            &&& !tree.contains_key(ino)
            &&& item.spec_attr().kind == item.spec_entry_type()
            &&& item.spec_children().len() == 0
            &&& tree.contains_key(parent)
            &&& tree[parent] is Directory
            &&& !index.contains_key((parent, item.spec_name()))
            &&& tree2.dom() == tree.dom().insert(ino)
            &&& tree2[ino] == item
            &&& forall|k: u64| k != parent && #[trigger] tree.contains_key(k) ==> tree2[k] == tree[k]
            &&& tree2[parent].same_but_children(&tree[parent])
            &&& tree2[parent].spec_children() == tree[parent].spec_children().push(
                (ino, item.spec_entry_type()),
            )
            &&& index2 == index.insert((parent, item.spec_name()), ino)
            &&& next2 == advanced(next, ino)
        }),
    ensures
        tree_wf(tree2, index2, next2),
{
    let ino = item.spec_attr().ino;
    let parent = item.spec_parent();
    let key = (parent, item.spec_name());
    assert(entry_ok(tree, index, next, parent));
    assert(next <= next2 && ino < next2);
    assert forall|id: u64| #[trigger] tree2.contains_key(id) implies entry_ok(tree2, index2, next2, id) by {
        if id == ino {
            assert(child_ids(tree2[parent].spec_children()).last() == ino);
        } else {
            assert(tree.contains_key(id));
            assert(entry_ok(tree, index, next, id));
            let e = tree[id];
            let e2 = tree2[id];
            assert(e2.spec_parent() == e.spec_parent() && e2.spec_name() == e.spec_name());
            assert((e.spec_parent(), e.spec_name()) != key);
            if id != ROOT_INODE {
                let p = e.spec_parent();
                let j = choose|j: int|
                    0 <= j < child_ids(tree[p].spec_children()).len() && child_ids(tree[p].spec_children())[j] == id;
                if p == parent {
                    assert(child_ids(tree2[p].spec_children())[j] == id);
                } else {
                    assert(tree2[p] == tree[p]);
                }
            }
            assert forall|i: int| 0 <= i < e2.spec_children().len() implies child_ok(
                tree2,
                id,
                #[trigger] e2.spec_children()[i],
            ) by {
                if id == parent && i == e2.spec_children().len() - 1 {
                } else {
                    assert(e2.spec_children()[i] == e.spec_children()[i]);
                    assert(child_ok(tree, id, e.spec_children()[i]));
                    let c = e.spec_children()[i].0;
                    assert(c != ino);
                    if c == parent {
                        assert(tree2[c].spec_parent() == tree[c].spec_parent());
                    }
                }
            }
        }
    }
    assert forall|k: (u64, Seq<char>)| #[trigger] index2.contains_key(k) implies {
        &&& tree2.contains_key(index2[k])
        &&& tree2[index2[k]].spec_parent() == k.0
        &&& tree2[index2[k]].spec_name() == k.1
    } by {
        if k != key {
            let id = index[k];
            assert(tree.contains_key(id));
            if id == parent {
                assert(tree2[id].spec_parent() == tree[id].spec_parent());
            } else {
                assert(tree2[id] == tree[id]);
            }
        }
    }
}

/// `path` starts at the root and each of its steps goes from an entry to
/// one of the children that entry lists.
pub open spec fn is_path(tree: Map<u64, DirEntry>, path: Seq<u64>) -> bool {
    &&& path.len() > 0
    &&& path[0] == ROOT_INODE
    &&& forall|i: int|
        0 < i < path.len() ==> tree.contains_key(path[i - 1]) && child_ids(
            tree[path[i - 1]].spec_children(),
        ).contains(#[trigger] path[i])
}

/// What a well-formed namespace holds, stated over its views: the root is
/// the directory "/" under itself; every live entry carries its own
/// identifier, sits in its live parent directory's listing and is indexed
/// by its (parent, name) pair; every listed child is live, not the root,
/// and of the recorded kind; every indexed pair names a live entry with that
/// parent and name; and no directory lists a child twice.
pub proof fn lemma_wf_facts(s: &Daniel)
    requires
        s.wf(),
    ensures
        tree_wf(s.tree(), s.index(), s.next_id()),
        forall|k: u64| #[trigger] s.tree().contains_key(k) ==> s.tree()[k].wf(),
{
}

/// No two live entries share an identifier: each entry's record carries
/// the identifier it is stored under, and every live identifier is non-zero
/// and below the next one to be handed out.
pub proof fn lemma_identifiers_unique(s: &Daniel)
    requires
        s.wf(),
    ensures
        forall|a: u64| #[trigger]
            s.tree().contains_key(a) ==> s.tree()[a].spec_attr().ino == a && 0 < a < s.next_id(),
        forall|a: u64, b: u64|
            s.tree().contains_key(a) && s.tree().contains_key(b) && a != b ==> #[trigger] s.tree()[a].spec_attr().ino
                != #[trigger] s.tree()[b].spec_attr().ino,
{
    assert forall|a: u64| #[trigger] s.tree().contains_key(a) implies s.tree()[a].spec_attr().ino == a
        && 0 < a < s.next_id() by {
        assert(entry_ok(s.tree(), s.index(), s.next_id(), a));
    }
}

/// A successful create or mkdir hands out an identifier that no live entry
/// had, larger than all of them, and moves the frontier past it; so a
/// sequence of them never hands out one identifier twice.
pub proof fn lemma_created_identifier_fresh(
    s0: &Daniel,
    s1: &Daniel,
    parent: u64,
    name: Seq<char>,
    kind: EntryType,
    perms: u16,
    now: Timestamp,
    r: Result<FileAttribute, FsError>,
)
    requires
        s0.wf(),
        Daniel::created(s0, s1, parent, name, kind, perms, now, r),
        r is Ok,
    ensures
        !s0.tree().contains_key(r->Ok_0.ino),
        s1.tree().contains_key(r->Ok_0.ino),
        forall|a: u64| #[trigger] s0.tree().contains_key(a) ==> a < r->Ok_0.ino,
        s1.next_id() > r->Ok_0.ino,
{
    lemma_identifiers_unique(s0);
}

/// After a successful create or mkdir of (parent, name), looking that pair
/// up returns the record the call returned.
pub proof fn lemma_create_then_lookup(
    s0: &Daniel,
    s1: &Daniel,
    parent: u64,
    name: Seq<char>,
    kind: EntryType,
    perms: u16,
    now: Timestamp,
    r: Result<FileAttribute, FsError>,
)
    requires
        s0.wf(),
        Daniel::created(s0, s1, parent, name, kind, perms, now, r),
        r is Ok,
    ensures
        s1.lookup_spec(parent, name) == r,
{
}

/// A pair that looks up to an entry keeps looking up to that entry after
/// any create or mkdir, whatever its outcome.
pub proof fn lemma_lookup_kept_by_create(
    s0: &Daniel,
    s1: &Daniel,
    parent: u64,
    name: Seq<char>,
    kind: EntryType,
    perms: u16,
    now: Timestamp,
    r: Result<FileAttribute, FsError>,
    p: u64,
    n: Seq<char>,
)
    requires
        s0.wf(),
        Daniel::created(s0, s1, parent, name, kind, perms, now, r),
        s0.lookup_spec(p, n) is Ok,
    ensures
        s1.lookup_spec(p, n) is Ok,
        s1.lookup_spec(p, n)->Ok_0.ino == s0.lookup_spec(p, n)->Ok_0.ino,
{
    let id = s0.index()[(p, n)];
    assert(s0.tree().contains_key(id));
    assert(entry_ok(s0.tree(), s0.index(), s0.next_id(), id));
    if r is Ok {
        assert((p, n) != (parent, name));
        if id == parent {
            assert(s1.tree()[id].spec_attr() == s0.tree()[id].spec_attr());
        }
    }
}

/// A pair that looks up to an entry keeps looking up to that entry after
/// unlinking any other pair.
pub proof fn lemma_lookup_kept_by_unlink(
    s0: &Daniel,
    s1: &Daniel,
    parent: u64,
    name: Seq<char>,
    r: Result<(), FsError>,
    p: u64,
    n: Seq<char>,
)
    requires
        s0.wf(),
        r == s0.unlink_outcome(parent, name),
        r is Err ==> *s1 == *s0,
        r is Ok ==> Daniel::removed(s0, s1, parent, name),
        s0.lookup_spec(p, n) is Ok,
        (p, n) != (parent, name),
    ensures
        s1.lookup_spec(p, n) == s0.lookup_spec(p, n),
{
    if r is Ok {
        let id = s0.index()[(p, n)];
        let gone = s0.index()[(parent, name)];
        assert(s0.tree().contains_key(id));
        assert(s0.tree().contains_key(gone));
        assert(id != gone);
        if id == parent {
            assert(s1.tree()[id].spec_attr() == s0.tree()[id].spec_attr());
        }
    }
}

/// A pair that looks up to an entry keeps looking up to that entry when a
/// record is replaced the way `setattr` replaces it, since the identifier
/// and kind a record carries are left alone.
pub proof fn lemma_lookup_kept_by_setattr(
    s0: &Daniel,
    s1: &Daniel,
    ino: u64,
    size: Option<u64>,
    atime: Option<TimeOrNow>,
    mtime: Option<TimeOrNow>,
    ctime: Option<Timestamp>,
    now: Timestamp,
    p: u64,
    n: Seq<char>,
)
    requires
        s0.wf(),
        s0.tree().contains_key(ino),
        Daniel::attr_replaced(
            s0,
            s1,
            ino,
            s0.tree()[ino].spec_attr().updated(size, atime, mtime, ctime, now),
        ),
        s0.lookup_spec(p, n) is Ok,
    ensures
        s1.lookup_spec(p, n) is Ok,
        s1.lookup_spec(p, n)->Ok_0.ino == s0.lookup_spec(p, n)->Ok_0.ino,
{
    let id = s0.index()[(p, n)];
    assert(s0.tree().contains_key(id));
}

/// Every identifier reached from the root through child listings has a
/// record, and that record carries the same identifier.
pub proof fn lemma_reachable_has_record(s: &Daniel, path: Seq<u64>)
    requires
        s.wf(),
        is_path(s.tree(), path),
    ensures
        s.tree().contains_key(path.last()),
        s.tree()[path.last()].spec_attr().ino == path.last(),
{
    let tree = s.tree();
    let id = path.last();
    if path.len() > 1 {
        let i = path.len() - 1;
        let p = path[i - 1];
        assert(tree.contains_key(p) && child_ids(tree[p].spec_children()).contains(path[i]));
        assert(entry_ok(tree, s.index(), s.next_id(), p));
        let cs = tree[p].spec_children();
        let j = choose|j: int| 0 <= j < child_ids(cs).len() && child_ids(cs)[j] == id;
        assert(child_ok(tree, p, cs[j]));
    }
    assert(entry_ok(tree, s.index(), s.next_id(), id));
}

/// After a successful unlink of (parent, name), the pair no longer looks
/// up, the removed entry has no record, and its parent no longer lists it.
pub proof fn lemma_unlink_complete(s0: &Daniel, s1: &Daniel, parent: u64, name: Seq<char>)
    requires
        s0.wf(),
        s0.unlink_outcome(parent, name) is Ok,
        Daniel::removed(s0, s1, parent, name),
    ensures
        s1.lookup_spec(parent, name) == Err::<FileAttribute, FsError>(FsError::NotFound),
        s1.getattr_spec(s0.index()[(parent, name)]) == Err::<FileAttribute, FsError>(FsError::NotFound),
        !child_ids(s1.tree()[parent].spec_children()).contains(s0.index()[(parent, name)]),
{
    let id = s0.index()[(parent, name)];
    assert(s0.tree().contains_key(id));
    assert(entry_ok(s0.tree(), s0.index(), s0.next_id(), id));
}

} // verus!
