use vstd::prelude::*;

use std::collections::HashMap;

use crate::error::FsError;
use crate::metadata::{FileAttribute, Inode, Timestamp, ROOT_INODE};

verus! {

/// The kinds of node a filesystem protocol can name.
#[derive(Clone, Copy, Debug, PartialEq, Eq, Structural)]
pub enum NodeKind {
    NamedPipe,
    CharDevice,
    BlockDevice,
    Directory,
    RegularFile,
    Symlink,
    Socket,
}

/// The two kinds of entry the namespace holds.
#[derive(Clone, Copy, Debug, PartialEq, Eq, Structural)]
pub enum EntryType {
    File,
    Directory,
}

impl EntryType {
    pub open spec fn spec_node_kind(self) -> NodeKind {
        match self {
            EntryType::File => NodeKind::RegularFile,
            EntryType::Directory => NodeKind::Directory,
        }
    }

    /// The protocol kind of this entry type.
    #[verifier::when_used_as_spec(spec_node_kind)]
    pub fn node_kind(self) -> (r: NodeKind)
        ensures
            r == self.spec_node_kind(),
    {
        match self {
            EntryType::File => NodeKind::RegularFile,
            EntryType::Directory => NodeKind::Directory,
        }
    }

    /// Accepts directories and regular files; every other kind is not supported.
    pub fn try_from_node_kind(kind: NodeKind) -> (r: Result<EntryType, FsError>)
        ensures
            kind == NodeKind::Directory ==> r == Ok::<EntryType, FsError>(EntryType::Directory),
            kind == NodeKind::RegularFile ==> r == Ok::<EntryType, FsError>(EntryType::File),
            kind != NodeKind::Directory && kind != NodeKind::RegularFile ==> r == Err::<
                EntryType,
                FsError,
            >(FsError::NotSupported),
            r matches Ok(t) ==> t.spec_node_kind() == kind,
    {
        match kind {
            NodeKind::Directory => Ok(EntryType::Directory),
            NodeKind::RegularFile => Ok(EntryType::File),
            _ => Err(FsError::NotSupported),
        }
    }
}

/// A regular file: where it sits, its metadata, and a content buffer.
#[derive(Debug)]
pub struct File {
    parent: Inode,
    attr: FileAttribute,
    name: String,
    data: Vec<u8>,
}

impl File {
    pub closed spec fn spec_parent(&self) -> u64 {
        self.parent@
    }

    pub closed spec fn spec_name(&self) -> Seq<char> {
        self.name@
    }

    pub closed spec fn spec_attr(&self) -> FileAttribute {
        self.attr
    }

    pub closed spec fn spec_data(&self) -> Seq<u8> {
        self.data@
    }

    /// An empty file `name` under `parent`, with identifier `inode`.
    pub fn new(name: String, parent: Inode, inode: Inode, perms: u16, now: Timestamp) -> (r: File)
        ensures
            r.spec_parent() == parent@,
            r.spec_name() == name@,
            r.spec_attr() == FileAttribute::fresh(inode@, EntryType::File, perms, now),
            r.spec_data() == Seq::<u8>::empty(),
    {
        File {
            name,
            parent,
            attr: FileAttribute::new(inode.get(), EntryType::File, perms, now),
            data: Vec::new(),
        }
    }

    #[verifier::when_used_as_spec(spec_parent)]
    pub fn parent(&self) -> (r: u64)
        ensures
            r == self.spec_parent(),
    {
        self.parent.get()
    }

    pub fn name(&self) -> (r: &str)
        ensures
            r@ == self.spec_name(),
    {
        self.name.as_str()
    }

    #[verifier::when_used_as_spec(spec_attr)]
    pub fn attr(&self) -> (r: FileAttribute)
        ensures
            r == self.spec_attr(),
    {
        self.attr
    }

    pub fn data(&self) -> (r: &[u8])
        ensures
            r@ == self.spec_data(),
    {
        self.data.as_slice()
    }

    /// Appends `bytes` to the content buffer.
    pub fn write(&mut self, bytes: &[u8])
        ensures
            final(self).spec_data() == old(self).spec_data() + bytes@,
            final(self).spec_parent() == old(self).spec_parent(),
            final(self).spec_name() == old(self).spec_name(),
            final(self).spec_attr() == old(self).spec_attr(),
    {
        let mut i: usize = 0;
        while i < bytes.len()
            invariant
                i <= bytes@.len(),
                self.data@ == old(self).data@ + bytes@.subrange(0, i as int),
                self.parent == old(self).parent,
                self.name == old(self).name,
                self.attr == old(self).attr,
            decreases bytes@.len() - i,
        {
            self.data.push(bytes[i]);
            i = i + 1;
            assert(bytes@.subrange(0, i as int) =~= bytes@.subrange(0, i - 1) + seq![bytes@[i - 1]]);
        }
        assert(bytes@.subrange(0, i as int) =~= bytes@);
    }

    /// Replaces the metadata record.
    pub fn set_attr(&mut self, attr: FileAttribute)
        ensures
            final(self).spec_attr() == attr,
            final(self).spec_parent() == old(self).spec_parent(),
            final(self).spec_name() == old(self).spec_name(),
            final(self).spec_data() == old(self).spec_data(),
    {
        self.attr = attr;
    }
}

/// A directory: where it sits, its metadata, and its children in the order
/// they were added, each with its kind.
#[derive(Debug)]
pub struct Directory {
    parent: Inode,
    name: String,
    attr: FileAttribute,
    entries: Vec<(Inode, EntryType)>,
}

/// The listing `s` with child `inode` recorded as of kind `kind`: a child
/// already listed keeps its place and takes the new kind, a new one goes last.
pub open spec fn listing_with(s: Seq<(u64, EntryType)>, inode: u64, kind: EntryType) -> Seq<
    (u64, EntryType),
> {
    if child_ids(s).contains(inode) {
        s.update(child_ids(s).index_of(inode), (inode, kind))
    } else {
        s.push((inode, kind))
    }
}

/// The identifiers of a child list, in order.
pub open spec fn child_ids(s: Seq<(u64, EntryType)>) -> Seq<u64> {
    s.map_values(|c: (u64, EntryType)| c.0)
}

impl Directory {
    pub closed spec fn spec_parent(&self) -> u64 {
        self.parent@
    }

    pub closed spec fn spec_name(&self) -> Seq<char> {
        self.name@
    }

    pub closed spec fn spec_attr(&self) -> FileAttribute {
        self.attr
    }

    /// The children in listing order.
    pub closed spec fn spec_entries(&self) -> Seq<(u64, EntryType)> {
        self.entries@.map_values(|c: (Inode, EntryType)| (c.0@, c.1))
    }

    /// No child is listed twice.
    pub open spec fn wf(&self) -> bool {
        child_ids(self.spec_entries()).no_duplicates()
    }

    /// An empty directory `name` under `parent`, with identifier `inode`.
    pub fn new(parent: Inode, name: String, inode: Inode, perms: u16, now: Timestamp) -> (r: Directory)
        ensures
            r.spec_parent() == parent@,
            r.spec_name() == name@,
            r.spec_attr() == FileAttribute::fresh(inode@, EntryType::Directory, perms, now),
            r.spec_entries() == Seq::<(u64, EntryType)>::empty(),
            r.wf(),
    {
        let r = Directory {
            parent,
            name,
            attr: FileAttribute::new(inode.get(), EntryType::Directory, perms, now),
            entries: Vec::new(),
        };
        assert(r.spec_entries() =~= Seq::<(u64, EntryType)>::empty());
        assert(child_ids(r.spec_entries()) =~= Seq::<u64>::empty());
        r
    }

    #[verifier::when_used_as_spec(spec_parent)]
    pub fn parent(&self) -> (r: u64)
        ensures
            r == self.spec_parent(),
    {
        self.parent.get()
    }

    pub fn name(&self) -> (r: &str)
        ensures
            r@ == self.spec_name(),
    {
        self.name.as_str()
    }

    #[verifier::when_used_as_spec(spec_attr)]
    pub fn attr(&self) -> (r: FileAttribute)
        ensures
            r == self.spec_attr(),
    {
        self.attr
    }

    /// The children in listing order.
    pub fn entries(&self) -> (r: &[(Inode, EntryType)])
        ensures
            r@.len() == self.spec_entries().len(),
            forall|i: int|
                0 <= i < r@.len() ==> (#[trigger] r@[i]).0@ == self.spec_entries()[i].0 && r@[i].1
                    == self.spec_entries()[i].1,
    {
        self.entries.as_slice()
    }

    /// The position of child `inode` in the listing, if it is there.
    fn position(&self, inode: u64) -> (r: Option<usize>)
        ensures
            match r {
                Some(i) => i < self.spec_entries().len() && self.spec_entries()[i as int].0 == inode,
                None => !child_ids(self.spec_entries()).contains(inode),
            },
    {
        let mut i: usize = 0;
        while i < self.entries.len()
            invariant
                i <= self.entries@.len(),
                forall|j: int| 0 <= j < i ==> (#[trigger] self.entries@[j]).0@ != inode,
            decreases self.entries@.len() - i,
        {
            if self.entries[i].0.get() == inode {
                return Some(i);
            }
            i = i + 1;
        }
        proof {
            if child_ids(self.spec_entries()).contains(inode) {
                let j = choose|j: int|
                    0 <= j < child_ids(self.spec_entries()).len() && child_ids(self.spec_entries())[j]
                        == inode;
                assert(self.entries@[j].0@ == inode);
            }
        }
        None
    }

    /// The kind of child `inode`, if it is a child.
    pub fn get(&self, inode: &Inode) -> (r: Option<EntryType>)
        ensures
            match r {
                Some(t) => exists|i: int|
                    0 <= i < self.spec_entries().len() && #[trigger] self.spec_entries()[i] == (
                    inode@,
                    t,
                ),
                None => !child_ids(self.spec_entries()).contains(inode@),
            },
    {
        match self.position(inode.get()) {
            Some(i) => Some(self.entries[i].1),
            None => None,
        }
    }

    /// Records `inode` as a child of kind `entry`: a child already listed
    /// keeps its place and takes the new kind, a new one goes last.
    pub fn insert(&mut self, inode: Inode, entry: EntryType)
        requires
            old(self).wf(),
        ensures
            final(self).wf(),
            final(self).spec_entries() == listing_with(old(self).spec_entries(), inode@, entry),
            final(self).spec_parent() == old(self).spec_parent(),
            final(self).spec_name() == old(self).spec_name(),
            final(self).spec_attr() == old(self).spec_attr(),
    {
        match self.position(inode.get()) {
            Some(i) => {
                proof {
                    lemma_index_of_distinct(old(self).spec_entries(), i as int);
                }
                self.entries[i].1 = entry;
                assert(self.spec_entries() =~= old(self).spec_entries().update(i as int, (inode@, entry)));
                assert(child_ids(self.spec_entries()) =~= child_ids(old(self).spec_entries()));
            },
            None => {
                self.entries.push((inode, entry));
                assert(self.spec_entries() =~= old(self).spec_entries().push((inode@, entry)));
                assert(child_ids(self.spec_entries()) =~= child_ids(old(self).spec_entries()).push(inode@));
            },
        }
    }

    /// Same as `insert`.
    pub fn push(&mut self, inode: Inode, entry: EntryType)
        requires
            old(self).wf(),
        ensures
            final(self).wf(),
            final(self).spec_entries() == listing_with(old(self).spec_entries(), inode@, entry),
            final(self).spec_parent() == old(self).spec_parent(),
            final(self).spec_name() == old(self).spec_name(),
            final(self).spec_attr() == old(self).spec_attr(),
    {
        self.insert(inode, entry)
    }

    /// Drops child `inode` from the listing; the others keep their order.
    pub fn remove(&mut self, inode: Inode)
        requires
            old(self).wf(),
        ensures
            final(self).wf(),
            final(self).spec_entries() == (if child_ids(old(self).spec_entries()).contains(inode@) {
                old(self).spec_entries().remove(child_ids(old(self).spec_entries()).index_of(inode@))
            } else {
                old(self).spec_entries()
            }),
            final(self).spec_parent() == old(self).spec_parent(),
            final(self).spec_name() == old(self).spec_name(),
            final(self).spec_attr() == old(self).spec_attr(),
    {
        match self.position(inode.get()) {
            Some(i) => {
                proof {
                    lemma_index_of_distinct(old(self).spec_entries(), i as int);
                }
                self.entries.remove(i);
                assert(self.spec_entries() =~= old(self).spec_entries().remove(i as int));
                assert(child_ids(self.spec_entries()) =~= child_ids(old(self).spec_entries()).remove(i as int));
            },
            None => {},
        }
    }

    /// Replaces the metadata record.
    pub fn set_attr(&mut self, attr: FileAttribute)
        ensures
            final(self).spec_attr() == attr,
            final(self).spec_parent() == old(self).spec_parent(),
            final(self).spec_name() == old(self).spec_name(),
            final(self).spec_entries() == old(self).spec_entries(),
            final(self).wf() == old(self).wf(),
    {
        self.attr = attr;
    }
}

/// In a listing without repeats, a child's identifier names its own position.
proof fn lemma_index_of_distinct(s: Seq<(u64, EntryType)>, i: int)
    requires
        0 <= i < s.len(),
        child_ids(s).no_duplicates(),
    ensures
        child_ids(s).contains(s[i].0),
        child_ids(s).index_of(s[i].0) == i,
{
    let ids = child_ids(s);
    assert(ids[i] == s[i].0);
}

/// An entry of the directory tree.
#[derive(Debug)]
pub enum DirEntry {
    Directory(Directory),
    File(File),
}

impl DirEntry {
    pub open spec fn spec_parent(&self) -> u64 {
        match self {
            DirEntry::Directory(d) => d.spec_parent(),
            DirEntry::File(f) => f.spec_parent(),
        }
    }

    pub open spec fn spec_name(&self) -> Seq<char> {
        match self {
            DirEntry::Directory(d) => d.spec_name(),
            DirEntry::File(f) => f.spec_name(),
        }
    }

    pub open spec fn spec_attr(&self) -> FileAttribute {
        match self {
            DirEntry::Directory(d) => d.spec_attr(),
            DirEntry::File(f) => f.spec_attr(),
        }
    }

    pub open spec fn spec_entry_type(&self) -> EntryType {
        match self {
            DirEntry::Directory(_) => EntryType::Directory,
            DirEntry::File(_) => EntryType::File,
        }
    }

    /// The children of a directory; a file has none.
    pub open spec fn spec_children(&self) -> Seq<(u64, EntryType)> {
        match self {
            DirEntry::Directory(d) => d.spec_entries(),
            DirEntry::File(_) => Seq::empty(),
        }
    }

    pub open spec fn wf(&self) -> bool {
        match self {
            DirEntry::Directory(d) => d.wf(),
            DirEntry::File(_) => true,
        }
    }

    /// `self` with `attr` in place of its record, all else kept.
    pub open spec fn same_but_attr(&self, other: &DirEntry) -> bool {
        &&& self.spec_entry_type() == other.spec_entry_type()
        &&& self.spec_parent() == other.spec_parent()
        &&& self.spec_name() == other.spec_name()
        &&& self.spec_children() == other.spec_children()
        &&& self.wf() == other.wf()
    }

    /// `self` with another child listing, all else kept.
    pub open spec fn same_but_children(&self, other: &DirEntry) -> bool {
        &&& self.spec_entry_type() == other.spec_entry_type()
        &&& self.spec_parent() == other.spec_parent()
        &&& self.spec_name() == other.spec_name()
        &&& self.spec_attr() == other.spec_attr()
    }

    /// The protocol kind of this entry.
    pub fn kind(&self) -> (r: NodeKind)
        ensures
            r == self.spec_entry_type().spec_node_kind(),
    {
        match self {
            DirEntry::Directory(_) => NodeKind::Directory,
            DirEntry::File(_) => NodeKind::RegularFile,
        }
    }

    #[verifier::when_used_as_spec(spec_entry_type)]
    pub fn entry_type(&self) -> (r: EntryType)
        ensures
            r == self.spec_entry_type(),
    {
        match self {
            DirEntry::Directory(_) => EntryType::Directory,
            DirEntry::File(_) => EntryType::File,
        }
    }

    pub fn name(&self) -> (r: &str)
        ensures
            r@ == self.spec_name(),
    {
        match self {
            DirEntry::Directory(d) => d.name(),
            DirEntry::File(f) => f.name(),
        }
    }

    #[verifier::when_used_as_spec(spec_parent)]
    pub fn parent(&self) -> (r: u64)
        ensures
            r == self.spec_parent(),
    {
        match self {
            DirEntry::Directory(d) => d.parent(),
            DirEntry::File(f) => f.parent(),
        }
    }

    #[verifier::when_used_as_spec(spec_attr)]
    pub fn attr(&self) -> (r: FileAttribute)
        ensures
            r == self.spec_attr(),
    {
        match self {
            DirEntry::Directory(d) => d.attr(),
            DirEntry::File(f) => f.attr(),
        }
    }

    /// The directory, or `Invalid` for a file.
    pub fn directory(&self) -> (r: Result<&Directory, FsError>)
        ensures
            match self {
                DirEntry::Directory(d) => r == Ok::<&Directory, FsError>(d),
                DirEntry::File(_) => r == Err::<&Directory, FsError>(FsError::Invalid),
            },
    {
        match self {
            DirEntry::Directory(d) => Ok(d),
            DirEntry::File(_) => Err(FsError::Invalid),
        }
    }

    /// The file, or `Invalid` for a directory.
    pub fn file(&self) -> (r: Result<&File, FsError>)
        ensures
            match self {
                DirEntry::File(f) => r == Ok::<&File, FsError>(f),
                DirEntry::Directory(_) => r == Err::<&File, FsError>(FsError::Invalid),
            },
    {
        match self {
            DirEntry::Directory(_) => Err(FsError::Invalid),
            DirEntry::File(f) => Ok(f),
        }
    }

    /// Replaces the metadata record.
    pub fn set_attr(&mut self, attr: FileAttribute)
        ensures
            final(self).spec_attr() == attr,
            final(self).same_but_attr(old(self)),
    {
        match self {
            DirEntry::Directory(d) => d.set_attr(attr),
            DirEntry::File(f) => f.set_attr(attr),
        }
    }

    /// Adds a child to a directory; a file has no children and gives `Invalid`.
    pub fn insert_child(&mut self, inode: Inode, kind: EntryType) -> (r: Result<(), FsError>)
        requires
            old(self).wf(),
        ensures
            final(self).wf(),
            final(self).same_but_children(old(self)),
            match old(self) {
                DirEntry::Directory(_) => r is Ok && final(self).spec_children() == listing_with(
                    old(self).spec_children(),
                    inode@,
                    kind,
                ),
                DirEntry::File(_) => r == Err::<(), FsError>(FsError::Invalid) && *final(self)
                    == *old(self),
            },
    {
        match self {
            DirEntry::Directory(d) => {
                d.insert(inode, kind);
                Ok(())
            },
            DirEntry::File(_) => Err(FsError::Invalid),
        }
    }

    /// Drops a child of a directory, the others keeping their order; a file
    /// has no children and gives `Invalid`.
    pub fn remove_child(&mut self, inode: Inode) -> (r: Result<(), FsError>)
        requires
            old(self).wf(),
        ensures
            final(self).wf(),
            final(self).same_but_children(old(self)),
            match old(self) {
                DirEntry::Directory(_) => r is Ok && final(self).spec_children() == (if child_ids(
                    old(self).spec_children(),
                ).contains(inode@) {
                    old(self).spec_children().remove(
                        child_ids(old(self).spec_children()).index_of(inode@),
                    )
                } else {
                    old(self).spec_children()
                }),
                DirEntry::File(_) => r == Err::<(), FsError>(FsError::Invalid) && *final(self)
                    == *old(self),
            },
    {
        match self {
            DirEntry::Directory(d) => {
                d.remove(inode);
                Ok(())
            },
            DirEntry::File(_) => Err(FsError::Invalid),
        }
    }
}

/// The directory tree: every entry, keyed by its identifier.
#[derive(Debug)]
pub struct DirList {
    map: HashMap<u64, DirEntry>,
}

impl View for DirList {
    type V = Map<u64, DirEntry>;

    closed spec fn view(&self) -> Map<u64, DirEntry> {
        self.map@
    }
}

impl DirList {
    /// Every directory lists each child once.
    pub open spec fn wf(&self) -> bool {
        forall|k: u64| #[trigger] self@.contains_key(k) ==> self@[k].wf()
    }

    /// A tree holding only the root directory "/", its own parent.
    pub fn new(now: Timestamp) -> (r: DirList)
        ensures
            r.wf(),
            r@.dom() == set![ROOT_INODE],
            r@[ROOT_INODE] is Directory,
            r@[ROOT_INODE].spec_parent() == ROOT_INODE,
            r@[ROOT_INODE].spec_name() == "/"@,
            r@[ROOT_INODE].spec_attr() == FileAttribute::fresh(
                ROOT_INODE,
                EntryType::Directory,
                0o755,
                now,
            ),
            r@[ROOT_INODE].spec_children() == Seq::<(u64, EntryType)>::empty(),
    {
        let mut map: HashMap<u64, DirEntry> = HashMap::new();
        let root = Inode::root();
        map.insert(
            ROOT_INODE,
            DirEntry::Directory(Directory::new(root, "/".to_owned(), root, 0o755, now)),
        );
        let r = DirList { map };
        assert(r@.dom() =~= set![ROOT_INODE]);
        r
    }

    /// The underlying map.
    pub fn map(&self) -> (r: &HashMap<u64, DirEntry>)
        ensures
            r@ == self@,
    {
        &self.map
    }

    pub fn len(&self) -> (r: usize)
        ensures
            r == self@.len(),
    {
        self.map.len()
    }

    pub fn get(&self, ino: u64) -> (r: Option<&DirEntry>)
        ensures
            match r {
                Some(e) => self@.contains_key(ino) && *e == self@[ino],
                None => !self@.contains_key(ino),
            },
    {
        self.map.get(&ino)
    }

    pub fn contains(&self, ino: u64) -> (r: bool)
        ensures
            r == self@.contains_key(ino),
    {
        self.map.contains_key(&ino)
    }

    /// Stores `entry` under `inode`, replacing what was there.
    pub fn insert(&mut self, inode: Inode, entry: DirEntry)
        ensures
            final(self)@ == old(self)@.insert(inode@, entry),
    {
        self.map.insert(inode.get(), entry);
    }

    /// Takes the entry stored under `ino` out of the tree.
    pub fn remove(&mut self, ino: u64) -> (r: Option<DirEntry>)
        ensures
            final(self)@ == old(self)@.remove(ino),
            match r {
                Some(e) => old(self)@.contains_key(ino) && e == old(self)@[ino],
                None => !old(self)@.contains_key(ino),
            },
    {
        self.map.remove(&ino)
    }

    /// Adds `child` to the listing of directory `parent`: `NotFound` if
    /// `parent` does not resolve to a directory.
    pub fn child_insert(&mut self, parent: u64, child: Inode, kind: EntryType) -> (r: Result<(), FsError>)
        requires
            old(self).wf(),
        ensures
            final(self).wf(),
            !old(self)@.contains_key(parent) ==> r == Err::<(), FsError>(FsError::NotFound) && final(self)@ == old(self)@,
            old(self)@.contains_key(parent) && old(self)@[parent] is File ==> r == Err::<(), FsError>(
                FsError::NotFound,
            ) && final(self)@ == old(self)@,
            old(self)@.contains_key(parent) && old(self)@[parent] is Directory ==> {
                &&& r is Ok
                &&& final(self)@.dom() == old(self)@.dom()
                &&& forall|k: u64| k != parent && #[trigger] old(self)@.contains_key(k) ==> final(self)@[k] == old(self)@[k]
                &&& final(self)@[parent].same_but_children(&old(self)@[parent])
                &&& final(self)@[parent].spec_children() == listing_with(
                    old(self)@[parent].spec_children(),
                    child@,
                    kind,
                )
            },
    {
        match self.map.remove(&parent) {
            None => Err(FsError::NotFound),
            Some(mut e) => {
                let r = e.insert_child(child, kind);
                self.map.insert(parent, e);
                match r {
                    Ok(()) => Ok(()),
                    Err(_) => {
                        assert(self.map@ =~= old(self).map@);
                        Err(FsError::NotFound)
                    },
                }
            },
        }
    }

    /// Drops `child` from the listing of directory `parent`: `NotFound` if
    /// `parent` does not resolve to a directory.
    pub fn child_remove(&mut self, parent: u64, child: Inode) -> (r: Result<(), FsError>)
        requires
            old(self).wf(),
        ensures
            final(self).wf(),
            !old(self)@.contains_key(parent) ==> r == Err::<(), FsError>(FsError::NotFound) && final(self)@ == old(self)@,
            old(self)@.contains_key(parent) && old(self)@[parent] is File ==> r == Err::<(), FsError>(
                FsError::NotFound,
            ) && final(self)@ == old(self)@,
            old(self)@.contains_key(parent) && old(self)@[parent] is Directory ==> {
                &&& r is Ok
                &&& final(self)@.dom() == old(self)@.dom()
                &&& forall|k: u64| k != parent && #[trigger] old(self)@.contains_key(k) ==> final(self)@[k] == old(self)@[k]
                &&& final(self)@[parent].same_but_children(&old(self)@[parent])
                &&& final(self)@[parent].spec_children() == (if child_ids(
                    old(self)@[parent].spec_children(),
                ).contains(child@) {
                    old(self)@[parent].spec_children().remove(
                        child_ids(old(self)@[parent].spec_children()).index_of(child@),
                    )
                } else {
                    old(self)@[parent].spec_children()
                })
            },
    {
        match self.map.remove(&parent) {
            None => Err(FsError::NotFound),
            Some(mut e) => {
                let r = e.remove_child(child);
                self.map.insert(parent, e);
                match r {
                    Ok(()) => Ok(()),
                    Err(_) => {
                        assert(self.map@ =~= old(self).map@);
                        Err(FsError::NotFound)
                    },
                }
            },
        }
    }

    /// Replaces the metadata record of entry `ino`; `NotFound` if absent.
    pub fn set_attr(&mut self, ino: u64, attr: FileAttribute) -> (r: Result<(), FsError>)
        requires
            old(self).wf(),
        ensures
            final(self).wf(),
            r is Ok <==> old(self)@.contains_key(ino),
            r is Err ==> r == Err::<(), FsError>(FsError::NotFound) && final(self)@ == old(self)@,
            r is Ok ==> {
                &&& final(self)@.dom() == old(self)@.dom()
                &&& forall|k: u64| k != ino && #[trigger] old(self)@.contains_key(k) ==> final(self)@[k] == old(self)@[k]
                &&& final(self)@[ino].same_but_attr(&old(self)@[ino])
                &&& final(self)@[ino].spec_attr() == attr
            },
    {
        match self.map.remove(&ino) {
            None => {
                assert(self@ =~= old(self)@);
                Err(FsError::NotFound)
            },
            Some(mut e) => {
                e.set_attr(attr);
                self.map.insert(ino, e);
                assert forall|k: u64| #[trigger] self@.contains_key(k) implies self@[k].wf() by {
                    if k != ino {
                        assert(old(self)@.contains_key(k));
                    }
                }
                Ok(())
            },
        }
    }
}

/// A child identifier tagged with its kind.
#[derive(Debug)]
pub enum DirectoryInodes {
    Dir(u64),
    File(u64),
}

} // verus!
