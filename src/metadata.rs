use vstd::prelude::*;

use std::collections::HashMap;

use crate::error::FsError;
use crate::file_types::EntryType;

verus! {

/// A non-zero entry identifier.
#[derive(Clone, Copy, Debug, PartialEq, Eq, Structural, Hash, PartialOrd, Ord)]
pub struct Inode(u64);

impl View for Inode {
    type V = u64;

    closed spec fn view(&self) -> u64 {
        self.0
    }
}

impl Inode {
    #[verifier::type_invariant]
    spec fn nonzero(self) -> bool {
        self.0 != 0
    }

    pub fn new(ino: u64) -> (r: Inode)
        requires
            ino != 0,
        ensures
            r@ == ino,
    {
        Inode(ino)
    }

    /// `None` for zero, the identifier otherwise.
    pub fn try_new(ino: u64) -> (r: Option<Inode>)
        ensures
            r matches Some(i) ==> i@ == ino,
            r is None <==> ino == 0,
    {
        if ino == 0 {
            None
        } else {
            Some(Inode(ino))
        }
    }

    /// The root's identifier.
    pub fn root() -> (r: Inode)
        ensures
            r@ == ROOT_INODE,
    {
        Inode(ROOT_INODE)
    }

    pub fn get(self) -> (r: u64)
        ensures
            r == self@,
            r != 0,
    {
        proof {
            use_type_invariant(&self);
        }
        self.0
    }
}

impl From<Inode> for u64 {
    fn from(value: Inode) -> (r: u64) {
        value.get()
    }
}

impl vstd::std_specs::convert::FromSpecImpl<Inode> for u64 {
    open spec fn obeys_from_spec() -> bool {
        true
    }

    open spec fn from_spec(v: Inode) -> u64 {
        v@
    }
}

/// The identifier permanently bound to the namespace root.
pub const ROOT_INODE: u64 = 1;

/// One path-index record: the parent, the name under it, and the entry it names.
pub type PathRecord = (Inode, String, Inode);

/// The path index: (parent, name) pairs and bare names, each mapped to an
/// identifier, together with the allocation frontier.
pub struct InodeMapper {
    paths: Vec<(String, Inode)>,
    map: Vec<PathRecord>,
    next_inode: u64,
    index_view: Ghost<Map<(u64, Seq<char>), u64>>,
    names_view: Ghost<Map<Seq<char>, u64>>,
}

pub open spec fn record_key(e: PathRecord) -> (u64, Seq<char>) {
    (e.0@, e.1@)
}

/// The frontier after `ino` has been handed out: past it, and never back.
pub open spec fn advanced(next: u64, ino: u64) -> u64 {
    if ino < next {
        next
    } else if ino == u64::MAX {
        u64::MAX
    } else {
        (ino + 1) as u64
    }
}

/// The records have distinct keys and hold exactly the pairs of `index`.
spec fn records_agree(records: Seq<PathRecord>, index: Map<(u64, Seq<char>), u64>) -> bool {
    &&& forall|i: int, j: int|
        0 <= i < j < records.len() ==> record_key(#[trigger] records[i]) != record_key(
            #[trigger] records[j],
        )
    &&& forall|i: int|
        0 <= i < records.len() ==> {
            &&& index.contains_key(record_key(#[trigger] records[i]))
            &&& index[record_key(records[i])] == records[i].2@
        }
    &&& forall|k: (u64, Seq<char>)| #[trigger]
        index.contains_key(k) ==> exists|i: int|
            0 <= i < records.len() && record_key(#[trigger] records[i]) == k
}

/// The name records have distinct names and hold exactly the pairs of `names`.
spec fn names_agree(records: Seq<(String, Inode)>, names: Map<Seq<char>, u64>) -> bool {
    &&& forall|i: int, j: int|
        0 <= i < j < records.len() ==> (#[trigger] records[i]).0@ != (#[trigger] records[j]).0@
    &&& forall|i: int|
        0 <= i < records.len() ==> {
            &&& names.contains_key((#[trigger] records[i]).0@)
            &&& names[records[i].0@] == records[i].1@
        }
    &&& forall|k: Seq<char>| #[trigger]
        names.contains_key(k) ==> exists|i: int| 0 <= i < records.len() && (#[trigger] records[i]).0@ == k
}

impl InodeMapper {
    /// (parent, name) pairs and the identifiers they name.
    pub closed spec fn index(&self) -> Map<(u64, Seq<char>), u64> {
        self.index_view@
    }

    /// Bare names and the identifier each was last registered with.
    pub closed spec fn names(&self) -> Map<Seq<char>, u64> {
        self.names_view@
    }

    /// The next identifier to hand out.
    pub closed spec fn next(&self) -> u64 {
        self.next_inode
    }

    pub closed spec fn wf(&self) -> bool {
        &&& self.next_inode >= 2
        &&& self.map_wf()
        &&& self.paths_wf()
    }

    spec fn map_wf(&self) -> bool {
        records_agree(self.map@, self.index_view@)
    }

    spec fn paths_wf(&self) -> bool {
        names_agree(self.paths@, self.names_view@)
    }

    /// The index with only the root, named "/" under itself.
    pub fn new() -> (r: InodeMapper)
        ensures
            r.wf(),
            r.index() == Map::<(u64, Seq<char>), u64>::empty().insert((ROOT_INODE, "/"@), ROOT_INODE),
            r.names() == Map::<Seq<char>, u64>::empty().insert("/"@, ROOT_INODE),
            r.next() == 2,
    {
        let root = Inode::root();
        let mut map: Vec<PathRecord> = Vec::new();
        map.push((root, "/".to_owned(), root));
        let mut paths: Vec<(String, Inode)> = Vec::new();
        paths.push(("/".to_owned(), root));
        let r = InodeMapper {
            paths,
            map,
            next_inode: 2,
            index_view: Ghost(Map::empty().insert((ROOT_INODE, "/"@), ROOT_INODE)),
            names_view: Ghost(Map::empty().insert("/"@, ROOT_INODE)),
        };
        assert(record_key(r.map@[0]) == (ROOT_INODE, "/"@));
        assert(r.paths@[0].0@ == "/"@);
        assert(r.map_wf());
        assert(r.paths_wf());
        r
    }

    /// The position of the record for (parent, name), if there is one.
    fn find(&self, parent: u64, name: &String) -> (r: Option<usize>)
        requires
            self.map_wf(),
        ensures
            match r {
                Some(i) => i < self.map@.len() && record_key(self.map@[i as int]) == (parent, name@),
                None => !self.index().contains_key((parent, name@)),
            },
    {
        let mut i: usize = 0;
        while i < self.map.len()
            invariant
                self.map_wf(),
                i <= self.map@.len(),
                forall|j: int| 0 <= j < i ==> record_key(#[trigger] self.map@[j]) != (parent, name@),
            decreases self.map@.len() - i,
        {
            let e = &self.map[i];
            if e.0.get() == parent && e.1 == *name {
                return Some(i);
            }
            i = i + 1;
        }
        None
    }

    /// The position of the record for the bare name, if there is one.
    fn find_path(&self, name: &String) -> (r: Option<usize>)
        requires
            self.paths_wf(),
        ensures
            match r {
                Some(i) => i < self.paths@.len() && self.paths@[i as int].0@ == name@,
                None => !self.names().contains_key(name@),
            },
    {
        let mut i: usize = 0;
        while i < self.paths.len()
            invariant
                self.paths_wf(),
                i <= self.paths@.len(),
                forall|j: int| 0 <= j < i ==> (#[trigger] self.paths@[j]).0@ != name@,
            decreases self.paths@.len() - i,
        {
            if self.paths[i].0 == *name {
                return Some(i);
            }
            i = i + 1;
        }
        None
    }

    /// Every record of the (parent, name) index, each once.
    pub fn map(&self) -> (r: &[PathRecord])
        requires
            self.wf(),
        ensures
            forall|i: int|
                0 <= i < r@.len() ==> self.index().contains_key(record_key(#[trigger] r@[i]))
                    && self.index()[record_key(r@[i])] == r@[i].2@,
            forall|k: (u64, Seq<char>)| #[trigger]
                self.index().contains_key(k) ==> exists|i: int|
                    0 <= i < r@.len() && record_key(#[trigger] r@[i]) == k,
            forall|i: int, j: int|
                0 <= i < j < r@.len() ==> record_key(#[trigger] r@[i]) != record_key(#[trigger] r@[j]),
    {
        self.map.as_slice()
    }

    /// The identifier registered for (parent, name).
    pub fn get_map(&self, parent: Inode, path: &str) -> (r: Option<Inode>)
        requires
            self.wf(),
        ensures
            match r {
                Some(i) => self.index().contains_key((parent@, path@)) && self.index()[(parent@, path@)] == i@,
                None => !self.index().contains_key((parent@, path@)),
            },
    {
        let name = path.to_owned();
        match self.find(parent.get(), &name) {
            Some(i) => Some(self.map[i].2),
            None => None,
        }
    }

    /// The identifier last registered under the bare name.
    pub fn get_path(&self, path: &str) -> (r: Option<Inode>)
        requires
            self.wf(),
        ensures
            match r {
                Some(i) => self.names().contains_key(path@) && self.names()[path@] == i@,
                None => !self.names().contains_key(path@),
            },
    {
        let name = path.to_owned();
        match self.find_path(&name) {
            Some(i) => Some(self.paths[i].1),
            None => None,
        }
    }

    /// The next identifier to hand out.
    pub fn next_inode(&self) -> (r: Inode)
        requires
            self.wf(),
        ensures
            r@ == self.next(),
    {
        Inode::new(self.next_inode)
    }

    /// Registers (parent, name) and the bare name for `inode`; a prior
    /// mapping of either is overwritten. The frontier moves past `inode`.
    pub fn insert(&mut self, parent: Inode, path: &str, inode: Inode)
        requires
            old(self).wf(),
        ensures
            final(self).wf(),
            final(self).index() == old(self).index().insert((parent@, path@), inode@),
            final(self).names() == old(self).names().insert(path@, inode@),
            final(self).next() == advanced(old(self).next(), inode@),
    {
        let name = path.to_owned();
        let ghost key = (parent@, path@);
        match self.find(parent.get(), &name) {
            Some(i) => {
                self.map[i].2 = inode;
                self.index_view = Ghost(self.index_view@.insert(key, inode@));
                assert forall|k: (u64, Seq<char>)| #[trigger]
                    self.index_view@.contains_key(k) implies exists|j: int|
                        0 <= j < self.map@.len() && record_key(#[trigger] self.map@[j]) == k by {
                    if k != key {
                        let j = choose|j: int|
                            0 <= j < old(self).map@.len() && record_key(#[trigger] old(self).map@[j]) == k;
                        assert(record_key(self.map@[j]) == k);
                    } else {
                        assert(record_key(self.map@[i as int]) == k);
                    }
                }
            },
            None => {
                self.map.push((parent, name.clone(), inode));
                self.index_view = Ghost(self.index_view@.insert(key, inode@));
                assert(record_key(self.map@[self.map@.len() - 1]) == key);
                assert forall|k: (u64, Seq<char>)| #[trigger]
                    self.index_view@.contains_key(k) implies exists|j: int|
                        0 <= j < self.map@.len() && record_key(#[trigger] self.map@[j]) == k by {
                    if k != key {
                        let j = choose|j: int|
                            0 <= j < old(self).map@.len() && record_key(#[trigger] old(self).map@[j]) == k;
                        assert(record_key(self.map@[j]) == k);
                    }
                }
            },
        }
        match self.find_path(&name) {
            Some(i) => {
                self.paths[i].1 = inode;
                self.names_view = Ghost(self.names_view@.insert(path@, inode@));
                assert forall|k: Seq<char>| #[trigger]
                    self.names_view@.contains_key(k) implies exists|j: int|
                        0 <= j < self.paths@.len() && (#[trigger] self.paths@[j]).0@ == k by {
                    if k != path@ {
                        let j = choose|j: int|
                            0 <= j < old(self).paths@.len() && (#[trigger] old(self).paths@[j]).0@ == k;
                        assert(self.paths@[j].0@ == k);
                    } else {
                        assert(self.paths@[i as int].0@ == k);
                    }
                }
            },
            None => {
                self.paths.push((name, inode));
                self.names_view = Ghost(self.names_view@.insert(path@, inode@));
                assert(self.paths@[self.paths@.len() - 1].0@ == path@);
                assert forall|k: Seq<char>| #[trigger]
                    self.names_view@.contains_key(k) implies exists|j: int|
                        0 <= j < self.paths@.len() && (#[trigger] self.paths@[j]).0@ == k by {
                    if k != path@ {
                        let j = choose|j: int|
                            0 <= j < old(self).paths@.len() && (#[trigger] old(self).paths@[j]).0@ == k;
                        assert(self.paths@[j].0@ == k);
                    }
                }
            },
        }
        let ino = inode.get();
        if ino >= self.next_inode {
            self.next_inode = if ino == u64::MAX {
                u64::MAX
            } else {
                ino + 1
            };
        }
    }

    /// Drops (parent, name) and the bare name; absent keys are left alone.
    pub fn remove(&mut self, parent: Inode, path: &str)
        requires
            old(self).wf(),
        ensures
            final(self).wf(),
            final(self).index() == old(self).index().remove((parent@, path@)),
            final(self).names() == old(self).names().remove(path@),
            final(self).next() == old(self).next(),
    {
        let name = path.to_owned();
        let ghost key = (parent@, path@);
        match self.find(parent.get(), &name) {
            Some(i) => {
                self.map.remove(i);
                self.index_view = Ghost(self.index_view@.remove(key));
                assert forall|k: (u64, Seq<char>)| #[trigger]
                    self.index_view@.contains_key(k) implies exists|j: int|
                        0 <= j < self.map@.len() && record_key(#[trigger] self.map@[j]) == k by {
                    let j = choose|j: int|
                        0 <= j < old(self).map@.len() && record_key(#[trigger] old(self).map@[j]) == k;
                    if j < i {
                        assert(record_key(self.map@[j]) == k);
                    } else {
                        assert(record_key(self.map@[j - 1]) == k);
                    }
                }
            },
            None => {
                proof {
                    assert(self.index_view@ =~= self.index_view@.remove(key));
                }
            },
        }
        match self.find_path(&name) {
            Some(i) => {
                self.paths.remove(i);
                self.names_view = Ghost(self.names_view@.remove(path@));
                assert forall|k: Seq<char>| #[trigger]
                    self.names_view@.contains_key(k) implies exists|j: int|
                        0 <= j < self.paths@.len() && (#[trigger] self.paths@[j]).0@ == k by {
                    let j = choose|j: int|
                        0 <= j < old(self).paths@.len() && (#[trigger] old(self).paths@[j]).0@ == k;
                    if j < i {
                        assert(self.paths@[j].0@ == k);
                    } else {
                        assert(self.paths@[j - 1].0@ == k);
                    }
                }
            },
            None => {
                proof {
                    assert(self.names_view@ =~= self.names_view@.remove(path@));
                }
            },
        }
    }
}

/// A point in time: seconds and nanoseconds relative to the Unix epoch.
#[derive(Clone, Copy, Debug, PartialEq, Eq, Structural)]
pub struct Timestamp {
    pub secs: i64,
    pub nanos: u32,
}

/// Nanoseconds in one second.
pub const NANOS_PER_SEC: u32 = 1_000_000_000;

impl Timestamp {
    /// The point `secs` seconds and `nanos` nanoseconds away from the epoch,
    /// before it when `before` is set; `None` when `nanos` is not below one
    /// second or the seconds do not fit.
    pub fn from_epoch_offset(before: bool, secs: u64, nanos: u32) -> (r: Option<Timestamp>)
        ensures
            r is Some <==> nanos < NANOS_PER_SEC && secs <= i64::MAX,
            r matches Some(t) ==> t.nanos < NANOS_PER_SEC,
            r matches Some(t) ==> !before ==> t.secs == secs && t.nanos == nanos,
            r matches Some(t) ==> before && nanos == 0 ==> t.secs == -secs && t.nanos == 0,
            r matches Some(t) ==> before && nanos > 0 ==> t.secs == -secs - 1 && t.nanos
                == NANOS_PER_SEC - nanos,
    {
        if nanos >= NANOS_PER_SEC || secs > i64::MAX as u64 {
            return None;
        }
        let s = secs as i64;
        if !before {
            Some(Timestamp { secs: s, nanos })
        } else if nanos == 0 {
            Some(Timestamp { secs: -s, nanos: 0 })
        } else {
            Some(Timestamp { secs: -s - 1, nanos: NANOS_PER_SEC - nanos })
        }
    }

    /// The distance from the epoch as (before, seconds, nanoseconds), the
    /// inverse of `from_epoch_offset` on normalised timestamps.
    pub fn epoch_offset(self) -> (r: (bool, u64, u32))
        requires
            self.nanos < NANOS_PER_SEC,
        ensures
            !r.0 ==> self.secs >= 0 && r.1 == self.secs && r.2 == self.nanos,
            r.0 && self.nanos == 0 ==> self.secs < 0 && r.1 == -self.secs && r.2 == 0,
            r.0 && self.nanos > 0 ==> self.secs < 0 && r.1 == -self.secs - 1 && r.2 == NANOS_PER_SEC
                - self.nanos,
            r.0 <==> self.secs < 0,
    {
        if self.secs >= 0 {
            (false, self.secs as u64, self.nanos)
        } else if self.nanos == 0 {
            (true, (-(self.secs as i128)) as u64, 0)
        } else {
            (true, (-(self.secs as i128) - 1) as u64, NANOS_PER_SEC - self.nanos)
        }
    }
}

/// The permission bits (including set-id and sticky bits) of a mode word.
pub fn permission_bits(mode: u32) -> (r: u16)
    ensures
        r == mode % 4096,
{
    (mode % 4096) as u16
}

/// A timestamp given explicitly, or the current time.
#[derive(Clone, Copy, Debug, PartialEq, Eq, Structural)]
pub enum TimeOrNow {
    SpecificTime(Timestamp),
    Now,
}

impl TimeOrNow {
    pub open spec fn spec_resolve(self, now: Timestamp) -> Timestamp {
        match self {
            TimeOrNow::SpecificTime(t) => t,
            TimeOrNow::Now => now,
        }
    }

    /// The timestamp this stands for, given the current time.
    #[verifier::when_used_as_spec(spec_resolve)]
    pub fn resolve(self, now: Timestamp) -> (r: Timestamp)
        ensures
            r == self.spec_resolve(now),
    {
        match self {
            TimeOrNow::SpecificTime(t) => t,
            TimeOrNow::Now => now,
        }
    }
}

/// The metadata record of one entry.
#[derive(Clone, Copy, Debug, PartialEq, Eq, Structural)]
pub struct FileAttribute {
    pub ino: u64,
    pub size: u64,
    pub blocks: u64,
    pub atime: Timestamp,
    pub mtime: Timestamp,
    pub ctime: Timestamp,
    pub crtime: Timestamp,
    pub kind: EntryType,
    pub perm: u16,
    pub nlink: u32,
    pub uid: u32,
    pub gid: u32,
    pub rdev: u32,
    pub blksize: u32,
    pub flags: u32,
}

impl FileAttribute {
    /// A freshly created record: empty, every timestamp at `now`, counters zeroed.
    pub open spec fn fresh(ino: u64, kind: EntryType, perm: u16, now: Timestamp) -> FileAttribute {
        FileAttribute {
            ino,
            size: 0,
            blocks: 0,
            atime: now,
            mtime: now,
            ctime: now,
            crtime: now,
            kind,
            perm,
            nlink: 0,
            uid: 0,
            gid: 0,
            rdev: 0,
            blksize: 0,
            flags: 0,
        }
    }

    /// This record after a partial update: absent fields keep their values.
    pub open spec fn updated(
        self,
        size: Option<u64>,
        atime: Option<TimeOrNow>,
        mtime: Option<TimeOrNow>,
        ctime: Option<Timestamp>,
        now: Timestamp,
    ) -> FileAttribute {
        FileAttribute {
            size: match size {
                Some(s) => s,
                None => self.size,
            },
            atime: match atime {
                Some(t) => t.spec_resolve(now),
                None => self.atime,
            },
            mtime: match mtime {
                Some(t) => t.spec_resolve(now),
                None => self.mtime,
            },
            ctime: match ctime {
                Some(t) => t,
                None => self.ctime,
            },
            ..self
        }
    }

    pub fn new(ino: u64, kind: EntryType, perm: u16, now: Timestamp) -> (r: FileAttribute)
        ensures
            r == FileAttribute::fresh(ino, kind, perm, now),
    {
        FileAttribute {
            ino,
            size: 0,
            blocks: 0,
            atime: now,
            mtime: now,
            ctime: now,
            crtime: now,
            kind,
            perm,
            nlink: 0,
            uid: 0,
            gid: 0,
            rdev: 0,
            blksize: 0,
            flags: 0,
        }
    }

    /// Applies the fields that are present and leaves the others untouched.
    pub fn update(
        &mut self,
        size: Option<u64>,
        atime: Option<TimeOrNow>,
        mtime: Option<TimeOrNow>,
        ctime: Option<Timestamp>,
        now: Timestamp,
    )
        ensures
            *final(self) == old(self).updated(size, atime, mtime, ctime, now),
    {
        if let Some(s) = size {
            self.size = s;
        }
        if let Some(t) = atime {
            self.atime = t.resolve(now);
        }
        if let Some(t) = mtime {
            self.mtime = t.resolve(now);
        }
        if let Some(t) = ctime {
            self.ctime = t;
        }
    }
}

/// The attribute store: one record per identifier.
#[derive(Debug)]
pub struct Attr {
    attrs: HashMap<u64, FileAttribute>,
}

impl View for Attr {
    type V = Map<u64, FileAttribute>;

    closed spec fn view(&self) -> Map<u64, FileAttribute> {
        self.attrs@
    }
}

impl Attr {
    /// A store holding the root directory's record.
    pub fn new(now: Timestamp) -> (r: Attr)
        ensures
            r@ == Map::<u64, FileAttribute>::empty().insert(
                ROOT_INODE,
                FileAttribute::fresh(ROOT_INODE, EntryType::Directory, 0o755, now),
            ),
    {
        let mut attrs: HashMap<u64, FileAttribute> = HashMap::new();
        attrs.insert(ROOT_INODE, FileAttribute::new(ROOT_INODE, EntryType::Directory, 0o755, now));
        Attr { attrs }
    }

    /// Inserts a fresh record for `ino` and returns it; `AlreadyExists` if
    /// `ino` has one.
    pub fn push(&mut self, ino: Inode, perms: u16, kind: EntryType, now: Timestamp) -> (r: Result<
        FileAttribute,
        FsError,
    >)
        ensures
            old(self)@.contains_key(ino@) ==> r == Err::<FileAttribute, FsError>(
                FsError::AlreadyExists,
            ) && final(self)@ == old(self)@,
            !old(self)@.contains_key(ino@) ==> {
                let a = FileAttribute::fresh(ino@, kind, perms, now);
                &&& r == Ok::<FileAttribute, FsError>(a)
                &&& final(self)@ == old(self)@.insert(ino@, a)
            },
    {
        let key = ino.get();
        if self.attrs.contains_key(&key) {
            return Err(FsError::AlreadyExists);
        }
        let a = FileAttribute::new(key, kind, perms, now);
        self.attrs.insert(key, a);
        Ok(a)
    }

    /// The record of `ino`.
    pub fn get(&self, ino: u64) -> (r: Result<FileAttribute, FsError>)
        ensures
            self@.contains_key(ino) ==> r == Ok::<FileAttribute, FsError>(self@[ino]),
            !self@.contains_key(ino) ==> r == Err::<FileAttribute, FsError>(FsError::NotFound),
    {
        match self.attrs.get(&ino) {
            Some(a) => Ok(*a),
            None => Err(FsError::NotFound),
        }
    }

    /// Applies the fields that are present to the record of `ino` and
    /// returns the updated record.
    pub fn update(
        &mut self,
        ino: u64,
        size: Option<u64>,
        atime: Option<TimeOrNow>,
        mtime: Option<TimeOrNow>,
        ctime: Option<Timestamp>,
        now: Timestamp,
    ) -> (r: Result<FileAttribute, FsError>)
        ensures
            !old(self)@.contains_key(ino) ==> r == Err::<FileAttribute, FsError>(FsError::NotFound)
                && final(self)@ == old(self)@,
            old(self)@.contains_key(ino) ==> {
                let a = old(self)@[ino].updated(size, atime, mtime, ctime, now);
                &&& r == Ok::<FileAttribute, FsError>(a)
                &&& final(self)@ == old(self)@.insert(ino, a)
            },
    {
        let mut a = match self.attrs.get(&ino) {
            Some(a) => *a,
            None => {
                return Err(FsError::NotFound);
            },
        };
        a.update(size, atime, mtime, ctime, now);
        self.attrs.insert(ino, a);
        Ok(a)
    }

    /// Deletes the record of `ino`; `NotFound` if there is none.
    pub fn remove(&mut self, ino: u64) -> (r: Result<(), FsError>)
        ensures
            r is Ok <==> old(self)@.contains_key(ino),
            r is Err ==> r == Err::<(), FsError>(FsError::NotFound),
            final(self)@ == old(self)@.remove(ino),
    {
        match self.attrs.remove(&ino) {
            Some(_) => Ok(()),
            None => {
                assert(self.attrs@ =~= old(self).attrs@.remove(ino));
                Err(FsError::NotFound)
            },
        }
    }

    /// Every record, keyed by identifier.
    pub fn entries(&self) -> (r: &HashMap<u64, FileAttribute>)
        ensures
            r@ == self@,
    {
        &self.attrs
    }
}

} // verus!
