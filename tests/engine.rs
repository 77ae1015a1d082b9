use std::ops::ControlFlow;

use daniel::{
    permission_bits, Attr, Daniel, DirEntry, DirSlot, Directory, EntryType, File, FileAttribute, FsError, Inode,
    InodeMapper, NodeKind, TimeOrNow, Timestamp, ROOT_INODE,
};

fn at(secs: i64) -> Timestamp {
    Timestamp { secs, nanos: 0 }
}

fn foo_bar() -> Daniel {
    let mut fs = Daniel::new(at(1));
    let foo = fs.mkdir(ROOT_INODE, "foo", 0o755, at(2)).unwrap();
    assert_eq!(foo.ino, 2);
    let bar = fs.create(2, "bar", 0o644, at(3)).unwrap();
    assert_eq!(bar.ino, 3);
    fs
}

#[test]
fn create_then_lookup() {
    let fs = foo_bar();
    let attr = fs.lookup(2, "bar").unwrap();
    assert_eq!(attr.ino, 3);
    assert_eq!(attr.kind, EntryType::File);
    assert_eq!(attr.perm, 0o644);
    let dir = fs.lookup(ROOT_INODE, "foo").unwrap();
    assert_eq!(dir.ino, 2);
    assert_eq!(dir.kind, EntryType::Directory);
    assert_eq!(dir.perm, 0o755);
}

#[test]
fn created_record_is_fresh() {
    let mut fs = Daniel::new(at(1));
    let a = fs.create(ROOT_INODE, "f", 0o600, at(7)).unwrap();
    assert_eq!(a, FileAttribute::new(2, EntryType::File, 0o600, at(7)));
    assert_eq!(a.size, 0);
    assert_eq!(a.atime, at(7));
    assert_eq!(a.mtime, at(7));
    assert_eq!(a.ctime, at(7));
    assert_eq!(a.crtime, at(7));
    assert_eq!(a.nlink, 0);
    assert_eq!(fs.getattr(2, None), Ok(a));
}

#[test]
fn unlink_removes_from_index() {
    let mut fs = foo_bar();
    assert_eq!(fs.unlink(2, "bar"), Ok(()));
    assert_eq!(fs.lookup(2, "bar"), Err(FsError::NotFound));
    assert_eq!(fs.getattr(3, None), Err(FsError::NotFound));
    assert!(matches!(fs.readdir(2, 0, 1), ControlFlow::Break(())));
    let dir = fs.list().get(2).unwrap().directory().unwrap();
    assert!(dir.get(&Inode::new(3)).is_none());
    assert_eq!(fs.mapper().get_map(Inode::new(2), "bar"), None);
}

#[test]
fn setattr_partial_update() {
    let mut fs = foo_bar();
    let before = fs.getattr(3, None).unwrap();
    let after = fs.setattr(3, Some(5), None, None, None, at(99)).unwrap();
    assert_eq!(after.size, 5);
    assert_eq!(after.atime, before.atime);
    assert_eq!(after.mtime, before.mtime);
    assert_eq!(after.ctime, before.ctime);
    assert_eq!(after.crtime, before.crtime);
    assert_eq!(after.perm, before.perm);
    assert_eq!(fs.getattr(3, None), Ok(after));
}

#[test]
fn setattr_times() {
    let mut fs = foo_bar();
    let a = fs
        .setattr(
            3,
            None,
            Some(TimeOrNow::Now),
            Some(TimeOrNow::SpecificTime(at(50))),
            Some(at(60)),
            at(40),
        )
        .unwrap();
    assert_eq!(a.size, 0);
    assert_eq!(a.atime, at(40));
    assert_eq!(a.mtime, at(50));
    assert_eq!(a.ctime, at(60));
    assert_eq!(a.crtime, at(3));
    assert_eq!(fs.setattr(0, None, None, None, None, at(1)), Err(FsError::Invalid));
    assert_eq!(fs.setattr(9, Some(1), None, None, None, at(1)), Err(FsError::NotFound));
}

#[test]
fn listing_starts_with_dots() {
    let fs = foo_bar();
    assert_eq!(fs.dir_slot(2, 0), DirSlot::Current(2));
    assert_eq!(fs.dir_slot(2, 1), DirSlot::Parent(ROOT_INODE));
    assert_eq!(fs.dir_slot(2, 2), DirSlot::Entry(3, EntryType::File, "bar".to_string()));
    assert_eq!(fs.dir_slot(2, 3), DirSlot::End);
    assert_eq!(fs.dir_slot(ROOT_INODE, 0), DirSlot::Current(ROOT_INODE));
    assert_eq!(fs.dir_slot(ROOT_INODE, 1), DirSlot::Parent(ROOT_INODE));
    assert_eq!(fs.dir_slot(3, 0), DirSlot::End);
    assert_eq!(fs.dir_slot(42, 0), DirSlot::End);
}

#[test]
fn empty_directory_listing_ends() {
    let mut fs = Daniel::new(at(1));
    fs.mkdir(ROOT_INODE, "empty", 0o700, at(2)).unwrap();
    assert_eq!(fs.dir_slot(2, 0), DirSlot::Current(2));
    assert_eq!(fs.dir_slot(2, 1), DirSlot::Parent(ROOT_INODE));
    assert_eq!(fs.dir_slot(2, 2), DirSlot::End);
    assert!(matches!(fs.readdir(2, 0, 0), ControlFlow::Break(())));
    assert!(matches!(fs.readdir(2, 0, 1), ControlFlow::Break(())));
}

#[test]
fn readdir_walks_children_in_order() {
    let mut fs = Daniel::new(at(1));
    fs.create(ROOT_INODE, "a", 0o644, at(1)).unwrap();
    fs.mkdir(ROOT_INODE, "b", 0o755, at(1)).unwrap();
    fs.create(ROOT_INODE, "c", 0o644, at(1)).unwrap();
    let names: Vec<&str> = (1..4)
        .map(|off| match fs.readdir(ROOT_INODE, 0, off) {
            ControlFlow::Continue(e) => e.name(),
            ControlFlow::Break(()) => panic!("listing ended early"),
        })
        .collect();
    assert_eq!(names, vec!["a", "b", "c"]);
    assert!(matches!(fs.readdir(ROOT_INODE, 0, 4), ControlFlow::Break(())));
    assert!(matches!(fs.readdir(2, 0, 1), ControlFlow::Break(())));
    match fs.readdir(ROOT_INODE, 0, 2) {
        ControlFlow::Continue(e) => assert_eq!(e.kind(), NodeKind::Directory),
        ControlFlow::Break(()) => panic!("expected b"),
    }
}

#[test]
fn identifiers_increase_and_are_not_reused() {
    let mut fs = Daniel::new(at(1));
    let a = fs.create(ROOT_INODE, "a", 0o644, at(1)).unwrap().ino;
    let b = fs.mkdir(ROOT_INODE, "b", 0o755, at(1)).unwrap().ino;
    assert!(a < b);
    fs.unlink(ROOT_INODE, "a").unwrap();
    let c = fs.create(ROOT_INODE, "a", 0o644, at(1)).unwrap().ino;
    assert_eq!((a, b, c), (2, 3, 4));
    assert_eq!(fs.mapper().next_inode().get(), 5);
}

#[test]
fn round_trip_survives_other_operations() {
    let mut fs = foo_bar();
    fs.create(2, "baz", 0o600, at(4)).unwrap();
    fs.mkdir(ROOT_INODE, "qux", 0o700, at(5)).unwrap();
    fs.unlink(2, "baz").unwrap();
    assert_eq!(fs.lookup(2, "bar").unwrap().ino, 3);
    assert_eq!(fs.lookup(ROOT_INODE, "foo").unwrap().ino, 2);
}

#[test]
fn reachable_entries_have_records() {
    let mut fs = foo_bar();
    fs.mkdir(2, "sub", 0o755, at(4)).unwrap();
    fs.create(4, "leaf", 0o644, at(5)).unwrap();
    let mut pending = vec![ROOT_INODE];
    let mut seen = 0;
    while let Some(id) = pending.pop() {
        assert_eq!(fs.getattr(id, None).unwrap().ino, id);
        seen += 1;
        if let Ok(d) = fs.list().get(id).unwrap().directory() {
            for (child, _) in d.entries() {
                pending.push(child.get());
            }
        }
    }
    assert_eq!(seen, 5);
}

#[test]
fn create_errors() {
    let mut fs = foo_bar();
    assert_eq!(fs.create(0, "x", 0o644, at(1)), Err(FsError::Invalid));
    assert_eq!(fs.create(2, "", 0o644, at(1)), Err(FsError::Invalid));
    assert_eq!(fs.create(77, "x", 0o644, at(1)), Err(FsError::NotFound));
    assert_eq!(fs.create(3, "x", 0o644, at(1)), Err(FsError::Invalid));
    assert_eq!(fs.create(2, "bar", 0o644, at(1)), Err(FsError::AlreadyExists));
    assert_eq!(fs.mkdir(ROOT_INODE, "foo", 0o755, at(1)), Err(FsError::AlreadyExists));
    assert_eq!(fs.list().len(), 3);
    assert_eq!(fs.mapper().next_inode().get(), 4);
}

#[test]
fn lookup_errors() {
    let fs = foo_bar();
    assert_eq!(fs.lookup(0, "bar"), Err(FsError::Invalid));
    assert_eq!(fs.lookup(2, ""), Err(FsError::Invalid));
    assert_eq!(fs.lookup(2, "nope"), Err(FsError::NotFound));
    assert_eq!(fs.lookup(ROOT_INODE, "bar"), Err(FsError::NotFound));
    assert_eq!(fs.getattr(0, None), Err(FsError::Invalid));
    assert_eq!(fs.access(3, 0), Ok(()));
    assert_eq!(fs.access(0, 0), Err(FsError::Invalid));
    assert_eq!(fs.access(9, 0), Err(FsError::NotFound));
}

#[test]
fn unlink_errors() {
    let mut fs = foo_bar();
    assert_eq!(fs.unlink(0, "bar"), Err(FsError::Invalid));
    assert_eq!(fs.unlink(2, ""), Err(FsError::Invalid));
    assert_eq!(fs.unlink(2, "nope"), Err(FsError::NotFound));
    assert_eq!(fs.unlink(ROOT_INODE, "/"), Err(FsError::Invalid));
    assert_eq!(fs.unlink(ROOT_INODE, "foo"), Err(FsError::Invalid));
    assert_eq!(fs.lookup(2, "bar").unwrap().ino, 3);
    fs.unlink(2, "bar").unwrap();
    assert_eq!(fs.unlink(ROOT_INODE, "foo"), Ok(()));
    assert_eq!(fs.list().len(), 1);
    assert_eq!(fs.access(2, 0), Err(FsError::NotFound));
}

#[test]
fn push_errors() {
    let mut fs = foo_bar();
    let file = |name: &str, parent: u64, ino: u64| {
        DirEntry::File(File::new(name.into(), Inode::new(parent), Inode::new(ino), 0o644, at(1)))
    };
    assert_eq!(fs.push(file("x", 2, 3)), Err(FsError::AlreadyExists));
    assert_eq!(fs.push(file("bar", 2, 10)), Err(FsError::AlreadyExists));
    assert_eq!(fs.push(file("x", 50, 10)), Err(FsError::NotFound));
    assert_eq!(fs.push(file("x", 3, 10)), Err(FsError::Invalid));
    assert_eq!(fs.push(file("", 2, 10)), Err(FsError::Invalid));
    assert_eq!(fs.push(file("x", 2, u64::MAX)), Err(FsError::Exhausted));
    let mut full = Directory::new(Inode::new(2), "d".into(), Inode::new(10), 0o755, at(1));
    full.insert(Inode::new(11), EntryType::File);
    assert_eq!(fs.push(DirEntry::Directory(full)), Err(FsError::Invalid));
    let mut mislabeled = File::new("m".into(), Inode::new(2), Inode::new(10), 0o644, at(1));
    mislabeled.set_attr(FileAttribute::new(10, EntryType::Directory, 0o644, at(1)));
    assert_eq!(fs.push(DirEntry::File(mislabeled)), Err(FsError::Invalid));
    assert_eq!(fs.push(file("x", 2, 100)), Ok(()));
    assert_eq!(fs.mapper().next_inode().get(), 101);
    assert_eq!(fs.create(2, "y", 0o644, at(1)).unwrap().ino, 101);
}

#[test]
fn entry_kinds() {
    assert_eq!(EntryType::try_from_node_kind(NodeKind::Directory), Ok(EntryType::Directory));
    assert_eq!(EntryType::try_from_node_kind(NodeKind::RegularFile), Ok(EntryType::File));
    for k in [
        NodeKind::NamedPipe,
        NodeKind::CharDevice,
        NodeKind::BlockDevice,
        NodeKind::Symlink,
        NodeKind::Socket,
    ] {
        assert_eq!(EntryType::try_from_node_kind(k), Err(FsError::NotSupported));
    }
    assert_eq!(EntryType::File.node_kind(), NodeKind::RegularFile);
    assert_eq!(EntryType::Directory.node_kind(), NodeKind::Directory);
}

#[test]
fn inode_values() {
    assert_eq!(Inode::try_new(0), None);
    assert_eq!(Inode::try_new(7).map(Inode::get), Some(7));
    assert_eq!(u64::from(Inode::new(9)), 9);
    assert_eq!(Inode::root().get(), ROOT_INODE);
}

#[test]
fn mapper_overwrites_and_removes() {
    let mut m = InodeMapper::new();
    assert_eq!(m.get_map(Inode::root(), "/"), Some(Inode::root()));
    assert_eq!(m.get_path("/"), Some(Inode::root()));
    assert_eq!(m.next_inode().get(), 2);
    m.insert(Inode::root(), "a", Inode::new(2));
    m.insert(Inode::root(), "a", Inode::new(5));
    assert_eq!(m.get_map(Inode::root(), "a"), Some(Inode::new(5)));
    assert_eq!(m.get_path("a"), Some(Inode::new(5)));
    assert_eq!(m.map().len(), 2);
    assert_eq!(m.next_inode().get(), 6);
    m.insert(Inode::new(5), "b", Inode::new(3));
    assert_eq!(m.next_inode().get(), 6);
    m.remove(Inode::root(), "a");
    m.remove(Inode::root(), "a");
    assert_eq!(m.get_map(Inode::root(), "a"), None);
    assert_eq!(m.get_path("a"), None);
    assert_eq!(m.get_map(Inode::new(5), "b"), Some(Inode::new(3)));
    assert_eq!(m.map().len(), 2);
}

#[test]
fn directory_listing_updates() {
    let mut d = Directory::new(Inode::root(), "d".into(), Inode::new(4), 0o750, at(1));
    assert_eq!(d.parent(), ROOT_INODE);
    assert_eq!(d.name(), "d");
    assert_eq!(d.attr().ino, 4);
    d.insert(Inode::new(5), EntryType::File);
    d.push(Inode::new(6), EntryType::Directory);
    d.insert(Inode::new(5), EntryType::Directory);
    assert_eq!(d.entries(), &[(Inode::new(5), EntryType::Directory), (Inode::new(6), EntryType::Directory)]);
    d.remove(Inode::new(5));
    d.remove(Inode::new(9));
    assert_eq!(d.entries(), &[(Inode::new(6), EntryType::Directory)]);
    assert_eq!(d.get(&Inode::new(6)), Some(EntryType::Directory));
    assert_eq!(d.get(&Inode::new(5)), None);
}

#[test]
fn file_content_and_entry_accessors() {
    let mut f = File::new("notes".into(), Inode::new(2), Inode::new(8), 0o640, at(3));
    f.write(b"ab");
    f.write(b"cd");
    assert_eq!(f.data(), b"abcd");
    assert_eq!(f.parent(), 2);
    let e = DirEntry::File(f);
    assert_eq!(e.name(), "notes");
    assert_eq!(e.parent(), 2);
    assert_eq!(e.attr().ino, 8);
    assert_eq!(e.kind(), NodeKind::RegularFile);
    assert!(e.directory().is_err());
    assert_eq!(e.file().unwrap().name(), "notes");
    let mut d = DirEntry::Directory(Directory::new(Inode::root(), "x".into(), Inode::new(9), 0o700, at(1)));
    assert_eq!(d.insert_child(Inode::new(10), EntryType::File), Ok(()));
    assert_eq!(d.insert_child(Inode::new(10), EntryType::File), Ok(()));
    assert_eq!(d.directory().unwrap().entries().len(), 1);
    assert_eq!(d.remove_child(Inode::new(10)), Ok(()));
    assert!(d.file().is_err());
    let mut f2 = DirEntry::File(File::new("y".into(), Inode::root(), Inode::new(11), 0o600, at(1)));
    assert_eq!(f2.insert_child(Inode::new(12), EntryType::File), Err(FsError::Invalid));
    assert_eq!(f2.remove_child(Inode::new(12)), Err(FsError::Invalid));
}

#[test]
fn dir_list_child_operations() {
    let mut list = daniel::DirList::new(at(1));
    assert_eq!(list.len(), 1);
    assert_eq!(list.child_insert(5, Inode::new(2), EntryType::File), Err(FsError::NotFound));
    list.insert(
        Inode::new(2),
        DirEntry::File(File::new("f".into(), Inode::root(), Inode::new(2), 0o644, at(1))),
    );
    assert_eq!(list.child_insert(ROOT_INODE, Inode::new(2), EntryType::File), Ok(()));
    assert_eq!(list.child_insert(ROOT_INODE, Inode::new(2), EntryType::Directory), Ok(()));
    let root = list.get(ROOT_INODE).unwrap().directory().unwrap();
    assert_eq!(root.entries(), &[(Inode::new(2), EntryType::Directory)]);
    assert_eq!(list.child_insert(ROOT_INODE, Inode::new(2), EntryType::File), Ok(()));
    assert_eq!(list.child_insert(2, Inode::new(3), EntryType::File), Err(FsError::NotFound));
    assert_eq!(list.set_attr(2, FileAttribute::new(2, EntryType::File, 0o600, at(2))), Ok(()));
    assert_eq!(list.get(2).unwrap().attr().perm, 0o600);
    assert_eq!(list.set_attr(9, FileAttribute::new(9, EntryType::File, 0o600, at(2))), Err(FsError::NotFound));
    assert_eq!(list.child_remove(ROOT_INODE, Inode::new(2)), Ok(()));
    assert_eq!(list.child_remove(2, Inode::new(2)), Err(FsError::NotFound));
    assert_eq!(list.child_remove(9, Inode::new(2)), Err(FsError::NotFound));
    assert!(list.remove(2).is_some());
    assert!(list.remove(2).is_none());
    assert!(!list.contains(2));
}

#[test]
fn attribute_store() {
    let mut store = Attr::new(at(1));
    assert_eq!(store.get(ROOT_INODE).unwrap().kind, EntryType::Directory);
    let a = store.push(Inode::new(2), 0o644, EntryType::File, at(2)).unwrap();
    assert_eq!(a, FileAttribute::new(2, EntryType::File, 0o644, at(2)));
    assert_eq!(store.push(Inode::new(2), 0o600, EntryType::File, at(3)), Err(FsError::AlreadyExists));
    let b = store.update(2, Some(10), None, Some(TimeOrNow::Now), None, at(9)).unwrap();
    assert_eq!((b.size, b.atime, b.mtime, b.ctime), (10, at(2), at(9), at(2)));
    assert_eq!(store.get(2), Ok(b));
    assert_eq!(store.update(7, None, None, None, None, at(9)), Err(FsError::NotFound));
    assert_eq!(store.entries().len(), 2);
    assert_eq!(store.remove(2), Ok(()));
    assert_eq!(store.remove(2), Err(FsError::NotFound));
    assert_eq!(store.get(2), Err(FsError::NotFound));
}

#[test]
fn error_codes() {
    assert_eq!(FsError::NotFound.errno(), 2);
    assert_eq!(FsError::AlreadyExists.errno(), 17);
    assert_eq!(FsError::NotSupported.errno(), 38);
    assert_eq!(FsError::Invalid.errno(), 22);
    assert_eq!(FsError::Exhausted.errno(), 28);
}

#[test]
fn mode_permission_bits() {
    assert_eq!(permission_bits(0o100644), 0o644);
    assert_eq!(permission_bits(0o40755), 0o755);
    assert_eq!(permission_bits(0o4755), 0o4755);
}

#[test]
fn epoch_offsets() {
    assert_eq!(Timestamp::from_epoch_offset(false, 5, 7), Some(Timestamp { secs: 5, nanos: 7 }));
    assert_eq!(Timestamp::from_epoch_offset(true, 5, 0), Some(Timestamp { secs: -5, nanos: 0 }));
    assert_eq!(
        Timestamp::from_epoch_offset(true, 5, 250_000_000),
        Some(Timestamp { secs: -6, nanos: 750_000_000 })
    );
    assert_eq!(Timestamp::from_epoch_offset(false, 1, 1_000_000_000), None);
    assert_eq!(Timestamp::from_epoch_offset(false, u64::MAX, 0), None);
    assert_eq!(Timestamp { secs: -6, nanos: 750_000_000 }.epoch_offset(), (true, 5, 250_000_000));
    assert_eq!(Timestamp { secs: -5, nanos: 0 }.epoch_offset(), (true, 5, 0));
    assert_eq!(Timestamp { secs: 3, nanos: 9 }.epoch_offset(), (false, 3, 9));
    assert_eq!(Timestamp { secs: i64::MIN, nanos: 0 }.epoch_offset(), (true, 1u64 << 63, 0));
}
