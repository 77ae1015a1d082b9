use std::ops::ControlFlow;

use daniel::{Daniel, DirEntry, Directory, EntryType, File, Inode, ROOT_INODE, Timestamp};

fn t0() -> Timestamp {
    Timestamp { secs: 0, nanos: 0 }
}

#[test]
fn default() {
    let fs = Daniel::new(t0());

    assert_eq!(fs.mapper().map().len(), 1);
    assert_eq!(fs.list().map().len(), 1);
}

#[test]
fn empty_dir() {
    let mut fs = Daniel::new(t0());
    fs.push(DirEntry::Directory(Directory::new(
        Inode::root(),
        "foo".into(),
        Inode::new(2),
        0o755,
        t0(),
    )))
    .unwrap();

    assert_eq!(fs.mapper().map().len(), 2);
    assert_eq!(fs.list().map().len(), 2);
}

#[test]
fn filled_dir() {
    let mut fs = Daniel::new(t0());

    fs.push(DirEntry::Directory(Directory::new(
        Inode::root(),
        "foo".into(),
        Inode::new(2),
        0o755,
        t0(),
    )))
    .unwrap();

    fs.push(DirEntry::File(File::new(
        "bar".into(),
        Inode::new(2),
        Inode::new(3),
        0o655,
        t0(),
    )))
    .unwrap();

    assert_eq!(fs.mapper().map().len(), 3);
    assert_eq!(fs.list().map().len(), 3);
    let dir = fs.list().get(2).unwrap().directory().unwrap();
    assert_eq!(dir.entries().len(), 1);
    assert_eq!(dir.entries()[0], (Inode::new(3), EntryType::File));
}

#[test]
fn readdir() {
    let mut fs = Daniel::new(t0());

    fs.push(DirEntry::File(File::new(
        "foo".into(),
        Inode::root(),
        Inode::new(2),
        0o655,
        t0(),
    )))
    .unwrap();

    let root = fs.list().get(ROOT_INODE).unwrap().directory().unwrap();
    let first = root.entries()[0].1;
    assert_eq!(first, EntryType::File);

    match fs.readdir(Inode::root().into(), 0, 0) {
        ControlFlow::Continue(entry) => {
            assert_eq!(entry.entry_type(), EntryType::File);
            assert_eq!(entry.name(), "foo");
        }
        ControlFlow::Break(_) => panic!("expected the first child of the root"),
    }
}
