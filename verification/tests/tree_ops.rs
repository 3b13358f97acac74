//! The tree store: creation, resolution, appends, listings, attributes.

use ircfs::errors::FsError;
use ircfs::tree::{FileKind, Filesystem, Node};

fn fresh() -> Filesystem {
    Filesystem::new(7, 8, 100)
}

fn file_data(fs: &Filesystem, path: &[u8]) -> Vec<u8> {
    match fs.get(path).expect("path missing") {
        Node::F(f) => f.data().to_vec(),
        Node::D(_) => panic!("expected a file"),
    }
}

#[test]
fn created_paths_resolve() {
    let mut fs = fresh();
    assert!(fs.mk_dir(b"/a", 1).is_ok());
    assert!(fs.mk_dir(b"/a/b", 2).is_ok());
    assert!(fs.mk_rw_file(b"/a/b/f", 3).is_ok());
    assert!(fs.get(b"/a").is_some());
    assert!(fs.get(b"/a/b").is_some());
    assert!(fs.get(b"/a/b/f").is_some());
    let entries = fs.dir_entries(b"/a/b").expect("not a directory");
    assert_eq!(entries.len(), 1);
    assert_eq!(entries[0].name, b"f".to_vec());
    assert_eq!(entries[0].kind, FileKind::RegularFile);
    let top = fs.dir_entries(b"/").expect("no root");
    assert_eq!(top.len(), 1);
    assert_eq!(top[0].name, b"a".to_vec());
    assert_eq!(top[0].kind, FileKind::Directory);
}

#[test]
fn mk_dir_requires_existing_ancestors() {
    let mut fs = fresh();
    assert_eq!(fs.mk_dir(b"/missing/child", 1), Err(FsError::NotFound));
}

#[test]
fn mk_dir_rejects_duplicates() {
    let mut fs = fresh();
    assert!(fs.mk_dir(b"/a", 1).is_ok());
    assert_eq!(fs.mk_dir(b"/a", 2), Err(FsError::AlreadyExists));
    assert!(fs.mk_rw_file(b"/f", 1).is_ok());
    assert_eq!(fs.mk_ro_file(b"/f", 2), Err(FsError::AlreadyExists));
}

#[test]
fn mk_dir_through_file_is_not_a_directory() {
    let mut fs = fresh();
    assert!(fs.mk_rw_file(b"/f", 1).is_ok());
    assert_eq!(fs.mk_dir(b"/f/sub", 2), Err(FsError::NotADirectory));
}

#[test]
fn get_rejects_relative_paths() {
    let mut fs = fresh();
    assert!(fs.mk_dir(b"/a", 1).is_ok());
    assert!(fs.get(b"a").is_none());
}

#[test]
fn empty_path_is_the_root() {
    let fs = fresh();
    match fs.get(b"").expect("no root") {
        Node::D(_) => {},
        Node::F(_) => panic!("root is a file"),
    }
    assert!(fs.get(b"/").is_some());
}

#[test]
fn trailing_slash_is_tolerated() {
    let mut fs = fresh();
    assert!(fs.mk_dir(b"/a", 1).is_ok());
    assert!(fs.get(b"/a/").is_some());
}

#[test]
fn descent_through_file_misses() {
    let mut fs = fresh();
    assert!(fs.mk_rw_file(b"/f", 1).is_ok());
    assert!(fs.get(b"/f/deeper").is_none());
}

#[test]
fn append_accumulates_size_and_content() {
    let mut fs = fresh();
    assert!(fs.mk_rw_file(b"/f", 1).is_ok());
    assert!(fs.append(b"/f", b"one").is_ok());
    assert!(fs.append(b"/f", b"-two").is_ok());
    assert!(fs.append(b"/f", b"-three").is_ok());
    assert_eq!(file_data(&fs, b"/f"), b"one-two-three".to_vec());
    let attr = fs.attr(b"/f").unwrap();
    assert_eq!(attr.size, 13);
}

#[test]
fn append_errors_are_exact() {
    let mut fs = fresh();
    assert!(fs.mk_dir(b"/d", 1).is_ok());
    assert_eq!(fs.append(b"/d", b"x"), Err(FsError::IsADirectory));
    assert_eq!(fs.append(b"/nope", b"x"), Err(FsError::NotFound));
}

#[test]
fn attributes_track_creation() {
    let mut fs = fresh();
    assert!(fs.mk_dir(b"/d", 42).is_ok());
    assert!(fs.mk_ro_file(b"/r", 43).is_ok());
    assert!(fs.mk_rw_file(b"/w", 44).is_ok());
    let d = fs.attr(b"/d").unwrap();
    assert_eq!(d.kind, FileKind::Directory);
    assert_eq!(d.perm, 0o700);
    assert_eq!(d.size, 4096);
    assert_eq!(d.nlink, 2);
    assert_eq!(d.uid, 7);
    assert_eq!(d.gid, 8);
    assert_eq!(d.crtime, 42);
    let r = fs.attr(b"/r").unwrap();
    assert_eq!(r.perm, 0o400);
    assert_eq!(r.size, 0);
    assert_eq!(r.nlink, 1);
    let w = fs.attr(b"/w").unwrap();
    assert_eq!(w.perm, 0o600);
    assert_eq!(fs.attr(b"/absent"), Err(FsError::NotFound));
}

#[test]
fn subdirectory_bumps_parent_link_count() {
    let mut fs = fresh();
    assert!(fs.mk_dir(b"/d", 1).is_ok());
    assert_eq!(fs.attr(b"/").unwrap().nlink, 3);
    assert!(fs.mk_rw_file(b"/f", 1).is_ok());
    assert_eq!(fs.attr(b"/").unwrap().nlink, 3);
    assert!(fs.mk_dir(b"/d2", 1).is_ok());
    assert_eq!(fs.attr(b"/").unwrap().nlink, 4);
}

#[test]
fn mk_parents_creates_the_whole_chain() {
    let mut fs = fresh();
    assert!(fs.mk_parents(b"/a/b/c", 5).is_ok());
    assert!(fs.get(b"/a").is_some());
    assert!(fs.get(b"/a/b").is_some());
    assert!(fs.get(b"/a/b/c").is_some());
    assert_eq!(fs.attr(b"/a/b/c").unwrap().kind, FileKind::Directory);
}

#[test]
fn mk_parents_is_idempotent() {
    let mut fs = fresh();
    assert!(fs.mk_parents(b"/x/y", 5).is_ok());
    let entries_before = fs.dir_entries(b"/x").unwrap().len();
    let nlink_before = fs.attr(b"/x").unwrap().nlink;
    assert!(fs.mk_parents(b"/x/y", 99).is_ok());
    assert_eq!(fs.dir_entries(b"/x").unwrap().len(), entries_before);
    assert_eq!(fs.attr(b"/x").unwrap().nlink, nlink_before);
    assert_eq!(fs.attr(b"/x/y").unwrap().crtime, 5);
}

#[test]
fn mk_parents_blocked_by_file() {
    let mut fs = fresh();
    assert!(fs.mk_rw_file(b"/f", 1).is_ok());
    assert_eq!(fs.mk_parents(b"/f/sub", 2), Err(FsError::NotADirectory));
    // Unchanged, and the second attempt reports the same.
    assert_eq!(fs.mk_parents(b"/f/sub", 3), Err(FsError::NotADirectory));
    assert_eq!(fs.attr(b"/f").unwrap().kind, FileKind::RegularFile);
}

#[test]
fn dir_entries_misses_and_files() {
    let mut fs = fresh();
    assert!(fs.mk_rw_file(b"/f", 1).is_ok());
    assert!(fs.dir_entries(b"/nope").is_none());
    assert!(fs.dir_entries(b"/f").is_none());
}

#[test]
fn insertion_order_is_kept() {
    let mut fs = fresh();
    assert!(fs.mk_dir(b"/c", 1).is_ok());
    assert!(fs.mk_dir(b"/a", 1).is_ok());
    assert!(fs.mk_dir(b"/b", 1).is_ok());
    let names: Vec<Vec<u8>> = fs.dir_entries(b"/").unwrap().into_iter().map(|e| e.name).collect();
    assert_eq!(names, vec![b"c".to_vec(), b"a".to_vec(), b"b".to_vec()]);
}
