//! The kernel-facing operations: reads, lookups, listings, handles.

use ircfs::errors::FsError;
use ircfs::ircfs::IrcFs;
use ircfs::permissions::RequestInfo;
use ircfs::tree::FileKind;
use ircfs::clock::TimeOfDay;

const UID: u32 = 1000;
const GID: u32 = 1000;

fn req() -> RequestInfo {
    RequestInfo { uid: UID, gid: GID }
}

fn at(hour: u8, min: u8, sec: u8) -> TimeOfDay {
    TimeOfDay { hour, min, sec }
}

fn mount_with_log(line: &[u8]) -> IrcFs {
    let mut fs = IrcFs::new(UID, GID, 0, &Vec::new());
    ircfs::bridge::apply_control(
        &mut fs.fs,
        &ircfs::bridge::FsControl::Message(b"/receive".to_vec(), line.to_vec()),
        0,
    );
    fs
}

#[test]
fn read_windows_are_clipped() {
    let fs = mount_with_log(b"0123456789");
    assert_eq!(fs.read(b"/receive", 0, 4).unwrap(), b"0123".to_vec());
    assert_eq!(fs.read(b"/receive", 4, 4).unwrap(), b"4567".to_vec());
    assert_eq!(fs.read(b"/receive", 8, 100).unwrap(), b"89".to_vec());
    assert_eq!(fs.read(b"/receive", 10, 4).unwrap(), Vec::<u8>::new());
    assert_eq!(fs.read(b"/receive", 9999, 1).unwrap(), Vec::<u8>::new());
    assert_eq!(fs.read(b"/receive", 0, 0).unwrap(), Vec::<u8>::new());
}

#[test]
fn read_errors_are_exact() {
    let fs = mount_with_log(b"x");
    assert_eq!(fs.read(b"/absent", 0, 16), Err(FsError::NotFound));
    assert_eq!(fs.read(b"/", 0, 16), Err(FsError::IsADirectory));
}

#[test]
fn getattr_and_misses() {
    let fs = mount_with_log(b"abc");
    let (ttl, attr) = fs.getattr(b"/receive").unwrap();
    assert_eq!(ttl, 1);
    assert_eq!(attr.size, 3);
    assert_eq!(fs.getattr(b"/absent"), Err(FsError::NotFound));
}

#[test]
fn lookup_resolves_children() {
    let fs = mount_with_log(b"abc");
    let (ttl, attr) = fs.lookup(b"/", b"receive").unwrap();
    assert_eq!(ttl, 1);
    assert_eq!(attr.kind, FileKind::RegularFile);
    assert_eq!(fs.lookup(b"/", b"nothing"), Err(FsError::NotFound));
    assert_eq!(fs.lookup(b"/receive", b"x"), Err(FsError::NotFound));
    assert_eq!(fs.lookup(b"/absent", b"x"), Err(FsError::NotFound));
}

#[test]
fn readdir_has_dot_entries_last() {
    let fs = IrcFs::new(UID, GID, 0, &Vec::new());
    let entries = fs.readdir(b"/").unwrap();
    let names: Vec<Vec<u8>> = entries.iter().map(|e| e.name.clone()).collect();
    assert_eq!(
        names,
        vec![b"send".to_vec(), b"receive".to_vec(), b".".to_vec(), b"..".to_vec()]
    );
    assert_eq!(entries[2].kind, FileKind::Directory);
    assert_eq!(entries[3].kind, FileKind::Directory);
}

#[test]
fn readdir_errors_are_exact() {
    let fs = IrcFs::new(UID, GID, 0, &Vec::new());
    assert_eq!(fs.readdir(b"/absent"), Err(FsError::NotFound));
    assert_eq!(fs.readdir(b"/send"), Err(FsError::NotADirectory));
}

#[test]
fn handles_and_access() {
    let fs = IrcFs::new(UID, GID, 0, &Vec::new());
    assert_eq!(fs.opendir(b"/").unwrap(), (0, 0));
    assert_eq!(fs.opendir(b"/absent"), Err(FsError::NotFound));
    assert_eq!(fs.open(b"/whatever").unwrap(), (0, 0));
    assert!(fs.access(b"/anything", 7).is_ok());
    assert!(fs.init().is_ok());
}

#[test]
fn write_misses_and_directories() {
    let mut fs = IrcFs::new(UID, GID, 0, &Vec::new());
    let r = fs.write(b"/absent", b"x", &req(), b"me", &at(0, 0, 0));
    assert!(matches!(r, Err(FsError::NotFound)));
    let r = fs.write(b"/", b"x", &req(), b"me", &at(0, 0, 0));
    assert!(matches!(r, Err(FsError::IsADirectory)));
}

#[test]
fn empty_write_counts_bytes_without_appending() {
    let mut fs = IrcFs::new(UID, GID, 0, &Vec::new());
    let out = fs.write(b"/send", b"  \n\t ", &req(), b"me", &at(0, 0, 0)).unwrap();
    assert_eq!(out.written, 5);
    assert!(out.controls.is_empty());
    assert!(out.actions.is_empty());
    assert_eq!(fs.read(b"/send", 0, 64).unwrap(), Vec::<u8>::new());
}

#[test]
fn write_appends_trimmed_line_to_the_file_itself() {
    let mut fs = IrcFs::new(UID, GID, 0, &Vec::new());
    let out = fs.write(b"/send", b"/unknown stuff  \n", &req(), b"me", &at(0, 0, 0)).unwrap();
    assert_eq!(out.written, 17);
    // Unknown directives are silently ignored.
    assert!(out.controls.is_empty());
    assert!(out.actions.is_empty());
    assert_eq!(fs.read(b"/send", 0, 64).unwrap(), b"/unknown stuff\n".to_vec());
}

#[test]
fn clocked_variants_read_a_sane_time() {
    let (now, mut fs) = IrcFs::new_now(UID, GID, &Vec::new());
    let (_ttl, root) = fs.getattr(b"/").unwrap();
    assert_eq!(root.crtime, now);

    let (t, out) = fs.write_now(b"/send", b"hi\n", &req(), b"me");
    assert!(t.hour <= 23 && t.min <= 59 && t.sec <= 60);
    let out = out.expect("write failed");
    assert_eq!(out.written, 3);
    assert_eq!(fs.read(b"/send", 0, 16).unwrap(), b"hi\n".to_vec());
}
