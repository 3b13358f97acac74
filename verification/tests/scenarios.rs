//! End-to-end scenarios: a mount driven through inbound events and writes.

use ircfs::bridge::{apply_control, handle_event, EventKind, IrcAction, IrcEvent};
use ircfs::clock::TimeOfDay;
use ircfs::errors::FsError;
use ircfs::ircfs::IrcFs;
use ircfs::permissions::RequestInfo;
use ircfs::tree::FileKind;

const UID: u32 = 1000;
const GID: u32 = 1000;

fn req() -> RequestInfo {
    RequestInfo { uid: UID, gid: GID }
}

fn at(hour: u8, min: u8, sec: u8) -> TimeOfDay {
    TimeOfDay { hour, min, sec }
}

fn mount() -> IrcFs {
    IrcFs::new(UID, GID, 0, &Vec::new())
}

fn names_of(fs: &IrcFs, path: &[u8]) -> Vec<Vec<u8>> {
    fs.readdir(path)
        .expect("readdir failed")
        .into_iter()
        .map(|e| e.name)
        .collect()
}

fn deliver(fs: &mut IrcFs, ev: &IrcEvent, nick: &[u8], t: &TimeOfDay) {
    for c in handle_event(ev, nick, t) {
        apply_control(&mut fs.fs, &c, 0);
    }
}

#[test]
fn empty_mount() {
    let fs = mount();
    let mut names = names_of(&fs, b"/");
    names.sort();
    let mut expected: Vec<Vec<u8>> = vec![
        b".".to_vec(),
        b"..".to_vec(),
        b"send".to_vec(),
        b"receive".to_vec(),
    ];
    expected.sort();
    assert_eq!(names, expected);

    let (_ttl, send_attr) = fs.getattr(b"/send").expect("no /send");
    assert_eq!(send_attr.kind, FileKind::RegularFile);
    assert!(send_attr.perm & 0o222 != 0);

    let (_ttl, recv_attr) = fs.getattr(b"/receive").expect("no /receive");
    assert_eq!(recv_attr.kind, FileKind::RegularFile);
    assert!(recv_attr.perm & 0o222 == 0);
}

#[test]
fn inbound_message_materializes_directory() {
    let mut fs = mount();
    let ev = IrcEvent {
        raw: b"raw line".to_vec(),
        kind: EventKind::Privmsg {
            sender: Some(b"alice".to_vec()),
            target: b"#bash".to_vec(),
            text: b"hi".to_vec(),
        },
    };
    deliver(&mut fs, &ev, b"me", &at(12, 0, 0));

    let names = names_of(&fs, b"/");
    assert!(names.contains(&b"#bash".to_vec()));

    let data = fs.read(b"/#bash/receive", 0, 4096).expect("read failed");
    assert_eq!(data, b"12:00:00 alice: hi\n".to_vec());
}

#[test]
fn direct_message_uses_sender_as_directory_name() {
    let mut fs = mount();
    let ev = IrcEvent {
        raw: b"raw line".to_vec(),
        kind: EventKind::Privmsg {
            sender: Some(b"bob".to_vec()),
            target: b"me".to_vec(),
            text: b"yo".to_vec(),
        },
    };
    deliver(&mut fs, &ev, b"me", &at(12, 0, 1));

    let names = names_of(&fs, b"/");
    assert!(names.contains(&b"bob".to_vec()));

    let data = fs.read(b"/bob/receive", 0, 4096).expect("read failed");
    assert_eq!(data, b"12:00:01 bob: yo\n".to_vec());
}

#[test]
fn slash_join_command() {
    let mut fs = mount();
    let out = fs
        .write(b"/send", b"/join #rust\n", &req(), b"me", &at(12, 0, 0))
        .expect("write failed");
    assert_eq!(out.written, 12);

    let mut joined = false;
    for a in &out.actions {
        if let IrcAction::Join { channel, key } = a {
            assert_eq!(channel, &b"#rust".to_vec());
            assert!(key.is_none());
            joined = true;
        }
    }
    assert!(joined, "no join message was dispatched");

    for c in &out.controls {
        apply_control(&mut fs.fs, c, 0);
    }
    let names = names_of(&fs, b"/");
    assert!(names.contains(&b"#rust".to_vec()));
    assert_eq!(fs.read(b"/#rust/send", 0, 4096).expect("no send"), Vec::<u8>::new());
    assert_eq!(fs.read(b"/#rust/receive", 0, 4096).expect("no receive"), Vec::<u8>::new());
}

#[test]
fn outgoing_message_mirrors_locally() {
    let mut fs = mount();
    // Materialize /bob as an inbound event would.
    apply_control(&mut fs.fs, &ircfs::bridge::FsControl::CreateDir(b"/bob".to_vec()), 0);

    let out = fs
        .write(b"/bob/send", b"hello\n", &req(), b"me", &at(12, 0, 2))
        .expect("write failed");
    assert_eq!(out.written, 6);

    let mut sent = false;
    for a in &out.actions {
        if let IrcAction::Privmsg { target, body } = a {
            assert_eq!(target, &b"bob".to_vec());
            assert_eq!(body, &b"hello".to_vec());
            sent = true;
        }
    }
    assert!(sent, "no chat message was dispatched");

    for c in &out.controls {
        apply_control(&mut fs.fs, c, 0);
    }
    let data = fs.read(b"/bob/receive", 0, 4096).expect("read failed");
    assert!(data.ends_with(b"12:00:02 me: hello\n"));
}

#[test]
fn read_only_enforcement() {
    let mut fs = mount();
    let r = fs.write(b"/receive", b"x\n", &req(), b"me", &at(12, 0, 0));
    assert!(matches!(r, Err(FsError::NotSupported)));

    let r = fs.truncate(b"/receive", &req());
    assert!(matches!(r, Err(FsError::NotSupported)));

    let before = fs.read(b"/send", 0, 4096).expect("read failed");
    let r = fs.truncate(b"/send", &req());
    assert!(r.is_ok());
    let after = fs.read(b"/send", 0, 4096).expect("read failed");
    assert_eq!(before, after);
}

#[test]
fn mount_with_configured_channels() {
    let channels: Vec<Vec<u8>> = vec![b"#alpha".to_vec(), b"#beta".to_vec()];
    let fs = IrcFs::new(UID, GID, 0, &channels);
    let names = names_of(&fs, b"/");
    assert!(names.contains(&b"#alpha".to_vec()));
    assert!(names.contains(&b"#beta".to_vec()));
    assert_eq!(fs.read(b"/#alpha/receive", 0, 16).expect("no receive"), Vec::<u8>::new());
    let (_ttl, a) = fs.getattr(b"/#alpha").expect("no dir");
    assert_eq!(a.kind, FileKind::Directory);
}

#[test]
fn join_event_logs_membership_line() {
    let mut fs = mount();
    let ev = IrcEvent {
        raw: b"raw".to_vec(),
        kind: EventKind::Join { sender: Some(b"carol".to_vec()), channel: b"#bash".to_vec() },
    };
    deliver(&mut fs, &ev, b"me", &at(9, 5, 7));
    let data = fs.read(b"/#bash/receive", 0, 4096).expect("read failed");
    assert_eq!(data, b"09:05:07 carol has joined\n".to_vec());
}

#[test]
fn part_event_logs_reason() {
    let mut fs = mount();
    let ev = IrcEvent {
        raw: b"raw".to_vec(),
        kind: EventKind::Part {
            sender: Some(b"dave".to_vec()),
            channel: b"#bash".to_vec(),
            reason: Some(b"bye".to_vec()),
        },
    };
    deliver(&mut fs, &ev, b"me", &at(23, 59, 59));
    let data = fs.read(b"/#bash/receive", 0, 4096).expect("read failed");
    assert_eq!(data, b"23:59:59 dave has left (bye)\n".to_vec());
}

#[test]
fn part_event_without_reason() {
    let mut fs = mount();
    let ev = IrcEvent {
        raw: b"raw".to_vec(),
        kind: EventKind::Part {
            sender: None,
            channel: b"#bash".to_vec(),
            reason: None,
        },
    };
    deliver(&mut fs, &ev, b"me", &at(0, 0, 0));
    let data = fs.read(b"/#bash/receive", 0, 4096).expect("read failed");
    assert_eq!(data, b"00:00:00 me has left\n".to_vec());
}

#[test]
fn other_event_goes_to_session_log() {
    let mut fs = mount();
    let ev = IrcEvent { raw: b"NOTICE something".to_vec(), kind: EventKind::Other };
    deliver(&mut fs, &ev, b"me", &at(1, 2, 3));
    let data = fs.read(b"/receive", 0, 4096).expect("read failed");
    assert_eq!(data, b"01:02:03 NOTICE something".to_vec());
}

#[test]
fn ping_event_changes_nothing_visible() {
    let mut fs = mount();
    let ev = IrcEvent { raw: b"PING x".to_vec(), kind: EventKind::Ping };
    deliver(&mut fs, &ev, b"me", &at(1, 2, 3));
    assert_eq!(fs.read(b"/receive", 0, 4096).expect("read failed"), Vec::<u8>::new());
    let names = names_of(&fs, b"/");
    assert_eq!(names.len(), 4);
}

#[test]
fn direct_message_without_sender_lands_under_own_nickname() {
    let mut fs = mount();
    let ev = IrcEvent {
        raw: b"raw".to_vec(),
        kind: EventKind::Privmsg {
            sender: None,
            target: b"me".to_vec(),
            text: b"  spaced out  ".to_vec(),
        },
    };
    deliver(&mut fs, &ev, b"me", &at(7, 8, 9));
    let data = fs.read(b"/me/receive", 0, 4096).expect("read failed");
    assert_eq!(data, b"07:08:09 me: spaced out\n".to_vec());
}

#[test]
fn nested_channel_input_mirrors_to_its_own_log() {
    let mut fs = mount();
    apply_control(&mut fs.fs, &ircfs::bridge::FsControl::CreateDir(b"/a/b".to_vec()), 0);
    let out = fs
        .write(b"/a/b/send", b"deep\n", &req(), b"me", &at(3, 4, 5))
        .expect("write failed");
    let mut sent = false;
    for a in &out.actions {
        if let IrcAction::Privmsg { target, body } = a {
            assert_eq!(target, &b"b".to_vec());
            assert_eq!(body, &b"deep".to_vec());
            sent = true;
        }
    }
    assert!(sent);
    for c in &out.controls {
        apply_control(&mut fs.fs, c, 0);
    }
    let data = fs.read(b"/a/b/receive", 0, 4096).expect("read failed");
    assert_eq!(data, b"03:04:05 me: deep\n".to_vec());
}
