//! The directive parser, exercised through writes to the session input.

use ircfs::bridge::{FsControl, IrcAction};
use ircfs::clock::TimeOfDay;
use ircfs::ircfs::IrcFs;
use ircfs::permissions::RequestInfo;

const UID: u32 = 1000;
const GID: u32 = 1000;

fn req() -> RequestInfo {
    RequestInfo { uid: UID, gid: GID }
}

fn at(hour: u8, min: u8, sec: u8) -> TimeOfDay {
    TimeOfDay { hour, min, sec }
}

fn send(line: &[u8], t: &TimeOfDay) -> (Vec<FsControl>, Vec<IrcAction>) {
    let mut fs = IrcFs::new(UID, GID, 0, &Vec::new());
    let out = fs.write(b"/send", line, &req(), b"me", t).expect("write failed");
    (out.controls, out.actions)
}

#[test]
fn join_accepts_all_spellings() {
    for line in [&b"/j #a\n"[..], b"/join #a\n", b"j #a\n", b"join #a\n"] {
        let (controls, actions) = send(line, &at(0, 0, 0));
        assert_eq!(controls.len(), 1, "for {:?}", line);
        assert!(matches!(&controls[0], FsControl::CreateDir(p) if p == &b"/#a".to_vec()));
        assert_eq!(actions.len(), 1);
        assert!(
            matches!(&actions[0], IrcAction::Join { channel, key } if channel == &b"#a".to_vec() && key.is_none())
        );
    }
}

#[test]
fn join_splits_channel_lists() {
    let (controls, actions) = send(b"/join #a,#b\n", &at(0, 0, 0));
    assert_eq!(controls.len(), 2);
    assert_eq!(actions.len(), 2);
    assert!(matches!(&controls[1], FsControl::CreateDir(p) if p == &b"/#b".to_vec()));
    assert!(matches!(&actions[1], IrcAction::Join { channel, .. } if channel == &b"#b".to_vec()));
}

#[test]
fn join_pairs_keys_with_channels() {
    let (_controls, actions) = send(b"/join #a,#b k1,k2\n", &at(0, 0, 0));
    assert_eq!(actions.len(), 2);
    assert!(
        matches!(&actions[0], IrcAction::Join { channel, key } if channel == &b"#a".to_vec() && key.as_deref() == Some(&b"k1"[..]))
    );
    assert!(
        matches!(&actions[1], IrcAction::Join { channel, key } if channel == &b"#b".to_vec() && key.as_deref() == Some(&b"k2"[..]))
    );
}

#[test]
fn join_key_pairing_stops_at_shorter_list() {
    let (controls, actions) = send(b"/join #a,#b,#c k1\n", &at(0, 0, 0));
    assert_eq!(controls.len(), 1);
    assert_eq!(actions.len(), 1);
}

#[test]
fn part_emits_no_tree_commands() {
    let (controls, actions) = send(b"/part #a,#b\n", &at(0, 0, 0));
    assert!(controls.is_empty());
    assert_eq!(actions.len(), 2);
    assert!(
        matches!(&actions[0], IrcAction::Part { channel, reason } if channel == &b"#a".to_vec() && reason.is_none())
    );
}

#[test]
fn part_pairs_reasons_and_drops_empty_ones() {
    let (_controls, actions) = send(b"/part #a,#b gone,\n", &at(0, 0, 0));
    assert_eq!(actions.len(), 2);
    assert!(
        matches!(&actions[0], IrcAction::Part { reason, .. } if reason.as_deref() == Some(&b"gone"[..]))
    );
    assert!(matches!(&actions[1], IrcAction::Part { reason, .. } if reason.is_none()));
}

#[test]
fn msg_with_target_only_materializes_directory() {
    let (controls, actions) = send(b"/msg bob\n", &at(0, 0, 0));
    assert_eq!(controls.len(), 1);
    assert!(matches!(&controls[0], FsControl::CreateDir(p) if p == &b"/bob".to_vec()));
    assert!(actions.is_empty());
}

#[test]
fn msg_sends_and_mirrors_joined_body() {
    let (controls, actions) = send(b"/msg bob hello there\n", &at(12, 30, 1));
    assert_eq!(controls.len(), 2);
    assert!(matches!(&controls[0], FsControl::CreateDir(p) if p == &b"/bob".to_vec()));
    match &controls[1] {
        FsControl::Message(path, data) => {
            assert_eq!(path, &b"/bob/receive".to_vec());
            assert_eq!(data, &b"12:30:01 me: hello there\n".to_vec());
        },
        other => panic!("unexpected command {:?}", other),
    }
    assert_eq!(actions.len(), 1);
    assert!(
        matches!(&actions[0], IrcAction::Privmsg { target, body } if target == &b"bob".to_vec() && body == &b"hello there".to_vec())
    );
}

#[test]
fn leading_spaces_before_directive_are_skipped() {
    let (controls, actions) = send(b"   /join  #a\n", &at(0, 0, 0));
    assert_eq!(controls.len(), 1);
    assert_eq!(actions.len(), 1);
    assert!(matches!(&controls[0], FsControl::CreateDir(p) if p == &b"/#a".to_vec()));
}

#[test]
fn unknown_directive_is_ignored() {
    let (controls, actions) = send(b"/quit now\n", &at(0, 0, 0));
    assert!(controls.is_empty());
    assert!(actions.is_empty());
}
