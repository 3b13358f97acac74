//! The permission bitfield: decoding, re-encoding, and the access checks.

use ircfs::permissions::{can_execute, can_read, can_write, Mode, Perms, RequestInfo, SpecialPerms};

#[test]
fn perms_decode_exact() {
    let p = Perms::new(0b101).unwrap();
    assert!(p.read);
    assert!(!p.write);
    assert!(p.execute);
    assert_eq!(p.as_int(), 0b101);
}

#[test]
fn perms_reject_wide_value() {
    assert!(Perms::new(0b1000).is_err());
}

#[test]
fn special_decode_exact() {
    let s = SpecialPerms::new(0b110).unwrap();
    assert_eq!(s.as_int(), 0b110);
    assert!(SpecialPerms::new(9).is_err());
}

#[test]
fn mode_decode_classic() {
    let m = Mode::new(0o755).unwrap();
    assert!(m.user.read && m.user.write && m.user.execute);
    assert!(m.group.read && !m.group.write && m.group.execute);
    assert!(m.other.read && !m.other.write && m.other.execute);
    assert_eq!(m.as_int(), 0o755);
}

#[test]
fn mode_rejects_beyond_twelve_bits() {
    assert!(Mode::new(0o10000).is_err());
    assert!(Mode::new(0o7777).is_ok());
}

#[test]
fn mode_round_trip_every_value() {
    for m in 0..=0o7777u32 {
        let decoded = Mode::new(m).unwrap();
        assert_eq!(decoded.as_int(), m);
    }
}

#[test]
fn access_check_owner_precedence() {
    // Owner bits win even when group/other would deny.
    let req = RequestInfo { uid: 1, gid: 2 };
    assert!(can_read(1, 99, 0o400, &req));
    assert!(can_write(1, 99, 0o200, &req));
    assert!(can_execute(1, 99, 0o100, &req));
    assert!(!can_read(1, 99, 0o044, &req));
}

#[test]
fn access_check_group_and_other() {
    let req = RequestInfo { uid: 1, gid: 2 };
    // Not the owner, matching group: group bits decide.
    assert!(can_read(9, 2, 0o040, &req));
    assert!(!can_write(9, 2, 0o020, &RequestInfo { uid: 9, gid: 3 }));
    // Neither owner nor group: other bits decide.
    assert!(can_write(9, 8, 0o002, &req));
    assert!(!can_execute(9, 8, 0o110, &req));
}

#[test]
fn access_check_denies_wide_mode() {
    let req = RequestInfo { uid: 1, gid: 1 };
    assert!(!can_read(1, 1, 0o17777, &req));
}

#[test]
fn mode_listing_renders_all_places() {
    assert_eq!(Mode::new(0o755).unwrap().display_string(), "rwxr-xr-x");
    assert_eq!(Mode::new(0o640).unwrap().display_string(), "rw-r-----");
    assert_eq!(Mode::new(0o4755).unwrap().display_string(), "rwsr-xr-x");
    assert_eq!(Mode::new(0o4655).unwrap().display_string(), "rwSr-xr-x");
    assert_eq!(Mode::new(0o2715).unwrap().display_string(), "rwx--sr-x");
    assert_eq!(Mode::new(0o1001).unwrap().display_string(), "--------t");
    assert_eq!(Mode::new(0o1000).unwrap().display_string(), "--------T");
    assert_eq!(Mode::new(0).unwrap().display_string(), "---------");
}
