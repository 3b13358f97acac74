//! The classical owner/group/other permission bitfield: decoding a 12-bit
//! mode into flag triples, re-encoding, and the read/write/execute checks
//! that pick the triple by the requester's identity.

use vstd::prelude::*;

verus! {

/// One read/write/execute triple.
#[derive(Debug, Clone, Copy, PartialEq, Eq, Structural)]
pub struct Perms {
    pub read: bool,
    pub write: bool,
    pub execute: bool,
}

/// What a 3-bit group decodes to.
pub open spec fn spec_perms_decode(bits: u32) -> Perms {
    Perms {
        read: bits & 0b100 != 0,
        write: bits & 0b010 != 0,
        execute: bits & 0b001 != 0,
    }
}

/// What a triple encodes to.
pub open spec fn spec_perms_encode(p: Perms) -> int {
    (if p.read { 0b100 as u32 } else { 0 }) + (if p.write { 0b010 as u32 } else { 0 }) + (if p.execute {
        0b001 as u32
    } else {
        0
    })
}

impl Perms {
    /// Decode three bits; values above 0b111 are rejected.
    pub fn new(bits: u32) -> (r: Result<Self, ()>)
        ensures
            bits > 0b111 <==> r is Err,
            r matches Ok(p) ==> p == spec_perms_decode(bits),
    {
        if bits > 0b111 {
            return Err(());
        }
        Ok(Perms { read: bits & 0b100 != 0, write: bits & 0b010 != 0, execute: bits & 0b001 != 0 })
    }

    /// Re-encode the triple as its 3-bit value.
    pub fn as_int(&self) -> (r: u32)
        ensures
            r == spec_perms_encode(*self),
    {
        let mut value: u32 = 0;
        if self.read {
            value += 0b100;
        }
        if self.write {
            value += 0b010;
        }
        if self.execute {
            value += 0b001;
        }
        value
    }
}

/// The three special bits: setuid, setgid, sticky.
#[derive(Debug, Clone, Copy, PartialEq, Eq, Structural)]
pub struct SpecialPerms {
    pub suid: bool,
    pub sgid: bool,
    pub sticky: bool,
}

/// What the 3-bit special group decodes to.
pub open spec fn spec_special_decode(bits: u32) -> SpecialPerms {
    SpecialPerms {
        suid: bits & 0b100 != 0,
        sgid: bits & 0b010 != 0,
        sticky: bits & 0b001 != 0,
    }
}

/// What the special bits encode to.
pub open spec fn spec_special_encode(s: SpecialPerms) -> int {
    (if s.suid { 0b100 as u32 } else { 0 }) + (if s.sgid { 0b010 as u32 } else { 0 }) + (if s.sticky {
        0b001 as u32
    } else {
        0
    })
}

impl SpecialPerms {
    /// Decode three bits; values above 0b111 are rejected.
    pub fn new(bits: u32) -> (r: Result<Self, ()>)
        ensures
            bits > 0b111 <==> r is Err,
            r matches Ok(s) ==> s == spec_special_decode(bits),
    {
        if bits > 0b111 {
            return Err(());
        }
        Ok(
            SpecialPerms {
                suid: bits & 0b100 != 0,
                sgid: bits & 0b010 != 0,
                sticky: bits & 0b001 != 0,
            },
        )
    }

    /// Re-encode the special bits as their 3-bit value.
    pub fn as_int(&self) -> (r: u32)
        ensures
            r == spec_special_encode(*self),
    {
        let mut value: u32 = 0;
        if self.suid {
            value += 0b100;
        }
        if self.sgid {
            value += 0b010;
        }
        if self.sticky {
            value += 0b001;
        }
        value
    }
}

/// A decoded 12-bit mode: special bits plus the owner, group and other
/// triples.
#[derive(Debug, Clone, Copy, PartialEq, Eq, Structural)]
pub struct Mode {
    pub special: SpecialPerms,
    pub user: Perms,
    pub group: Perms,
    pub other: Perms,
}

/// What a 12-bit mode decodes to.
pub open spec fn spec_mode_decode(mode: u32) -> Mode {
    Mode {
        special: spec_special_decode((0o7000 & mode) >> 9),
        user: spec_perms_decode((0o700 & mode) >> 6),
        group: spec_perms_decode((0o70 & mode) >> 3),
        other: spec_perms_decode(0o7 & mode),
    }
}

/// What a decoded mode encodes back to.
pub open spec fn spec_mode_encode(m: Mode) -> int {
    spec_special_encode(m.special) * 0o1000 + spec_perms_encode(m.user) * 0o100 + spec_perms_encode(
        m.group,
    ) * 0o10 + spec_perms_encode(m.other)
}

impl Mode {
    /// Decode a mode; fails exactly when the value exceeds the 12-bit range.
    pub fn new(mode: u32) -> (r: Result<Self, ()>)
        ensures
            mode > 0o7777 <==> r is Err,
            r matches Ok(m) ==> m == spec_mode_decode(mode),
    {
        if mode > 0o7777 {
            return Err(());
        }
        assert((0o7000 & mode) >> 9 <= 0b111 && (0o700 & mode) >> 6 <= 0b111 && (0o70 & mode) >> 3
            <= 0b111 && (0o7 & mode) <= 0b111) by (bit_vector);
        Ok(
            Mode {
                special: SpecialPerms::new((0o7000 & mode) >> 9)?,
                user: Perms::new((0o700 & mode) >> 6)?,
                group: Perms::new((0o70 & mode) >> 3)?,
                other: Perms::new(0o7 & mode)?,
            },
        )
    }

    /// Re-encode the mode as its 12-bit value.
    pub fn as_int(&self) -> (r: u32)
        ensures
            r == spec_mode_encode(*self),
    {
        let s = self.special.as_int();
        let u = self.user.as_int();
        let g = self.group.as_int();
        let o = self.other.as_int();
        assert(s <= 7 && u <= 7 && g <= 7 && o <= 7);
        s * 0o1000 + u * 0o100 + g * 0o10 + o
    }
}

/// The nine characters of the classical permission listing: `r`, `w` and an
/// execute place per triple, where the execute place folds in the matching
/// special bit (`s`/`S` for setuid and setgid, `t`/`T` for sticky).
pub open spec fn spec_mode_display(m: Mode) -> Seq<char> {
    seq![
        if m.user.read {
            'r'
        } else {
            '-'
        },
        if m.user.write {
            'w'
        } else {
            '-'
        },
        if m.user.execute && m.special.suid {
            's'
        } else if m.user.execute {
            'x'
        } else if m.special.suid {
            'S'
        } else {
            '-'
        },
        if m.group.read {
            'r'
        } else {
            '-'
        },
        if m.group.write {
            'w'
        } else {
            '-'
        },
        if m.group.execute && m.special.sgid {
            's'
        } else if m.group.execute {
            'x'
        } else if m.special.sgid {
            'S'
        } else {
            '-'
        },
        if m.other.read {
            'r'
        } else {
            '-'
        },
        if m.other.write {
            'w'
        } else {
            '-'
        },
        if m.other.execute && m.special.sticky {
            't'
        } else if m.other.execute {
            'x'
        } else if m.special.sticky {
            'T'
        } else {
            '-'
        },
    ]
}

impl Mode {
    /// The mode as the classical nine-character listing.
    pub fn display_string(&self) -> (r: String)
        ensures
            r@ == spec_mode_display(*self),
    {
        proof {
            reveal_strlit("");
            reveal_strlit("r");
            reveal_strlit("w");
            reveal_strlit("x");
            reveal_strlit("s");
            reveal_strlit("S");
            reveal_strlit("t");
            reveal_strlit("T");
            reveal_strlit("-");
        }
        let mut s = String::from_str("");
        s.append(if self.user.read {
            "r"
        } else {
            "-"
        });
        s.append(if self.user.write {
            "w"
        } else {
            "-"
        });
        s.append(
            if self.user.execute && self.special.suid {
                "s"
            } else if self.user.execute {
                "x"
            } else if self.special.suid {
                "S"
            } else {
                "-"
            },
        );
        s.append(if self.group.read {
            "r"
        } else {
            "-"
        });
        s.append(if self.group.write {
            "w"
        } else {
            "-"
        });
        s.append(
            if self.group.execute && self.special.sgid {
                "s"
            } else if self.group.execute {
                "x"
            } else if self.special.sgid {
                "S"
            } else {
                "-"
            },
        );
        s.append(if self.other.read {
            "r"
        } else {
            "-"
        });
        s.append(if self.other.write {
            "w"
        } else {
            "-"
        });
        s.append(
            if self.other.execute && self.special.sticky {
                "t"
            } else if self.other.execute {
                "x"
            } else if self.special.sticky {
                "T"
            } else {
                "-"
            },
        );
        proof {
            assert(s@ =~= spec_mode_display(*self));
        }
        s
    }
}

/// The identity on whose behalf a filesystem operation runs, as the
/// transport reports it.
#[derive(Debug, Clone, Copy, PartialEq, Eq, Structural)]
pub struct RequestInfo {
    pub uid: u32,
    pub gid: u32,
}

/// The standard precedence: owner bits if the requester is the owner, else
/// group bits if the requester's group matches, else other bits.
pub open spec fn spec_can_read(uid: u32, gid: u32, mode: u32, req: RequestInfo) -> bool {
    let m = spec_mode_decode(mode);
    if uid == req.uid {
        m.user.read
    } else if gid == req.gid {
        m.group.read
    } else {
        m.other.read
    }
}

/// As `spec_can_read`, for the write bit.
pub open spec fn spec_can_write(uid: u32, gid: u32, mode: u32, req: RequestInfo) -> bool {
    let m = spec_mode_decode(mode);
    if uid == req.uid {
        m.user.write
    } else if gid == req.gid {
        m.group.write
    } else {
        m.other.write
    }
}

/// As `spec_can_read`, for the execute bit.
pub open spec fn spec_can_execute(uid: u32, gid: u32, mode: u32, req: RequestInfo) -> bool {
    let m = spec_mode_decode(mode);
    if uid == req.uid {
        m.user.execute
    } else if gid == req.gid {
        m.group.execute
    } else {
        m.other.execute
    }
}

/// May `req` read a node owned by `uid`/`gid` with permission bits `mode`?
pub fn can_read(uid: u32, gid: u32, mode: u16, req: &RequestInfo) -> (r: bool)
    ensures
        r == (mode <= 0o7777 && spec_can_read(uid, gid, mode as u32, *req)),
{
    let m = match Mode::new(mode as u32) {
        Ok(m) => m,
        Err(()) => { return false; },
    };
    if uid == req.uid {
        m.user.read
    } else if gid == req.gid {
        m.group.read
    } else {
        m.other.read
    }
}

/// May `req` write a node owned by `uid`/`gid` with permission bits `mode`?
pub fn can_write(uid: u32, gid: u32, mode: u16, req: &RequestInfo) -> (r: bool)
    ensures
        r == (mode <= 0o7777 && spec_can_write(uid, gid, mode as u32, *req)),
{
    let m = match Mode::new(mode as u32) {
        Ok(m) => m,
        Err(()) => { return false; },
    };
    if uid == req.uid {
        m.user.write
    } else if gid == req.gid {
        m.group.write
    } else {
        m.other.write
    }
}

/// May `req` execute a node owned by `uid`/`gid` with permission bits `mode`?
pub fn can_execute(uid: u32, gid: u32, mode: u16, req: &RequestInfo) -> (r: bool)
    ensures
        r == (mode <= 0o7777 && spec_can_execute(uid, gid, mode as u32, *req)),
{
    let m = match Mode::new(mode as u32) {
        Ok(m) => m,
        Err(()) => { return false; },
    };
    if uid == req.uid {
        m.user.execute
    } else if gid == req.gid {
        m.group.execute
    } else {
        m.other.execute
    }
}

/// A 3-bit value decodes and re-encodes to itself.
pub proof fn lemma_perms_round_trip(bits: u32)
    requires
        bits <= 0b111,
    ensures
        spec_perms_encode(spec_perms_decode(bits)) == bits,
{
    assert((if bits & 0b100 != 0 { 0b100 as u32 } else { 0 }) + (if bits & 0b010 != 0 {
        0b010 as u32
    } else {
        0
    }) + (if bits & 0b001 != 0 {
        0b001 as u32
    } else {
        0
    }) == bits) by (bit_vector)
        requires
            bits <= 0b111,
    ;
}

/// A 3-bit special value decodes and re-encodes to itself.
pub proof fn lemma_special_round_trip(bits: u32)
    requires
        bits <= 0b111,
    ensures
        spec_special_encode(spec_special_decode(bits)) == bits,
{
    assert((if bits & 0b100 != 0 { 0b100 as u32 } else { 0 }) + (if bits & 0b010 != 0 {
        0b010 as u32
    } else {
        0
    }) + (if bits & 0b001 != 0 {
        0b001 as u32
    } else {
        0
    }) == bits) by (bit_vector)
        requires
            bits <= 0b111,
    ;
}

/// Every 12-bit mode decodes and re-encodes to itself.
pub proof fn lemma_mode_round_trip(mode: u32)
    requires
        mode <= 0o7777,
    ensures
        spec_mode_encode(spec_mode_decode(mode)) == mode,
{
    let s = (0o7000 & mode) >> 9;
    let u = (0o700 & mode) >> 6;
    let g = (0o70 & mode) >> 3;
    let o = 0o7 & mode;
    assert(s <= 0b111 && u <= 0b111 && g <= 0b111 && o <= 0b111) by (bit_vector)
        requires
            s == (0o7000 & mode) >> 9 && u == (0o700 & mode) >> 6 && g == (0o70 & mode) >> 3 && o
                == 0o7 & mode,
    ;
    lemma_special_round_trip(s);
    lemma_perms_round_trip(u);
    lemma_perms_round_trip(g);
    lemma_perms_round_trip(o);
    assert(s * 0o1000 + u * 0o100 + g * 0o10 + o == mode) by (bit_vector)
        requires
            s == (0o7000 & mode) >> 9 && u == (0o700 & mode) >> 6 && g == (0o70 & mode) >> 3 && o
                == 0o7 & mode && mode <= 0o7777,
    ;
}

} // verus!
