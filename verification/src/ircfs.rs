//! The kernel-facing operation layer: one mounted session, its tree, and
//! the translation of each upcall into tree-store operations and, for
//! writes, into tree commands and outbound protocol messages.
//!
//! The caller supplies the requester identity, this client's nickname and
//! the wall-clock reading; the `*_now` variants read the clock themselves.

use vstd::prelude::*;

use crate::bridge::{
    acts_view, apply_control, ctrls_view, spec_apply_control, spec_chat_line, spec_receive_under,
    spec_root_join, FsControl, FsControlView, IrcAction, IrcActionView,
};
use crate::bytes::{spec_trim, spec_trim_end};
use crate::clock::{now_seconds, now_time_of_day, time_of_day_wf, TimeOfDay};
use crate::errors::FsError;
use crate::names::{name_send, spec_name_receive, spec_name_send};
use crate::parser::{directive_effects, spec_directive_effects};
use crate::path::{parse_path, segs_view, spec_parse_path};
use crate::permissions::{can_write, spec_can_write, RequestInfo};
use crate::tree::{
    view_append, view_mk_file, DirectoryEntry, FileAttr, FileKind, Filesystem, Node, NodeView,
};

verus! {

/// What a write returns beside its byte count: the tree commands for the
/// mutator and the outbound messages for the session.
pub struct WriteOutcome {
    pub written: u32,
    pub controls: Vec<FsControl>,
    pub actions: Vec<IrcAction>,
}

/// The mathematical view of a write's outcome.
pub struct WriteOutcomeView {
    pub written: u32,
    pub controls: Seq<FsControlView>,
    pub actions: Seq<IrcActionView>,
}

impl View for WriteOutcome {
    type V = WriteOutcomeView;

    open spec fn view(&self) -> WriteOutcomeView {
        WriteOutcomeView {
            written: self.written,
            controls: ctrls_view(self.controls@),
            actions: acts_view(self.actions@),
        }
    }
}

/// The view of a write's whole result.
pub open spec fn write_result_view(r: Result<WriteOutcome, FsError>) -> Result<
    WriteOutcomeView,
    FsError,
> {
    match r {
        Ok(o) => Ok(o@),
        Err(e) => Err(e),
    }
}

/// The mounted session: the shared tree store. The session handle, the
/// lock and the worker tasks live outside the verified core.
pub struct IrcFs {
    pub fs: Filesystem,
}

/// The tree right after mounting: an empty root, the writable `/send`
/// input and the read-only `/receive` log.
pub open spec fn spec_mount_base(uid: u32, gid: u32, now: i64) -> NodeView {
    let root = NodeView::D { attr: crate::tree::spec_dir_attr(uid, gid, now), entries: Seq::empty() };
    let with_send = view_mk_file(root, seq![47u8] + spec_name_send(), now, 0o600);
    view_mk_file(with_send, seq![47u8] + spec_name_receive(), now, 0o400)
}

/// The tree after the pre-declared channel directories are materialized,
/// first to last.
pub open spec fn spec_mount_channels(v: NodeView, channels: Seq<Seq<u8>>, now: i64) -> NodeView
    decreases channels.len(),
{
    if channels.len() == 0 {
        v
    } else {
        spec_mount_channels(
            spec_apply_control(v, FsControlView::CreateDir(spec_root_join(channels[0])), now),
            channels.drop_first(),
            now,
        )
    }
}

/// The whole tree at mount time.
pub open spec fn spec_mount(uid: u32, gid: u32, now: i64, channels: Seq<Seq<u8>>) -> NodeView {
    spec_mount_channels(spec_mount_base(uid, gid, now), channels, now)
}

/// Does the write succeed, and what does it leave and emit? The write
/// misses like a read, refuses directories and files its requester cannot
/// write, counts every byte, appends the right-trimmed line — unless it is
/// empty — and dispatches it: directives from the session-level input,
/// message bodies from a channel's input.
pub open spec fn spec_write_post(
    pre: NodeView,
    post: NodeView,
    path: Seq<u8>,
    data: Seq<u8>,
    req: RequestInfo,
    nick: Seq<u8>,
    t: TimeOfDay,
    r: Result<WriteOutcomeView, FsError>,
) -> bool {
    let got = match spec_parse_path(path) {
        None => None,
        Some(segs) => crate::tree::lookup_v(pre, segs),
    };
    match got {
        None => r == Err::<WriteOutcomeView, FsError>(FsError::NotFound) && post == pre,
        Some(NodeView::D { .. }) => r == Err::<WriteOutcomeView, FsError>(FsError::IsADirectory)
            && post == pre,
        Some(NodeView::F { attr, .. }) => {
            let allowed = attr.perm <= 0o7777 && spec_can_write(
                attr.uid,
                attr.gid,
                attr.perm as u32,
                req,
            );
            let trimmed = spec_trim_end(data);
            if !allowed {
                r == Err::<WriteOutcomeView, FsError>(FsError::NotSupported) && post == pre
            } else if trimmed.len() == 0 {
                post == pre && (r matches Ok(o) && o.written == data.len() && o.controls
                    =~= Seq::<FsControlView>::empty() && o.actions =~= Seq::<
                    IrcActionView,
                >::empty())
            } else {
                let segs = spec_parse_path(path).unwrap();
                post == view_append(pre, path, trimmed + seq![10u8]) && (r matches Ok(o)
                    && o.written == data.len() && {
                    if segs =~= seq![spec_name_send()] {
                        let effects = spec_directive_effects(trimmed, nick, t);
                        o.controls =~= effects.0 && o.actions =~= effects.1
                    } else if segs.len() >= 2 {
                        let dir = spec_unparse(segs.take(segs.len() - 1));
                        o.controls =~= seq![
                            FsControlView::Message(
                                spec_receive_under(dir),
                                spec_chat_line(t, nick, spec_trim(data)),
                            ),
                        ] && o.actions =~= seq![
                            IrcActionView::Privmsg {
                                target: segs[segs.len() - 2],
                                body: trimmed,
                            },
                        ]
                    } else {
                        o.controls =~= Seq::<FsControlView>::empty() && o.actions =~= Seq::<
                            IrcActionView,
                        >::empty()
                    }
                })
            }
        },
    }
}

/// An absolute path written back from its components.
pub open spec fn spec_unparse(segs: Seq<Seq<u8>>) -> Seq<u8>
    decreases segs.len(),
{
    if segs.len() == 0 {
        Seq::<u8>::empty()
    } else {
        seq![47u8] + segs[0] + spec_unparse(segs.drop_first())
    }
}

/// Writing back one more component appends a separator and the component.
pub proof fn lemma_unparse_push(segs: Seq<Seq<u8>>, x: Seq<u8>)
    ensures
        spec_unparse(segs.push(x)) == spec_unparse(segs) + seq![47u8] + x,
    decreases segs.len(),
{
    if segs.len() == 0 {
        assert(segs.push(x)[0] == x);
        assert(segs.push(x).drop_first() =~= Seq::<Seq<u8>>::empty());
        assert(spec_unparse(Seq::<Seq<u8>>::empty()) == Seq::<u8>::empty());
        assert(spec_unparse(segs.push(x)) == seq![47u8] + segs.push(x)[0] + spec_unparse(
            segs.push(x).drop_first(),
        ));
        assert(spec_unparse(segs.push(x)) =~= seq![47u8] + x);
        assert(spec_unparse(segs) + seq![47u8] + x =~= seq![47u8] + x);
    } else {
        lemma_unparse_push(segs.drop_first(), x);
        assert(segs.push(x).drop_first() =~= segs.drop_first().push(x));
        assert(segs.push(x)[0] == segs[0]);
        assert(spec_unparse(segs) + seq![47u8] + x =~= seq![47u8] + segs[0] + (spec_unparse(
            segs.drop_first(),
        ) + seq![47u8] + x));
    }
}

/// The path of the components before the last, written back.
fn unparse_prefix(segs: &Vec<Vec<u8>>, upto: usize) -> (r: Vec<u8>)
    requires
        upto <= segs@.len(),
    ensures
        r@ == spec_unparse(segs_view(segs@).take(upto as int)),
{
    let ghost sv = segs_view(segs@);
    let mut v: Vec<u8> = Vec::new();
    proof {
        assert(sv.take(0) =~= Seq::<Seq<u8>>::empty());
        assert(v@ =~= spec_unparse(sv.take(0)));
    }
    let mut k: usize = 0;
    while k < upto
        invariant
            0 <= k <= upto <= sv.len(),
            sv == segs_view(segs@),
            v@ == spec_unparse(sv.take(k as int)),
        decreases upto - k,
    {
        v.push(47);
        crate::bytes::extend_bytes(&mut v, segs[k].as_slice());
        proof {
            assert(sv[k as int] == segs@[k as int]@);
            assert(sv.take(k + 1) =~= sv.take(k as int).push(sv[k as int]));
            lemma_unparse_push(sv.take(k as int), sv[k as int]);
        }
        k += 1;
    }
    v
}

impl IrcFs {
    /// Mount: an empty root owned by `uid`/`gid`, the session-level `send`
    /// and `receive` files, and one materialized directory per pre-declared
    /// channel.
    pub fn new(uid: u32, gid: u32, now: i64, channels: &Vec<Vec<u8>>) -> (r: IrcFs)
        ensures
            r.fs@ == spec_mount(uid, gid, now, segs_view(channels@)),
    {
        let mut fs = Filesystem::new(uid, gid, now);
        let mut send_path: Vec<u8> = Vec::new();
        send_path.push(47);
        let sn = name_send();
        crate::bytes::extend_bytes(&mut send_path, sn.as_slice());
        proof {
            assert(send_path@ =~= seq![47u8] + spec_name_send());
        }
        let _ = fs.mk_rw_file(send_path.as_slice(), now);
        let mut recv_path: Vec<u8> = Vec::new();
        recv_path.push(47);
        let rn = crate::names::name_receive();
        crate::bytes::extend_bytes(&mut recv_path, rn.as_slice());
        proof {
            assert(recv_path@ =~= seq![47u8] + spec_name_receive());
        }
        let _ = fs.mk_ro_file(recv_path.as_slice(), now);
        proof {
            assert(fs@ == spec_mount_base(uid, gid, now));
        }
        let ghost chv = segs_view(channels@);
        let mut i: usize = 0;
        proof {
            assert(chv.skip(0) =~= chv);
        }
        while i < channels.len()
            invariant
                0 <= i <= channels@.len(),
                chv == segs_view(channels@),
                spec_mount_channels(fs@, chv.skip(i as int), now) == spec_mount(
                    uid,
                    gid,
                    now,
                    chv,
                ),
            decreases channels@.len() - i,
        {
            let dir = crate::bridge::root_join(channels[i].as_slice());
            let c = FsControl::CreateDir(dir);
            let ghost cv = c@;
            proof {
                assert(chv.skip(i as int)[0] == chv[i as int]);
                assert(chv[i as int] == channels@[i as int]@);
                assert(cv == FsControlView::CreateDir(spec_root_join(chv[i as int])));
                assert(chv.skip(i as int).drop_first() =~= chv.skip(i + 1));
            }
            apply_control(&mut fs, &c, now);
            i += 1;
        }
        proof {
            assert(chv.skip(i as int) =~= Seq::<Seq<u8>>::empty());
        }
        IrcFs { fs }
    }

    /// Mount at the clock's current reading; the reading is returned with
    /// the mount.
    pub fn new_now(uid: u32, gid: u32, channels: &Vec<Vec<u8>>) -> (r: (i64, IrcFs))
        ensures
            r.1.fs@ == spec_mount(uid, gid, r.0, segs_view(channels@)),
    {
        let now = now_seconds();
        (now, IrcFs::new(uid, gid, now, channels))
    }

    /// The transport's mount notification; nothing is left to do.
    pub fn init(&self) -> (r: Result<(), FsError>)
        ensures
            r is Ok,
    {
        Ok(())
    }

    /// Read `size` bytes at `offset`: the slice of the buffer clipped to
    /// its end, and the empty slice beyond it; never an out-of-range error.
    pub fn read(&self, path: &[u8], offset: u64, size: u32) -> (r: Result<Vec<u8>, FsError>)
        ensures
            match self.fs.spec_get(path@) {
                None => r == Err::<Vec<u8>, FsError>(FsError::NotFound),
                Some(NodeView::D { .. }) => r == Err::<Vec<u8>, FsError>(FsError::IsADirectory),
                Some(NodeView::F { data, .. }) => r matches Ok(v) && v@ == spec_read_slice(
                    data,
                    offset,
                    size,
                ),
            },
    {
        match self.fs.get(path) {
            None => Err(FsError::NotFound),
            Some(node) => match node {
                Node::D(_) => Err(FsError::IsADirectory),
                Node::F(file) => {
                    let data = file.data();
                    if offset >= data.len() as u64 {
                        Ok(Vec::new())
                    } else {
                        let start = offset as usize;
                        let end: usize = if size as u64 > data.len() as u64 - offset {
                            data.len()
                        } else {
                            start + size as usize
                        };
                        Ok(crate::bytes::bytes_to_vec(&data[start..end]))
                    }
                },
            },
        }
    }

    /// Truncation never erases: on a writable file it succeeds without
    /// touching the data, on a read-only file it is refused.
    pub fn truncate(&self, path: &[u8], req: &RequestInfo) -> (r: Result<(), FsError>)
        ensures
            match self.fs.spec_get(path@) {
                None => r == Err::<(), FsError>(FsError::NotFound),
                Some(NodeView::D { .. }) => r == Err::<(), FsError>(FsError::IsADirectory),
                Some(NodeView::F { attr, .. }) => {
                    if attr.perm <= 0o7777 && spec_can_write(
                        attr.uid,
                        attr.gid,
                        attr.perm as u32,
                        *req,
                    ) {
                        r is Ok
                    } else {
                        r == Err::<(), FsError>(FsError::NotSupported)
                    }
                },
            },
    {
        match self.fs.get(path) {
            None => Err(FsError::NotFound),
            Some(node) => match node {
                Node::D(_) => Err(FsError::IsADirectory),
                Node::F(file) => {
                    if can_write(file.attr.uid, file.attr.gid, file.attr.perm, req) {
                        Ok(())
                    } else {
                        Err(FsError::NotSupported)
                    }
                },
            },
        }
    }

    /// Open a directory handle: handle 0, no state.
    pub fn opendir(&self, path: &[u8]) -> (r: Result<(u64, u32), FsError>)
        ensures
            self.fs.spec_get(path@) is Some ==> r == Ok::<(u64, u32), FsError>((0, 0)),
            self.fs.spec_get(path@) is None ==> r == Err::<(u64, u32), FsError>(FsError::NotFound),
    {
        match self.fs.get(path) {
            Some(_) => Ok((0, 0)),
            None => Err(FsError::NotFound),
        }
    }

    /// Open a file handle: unconditionally handle 0.
    pub fn open(&self, path: &[u8]) -> (r: Result<(u64, u32), FsError>)
        ensures
            r == Ok::<(u64, u32), FsError>((0, 0)),
    {
        let _ = path;
        Ok((0, 0))
    }

    /// Access is always granted: traversal is free in this system.
    pub fn access(&self, path: &[u8], mask: u32) -> (r: Result<(), FsError>)
        ensures
            r is Ok,
    {
        let _ = path;
        let _ = mask;
        Ok(())
    }

    /// The attributes of the node at `path`, with a one-second cache
    /// time-to-live.
    pub fn getattr(&self, path: &[u8]) -> (r: Result<(u64, FileAttr), FsError>)
        ensures
            match self.fs.spec_get(path@) {
                Some(n) => r == Ok::<(u64, FileAttr), FsError>((1, n.attr())),
                None => r == Err::<(u64, FileAttr), FsError>(FsError::NotFound),
            },
    {
        match self.fs.get(path) {
            Some(node) => Ok((1, *node.attr())),
            None => Err(FsError::NotFound),
        }
    }

    /// Resolve one name below a parent directory, with the same
    /// time-to-live as `getattr`.
    pub fn lookup(&self, parent: &[u8], name: &[u8]) -> (r: Result<(u64, FileAttr), FsError>)
        ensures
            match self.fs.spec_get(parent@) {
                Some(NodeView::D { entries, .. }) => {
                    match crate::tree::ev_find(entries, name@) {
                        Some(c) => r == Ok::<(u64, FileAttr), FsError>((1, c.attr())),
                        None => r == Err::<(u64, FileAttr), FsError>(FsError::NotFound),
                    }
                },
                _ => r == Err::<(u64, FileAttr), FsError>(FsError::NotFound),
            },
    {
        match self.fs.get(parent) {
            None => Err(FsError::NotFound),
            Some(node) => match node {
                Node::F(_) => Err(FsError::NotFound),
                Node::D(dir) => match dir.child(name) {
                    Some(c) => Ok((1, *c.attr())),
                    None => Err(FsError::NotFound),
                },
            },
        }
    }

    /// List a directory: its children in insertion order, then the
    /// synthetic `.` and `..` entries.
    pub fn readdir(&self, path: &[u8]) -> (r: Result<Vec<DirectoryEntry>, FsError>)
        ensures
            match self.fs.spec_get(path@) {
                None => r == Err::<Vec<DirectoryEntry>, FsError>(FsError::NotFound),
                Some(NodeView::F { .. }) => r == Err::<Vec<DirectoryEntry>, FsError>(
                    FsError::NotADirectory,
                ),
                Some(NodeView::D { entries, .. }) => r matches Ok(v) && {
                    &&& v@.len() == entries.len() + 2
                    &&& forall|i: int|
                        0 <= i < entries.len() ==> v@[i].name@ == entries[i].0 && v@[i].kind
                            == entries[i].1.kind()
                    &&& v@[entries.len() as int].name@ == seq![46u8]
                    &&& v@[entries.len() as int].kind == FileKind::Directory
                    &&& v@[entries.len() as int + 1].name@ == seq![46u8, 46u8]
                    &&& v@[entries.len() as int + 1].kind == FileKind::Directory
                },
            },
    {
        match self.fs.get(path) {
            None => {
                return Err(FsError::NotFound);
            },
            Some(node) => {
                if let Node::F(_) = node {
                    return Err(FsError::NotADirectory);
                }
            },
        }
        match self.fs.dir_entries(path) {
            None => unreached(),
            Some(mut entries) => {
                let dot: Vec<u8> = vec![46u8];
                proof {
                    assert(dot@ =~= seq![46u8]);
                }
                entries.push(DirectoryEntry { name: dot, kind: FileKind::Directory });
                let dotdot: Vec<u8> = vec![46u8, 46u8];
                proof {
                    assert(dotdot@ =~= seq![46u8, 46u8]);
                }
                entries.push(DirectoryEntry { name: dotdot, kind: FileKind::Directory });
                Ok(entries)
            },
        }
    }

    /// Write to the file at `path`: see `spec_write_post`.
    pub fn write(
        &mut self,
        path: &[u8],
        data: &[u8],
        req: &RequestInfo,
        nick: &[u8],
        t: &TimeOfDay,
    ) -> (r: Result<WriteOutcome, FsError>)
        requires
            data@.len() <= u32::MAX,
        ensures
            spec_write_post(
                old(self).fs@,
                final(self).fs@,
                path@,
                data@,
                *req,
                nick@,
                *t,
                write_result_view(r),
            ),
    {
        let (uid, gid, perm) = match self.fs.get(path) {
            None => {
                return Err(FsError::NotFound);
            },
            Some(node) => match node {
                Node::D(_) => {
                    return Err(FsError::IsADirectory);
                },
                Node::F(file) => (file.attr.uid, file.attr.gid, file.attr.perm),
            },
        };
        if !can_write(uid, gid, perm, req) {
            return Err(FsError::NotSupported);
        }
        let trimmed = crate::bytes::trim_end_bytes(data);
        if trimmed.len() == 0 {
            return Ok(
                WriteOutcome { written: data.len() as u32, controls: Vec::new(), actions: Vec::new() },
            );
        }
        let mut line = crate::bytes::bytes_to_vec(trimmed.as_slice());
        line.push(10);
        proof {
            assert(line@ =~= spec_trim_end(data@) + seq![10u8]);
        }
        let _ = self.fs.append(path, line.as_slice());
        let segs = match parse_path(path) {
            Some(s) => s,
            None => unreached(),
        };
        let sn = name_send();
        if segs.len() == 1 && crate::bytes::bytes_eq(segs[0].as_slice(), sn.as_slice()) {
            proof {
                assert(segs_view(segs@)[0] == segs@[0]@);
                assert(segs_view(segs@) =~= seq![spec_name_send()]);
            }
            let effects = directive_effects(trimmed.as_slice(), nick, t);
            Ok(
                WriteOutcome {
                    written: data.len() as u32,
                    controls: effects.0,
                    actions: effects.1,
                },
            )
        } else if segs.len() >= 2 {
            let dir = unparse_prefix(&segs, segs.len() - 1);
            let recv = crate::bridge::receive_under(dir.as_slice());
            let body = crate::bytes::trim_bytes(trimmed.as_slice());
            proof {
                crate::bytes::lemma_trim_end_len(data@);
                assert(spec_trim(spec_trim_end(data@)) == spec_trim(data@)) by {
                    assert(spec_trim_end(spec_trim_end(data@)) =~= spec_trim_end(data@)) by {
                        lemma_trim_end_idempotent(data@);
                    }
                }
            }
            let mirror = crate::bridge::chat_line(t, nick, body.as_slice());
            let mut controls: Vec<FsControl> = Vec::new();
            proof {
                assert(ctrls_view(controls@) =~= Seq::<FsControlView>::empty());
            }
            crate::bridge::push_control(&mut controls, FsControl::Message(recv, mirror));
            let target = crate::bytes::bytes_to_vec(segs[segs.len() - 2].as_slice());
            let mut actions: Vec<IrcAction> = Vec::new();
            proof {
                assert(acts_view(actions@) =~= Seq::<IrcActionView>::empty());
            }
            crate::bridge::push_action(
                &mut actions,
                IrcAction::Privmsg { target: target, body: trimmed },
            );
            proof {
                let sv = segs_view(segs@);
                assert(sv.take(sv.len() - 1) =~= segs_view(segs@).take(segs@.len() - 1));
                assert(sv[sv.len() - 2] == segs@[segs@.len() - 2]@);
            }
            Ok(WriteOutcome { written: data.len() as u32, controls: controls, actions: actions })
        } else {
            proof {
                let sv = segs_view(segs@);
                if sv.len() == 1 {
                    assert(sv[0] == segs@[0]@);
                    assert(!(sv =~= seq![spec_name_send()]));
                }
            }
            Ok(
                WriteOutcome { written: data.len() as u32, controls: Vec::new(), actions: Vec::new() },
            )
        }
    }

    /// Write at the clock's current reading; the reading used for the
    /// mirrored line is returned with the result.
    pub fn write_now(
        &mut self,
        path: &[u8],
        data: &[u8],
        req: &RequestInfo,
        nick: &[u8],
    ) -> (r: (TimeOfDay, Result<WriteOutcome, FsError>))
        requires
            data@.len() <= u32::MAX,
        ensures
            time_of_day_wf(r.0),
            spec_write_post(
                old(self).fs@,
                final(self).fs@,
                path@,
                data@,
                *req,
                nick@,
                r.0,
                write_result_view(r.1),
            ),
    {
        let t = now_time_of_day();
        let out = self.write(path, data, req, nick, &t);
        (t, out)
    }
}

/// The slice a read returns: the buffer from `offset`, clipped to `size`
/// bytes and to the buffer's end; empty from the end on.
pub open spec fn spec_read_slice(data: Seq<u8>, offset: u64, size: u32) -> Seq<u8> {
    if offset >= data.len() {
        Seq::<u8>::empty()
    } else if offset + size >= data.len() {
        data.subrange(offset as int, data.len() as int)
    } else {
        data.subrange(offset as int, offset + size)
    }
}

/// Stripping trailing whitespace twice strips it once.
pub proof fn lemma_trim_end_idempotent(s: Seq<u8>)
    ensures
        spec_trim_end(spec_trim_end(s)) =~= spec_trim_end(s),
{
    crate::bytes::lemma_trim_end_len(s);
    let k = crate::bytes::spec_trim_end_len(s);
    let t = spec_trim_end(s);
    assert(t.len() == k);
    if t.len() > 0 && crate::bytes::is_ws(t.last()) {
        lemma_trim_end_last_not_ws(s);
    }
    assert(crate::bytes::spec_trim_end_len(t) == t.len());
}

/// What trailing-whitespace stripping leaves does not end in whitespace.
pub proof fn lemma_trim_end_last_not_ws(s: Seq<u8>)
    ensures
        spec_trim_end(s).len() > 0 ==> !crate::bytes::is_ws(spec_trim_end(s).last()),
    decreases s.len(),
{
    crate::bytes::lemma_trim_end_len(s);
    if s.len() > 0 && crate::bytes::is_ws(s.last()) {
        lemma_trim_end_last_not_ws(s.drop_last());
        crate::bytes::lemma_trim_end_len(s.drop_last());
        assert(spec_trim_end(s) =~= spec_trim_end(s.drop_last()));
    }
}

} // verus!
