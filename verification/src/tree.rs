//! The in-memory tree store: a rooted directory tree in which directories
//! map child names to nodes and files hold an append-only byte buffer, each
//! node carrying its attributes.
//!
//! The mathematical model of a tree is [`NodeView`]; every operation's
//! contract describes the new tree as a function of the old one at that
//! level.

use vstd::prelude::*;

use crate::errors::FsError;

verus! {

/// The kind of a node.
#[derive(Debug, Clone, Copy, PartialEq, Eq, Structural)]
pub enum FileKind {
    Directory,
    RegularFile,
}

/// Per-node attributes: size, block count, timestamps (seconds), kind,
/// permission bits, hard-link count, owner, group, device, flags.
#[derive(Debug, Clone, Copy, PartialEq, Eq, Structural)]
pub struct FileAttr {
    pub size: u64,
    pub blocks: u64,
    pub atime: i64,
    pub mtime: i64,
    pub ctime: i64,
    pub crtime: i64,
    pub kind: FileKind,
    pub perm: u16,
    pub nlink: u32,
    pub uid: u32,
    pub gid: u32,
    pub rdev: u32,
    pub flags: u32,
}

/// A regular file: attributes plus the append-only buffer.
pub struct FuseFile {
    pub attr: FileAttr,
    pub data: Vec<u8>,
}

/// One directory entry: a child name and the child node.
pub struct FuseEntry {
    pub name: Vec<u8>,
    pub node: Node,
}

/// A directory: attributes plus its children, in insertion order.
pub struct FuseDir {
    pub attr: FileAttr,
    pub tree: Vec<FuseEntry>,
}

/// A tree node: file or directory.
pub enum Node {
    F(FuseFile),
    D(FuseDir),
}

/// The mathematical model of a tree node.
#[verifier::ext_equal]
pub enum NodeView {
    D { attr: FileAttr, entries: Seq<(Seq<u8>, NodeView)> },
    F { attr: FileAttr, data: Seq<u8> },
}

impl NodeView {
    /// The attributes, whatever the kind.
    pub open spec fn attr(self) -> FileAttr {
        match self {
            NodeView::D { attr, .. } => attr,
            NodeView::F { attr, .. } => attr,
        }
    }

    /// The kind of the node itself (not of its attribute field).
    pub open spec fn kind(self) -> FileKind {
        match self {
            NodeView::D { .. } => FileKind::Directory,
            NodeView::F { .. } => FileKind::RegularFile,
        }
    }
}

/// The model of a node.
pub open spec fn node_view(n: Node) -> NodeView
    decreases n,
{
    match n {
        Node::F(f) => NodeView::F { attr: f.attr, data: f.data@ },
        Node::D(d) => NodeView::D { attr: d.attr, entries: entries_view(d.tree@) },
    }
}

/// The model of a directory's entry list.
pub open spec fn entries_view(s: Seq<FuseEntry>) -> Seq<(Seq<u8>, NodeView)>
    decreases s,
{
    if s.len() == 0 {
        Seq::<(Seq<u8>, NodeView)>::empty()
    } else {
        seq![(s.first().name@, node_view(s.first().node))] + entries_view(s.drop_first())
    }
}

impl View for Node {
    type V = NodeView;

    open spec fn view(&self) -> NodeView {
        node_view(*self)
    }
}

impl View for FuseDir {
    type V = NodeView;

    open spec fn view(&self) -> NodeView {
        node_view(Node::D(*self))
    }
}

impl View for FuseFile {
    type V = NodeView;

    open spec fn view(&self) -> NodeView {
        node_view(Node::F(*self))
    }
}

/// The entry-list model has one element per entry, in order.
pub proof fn lemma_entries_view(s: Seq<FuseEntry>)
    ensures
        entries_view(s).len() == s.len(),
        forall|i: int|
            0 <= i < s.len() ==> entries_view(s)[i] == (s[i].name@, node_view(s[i].node)),
    decreases s.len(),
{
    if s.len() > 0 {
        lemma_entries_view(s.drop_first());
        assert forall|i: int| 0 <= i < s.len() implies entries_view(s)[i] == (
            s[i].name@,
            node_view(s[i].node),
        ) by {
            if i > 0 {
                assert(s.drop_first()[i - 1] == s[i]);
                assert(entries_view(s)[i] == entries_view(s.drop_first())[i - 1]);
            }
        }
    }
}

/// The index of the first entry named `name`, if any.
pub open spec fn ev_find_idx(entries: Seq<(Seq<u8>, NodeView)>, name: Seq<u8>) -> Option<int>
    decreases entries.len(),
{
    if entries.len() == 0 {
        None
    } else if entries[0].0 == name {
        Some(0int)
    } else {
        match ev_find_idx(entries.drop_first(), name) {
            None => None,
            Some(i) => Some(i + 1),
        }
    }
}

/// The first child of a directory model named `name`, if any.
pub open spec fn ev_find(entries: Seq<(Seq<u8>, NodeView)>, name: Seq<u8>) -> Option<NodeView> {
    match ev_find_idx(entries, name) {
        None => None,
        Some(i) => Some(entries[i].1),
    }
}

/// `ev_find_idx` names the first matching index, and `None` means no match.
pub proof fn lemma_ev_find_idx(entries: Seq<(Seq<u8>, NodeView)>, name: Seq<u8>)
    ensures
        match ev_find_idx(entries, name) {
            Some(i) => 0 <= i < entries.len() && entries[i].0 == name && forall|k: int|
                0 <= k < i ==> entries[k].0 != name,
            None => forall|k: int| 0 <= k < entries.len() ==> entries[k].0 != name,
        },
    decreases entries.len(),
{
    if entries.len() > 0 && entries[0].0 != name {
        lemma_ev_find_idx(entries.drop_first(), name);
        match ev_find_idx(entries.drop_first(), name) {
            Some(i) => {
                assert forall|k: int| 0 <= k < i + 1 implies entries[k].0 != name by {
                    if k > 0 {
                        assert(entries.drop_first()[k - 1] == entries[k]);
                    }
                }
            },
            None => {
                assert forall|k: int| 0 <= k < entries.len() implies entries[k].0 != name by {
                    if k > 0 {
                        assert(entries.drop_first()[k - 1] == entries[k]);
                    }
                }
            },
        }
    }
}

/// Resolution: walk the model one component at a time; descending through a
/// file is a miss; the empty path is the node itself.
pub open spec fn lookup_v(n: NodeView, segs: Seq<Seq<u8>>) -> Option<NodeView>
    decreases segs.len(),
{
    if segs.len() == 0 {
        Some(n)
    } else {
        match n {
            NodeView::F { .. } => None,
            NodeView::D { attr, entries } => match ev_find(entries, segs.first()) {
                None => None,
                Some(c) => lookup_v(c, segs.drop_first()),
            },
        }
    }
}

/// The attributes a fresh directory is created with: fixed display size,
/// owner read+write+execute, two hard links.
pub open spec fn spec_dir_attr(uid: u32, gid: u32, now: i64) -> FileAttr {
    FileAttr {
        size: 4096,
        blocks: 8,
        atime: now,
        mtime: now,
        ctime: now,
        crtime: now,
        kind: FileKind::Directory,
        perm: 0o700,
        nlink: 2,
        uid: uid,
        gid: gid,
        rdev: 0,
        flags: 0,
    }
}

/// The attributes a fresh file is created with; `perm` is owner read+write
/// for writable files and owner read for read-only ones.
pub open spec fn spec_file_attr(uid: u32, gid: u32, now: i64, perm: u16) -> FileAttr {
    FileAttr {
        size: 0,
        blocks: 1,
        atime: now,
        mtime: now,
        ctime: now,
        crtime: now,
        kind: FileKind::RegularFile,
        perm: perm,
        nlink: 1,
        uid: uid,
        gid: gid,
        rdev: 0,
        flags: 0,
    }
}

impl FuseDir {
    /// The first child of this directory named `name`, if any.
    pub fn child(&self, name: &[u8]) -> (r: Option<&Node>)
        ensures
            match r {
                Some(n) => (self@ matches NodeView::D { entries, .. } && ev_find(entries, name@)
                    == Some(n@)),
                None => (self@ matches NodeView::D { entries, .. } && ev_find(entries, name@)
                    is None),
            },
    {
        proof {
            lemma_entries_view(self.tree@);
        }
        match find_entry(&self.tree, name) {
            Some(j) => Some(&self.tree[j].node),
            None => None,
        }
    }

    /// A fresh, empty directory owned by `uid`/`gid`, created at `now`.
    pub fn new(uid: u32, gid: u32, now: i64) -> (d: FuseDir)
        ensures
            d@ == (NodeView::D { attr: spec_dir_attr(uid, gid, now), entries: Seq::empty() }),
    {
        let d = FuseDir {
            attr: FileAttr {
                size: 4096,
                blocks: 8,
                atime: now,
                mtime: now,
                ctime: now,
                crtime: now,
                kind: FileKind::Directory,
                perm: 0o700,
                nlink: 2,
                uid: uid,
                gid: gid,
                rdev: 0,
                flags: 0,
            },
            tree: Vec::new(),
        };
        proof {
            assert(entries_view(d.tree@) =~= Seq::<(Seq<u8>, NodeView)>::empty());
        }
        d
    }
}

impl FuseFile {
    /// A fresh writable file: empty buffer, owner read+write.
    pub fn new_rw(uid: u32, gid: u32, now: i64) -> (f: FuseFile)
        ensures
            f@ == (NodeView::F { attr: spec_file_attr(uid, gid, now, 0o600), data: Seq::empty() }),
    {
        FuseFile {
            attr: FileAttr {
                size: 0,
                blocks: 1,
                atime: now,
                mtime: now,
                ctime: now,
                crtime: now,
                kind: FileKind::RegularFile,
                perm: 0o600,
                nlink: 1,
                uid: uid,
                gid: gid,
                rdev: 0,
                flags: 0,
            },
            data: Vec::new(),
        }
    }

    /// A fresh read-only file: empty buffer, owner read only.
    pub fn new_ro(uid: u32, gid: u32, now: i64) -> (f: FuseFile)
        ensures
            f@ == (NodeView::F { attr: spec_file_attr(uid, gid, now, 0o400), data: Seq::empty() }),
    {
        FuseFile {
            attr: FileAttr {
                size: 0,
                blocks: 1,
                atime: now,
                mtime: now,
                ctime: now,
                crtime: now,
                kind: FileKind::RegularFile,
                perm: 0o400,
                nlink: 1,
                uid: uid,
                gid: gid,
                rdev: 0,
                flags: 0,
            },
            data: Vec::new(),
        }
    }

    /// The buffered bytes.
    pub fn data(&self) -> (r: &[u8])
        ensures
            r@ == self.data@,
    {
        self.data.as_slice()
    }

    /// Append bytes to the buffer and track the length in the size
    /// attribute. The buffer only ever grows.
    pub fn insert_data(&mut self, data: &[u8])
        ensures
            final(self).data@ == old(self).data@ + data@,
            final(self).attr == (FileAttr {
                size: final(self).data@.len() as u64,
                ..old(self).attr
            }),
    {
        let mut i: usize = 0;
        while i < data.len()
            invariant
                0 <= i <= data.len(),
                self.data@ == old(self).data@ + data@.subrange(0, i as int),
                self.attr == old(self).attr,
            decreases data.len() - i,
        {
            self.data.push(data[i]);
            proof {
                assert(old(self).data@ + data@.subrange(0, i as int) + seq![data@[i as int]]
                    =~= old(self).data@ + data@.subrange(0, i + 1));
            }
            i += 1;
        }
        proof {
            assert(data@.subrange(0, data@.len() as int) =~= data@);
        }
        self.attr.size = self.data.len() as u64;
    }
}

impl Node {
    /// The attributes, whatever the kind.
    pub fn attr(&self) -> (r: &FileAttr)
        ensures
            *r == self@.attr(),
    {
        match self {
            Node::D(dir) => &dir.attr,
            Node::F(file) => &file.attr,
        }
    }

    /// The directory inside, for when the caller knows the node is one.
    pub fn as_dir(&self) -> (r: &FuseDir)
        requires
            self@ is D,
        ensures
            r@ == self@,
    {
        match self {
            Node::D(dir) => dir,
            Node::F(_) => unreached(),
        }
    }
}

/// One more hard link on a directory, for a new subdirectory's back-link;
/// saturating, since the count cannot shrink.
pub open spec fn spec_bump_nlink(attr: FileAttr) -> FileAttr {
    FileAttr {
        nlink: if attr.nlink < u32::MAX {
            (attr.nlink + 1) as u32
        } else {
            attr.nlink
        },
        ..attr
    }
}

/// Insertion of `new` at `segs`: the terminal component is the new node's
/// name; the prefix must resolve to an existing directory. Inserting a
/// directory adds one hard link to its parent; the tree is unchanged on
/// every error.
pub open spec fn spec_insert(n: NodeView, segs: Seq<Seq<u8>>, new: NodeView) -> (NodeView, Result<
    (),
    FsError,
>)
    decreases segs.len(),
{
    match n {
        NodeView::F { .. } => (n, Err(FsError::NotADirectory)),
        NodeView::D { attr, entries } => {
            if segs.len() == 0 {
                (n, Err(FsError::AlreadyExists))
            } else if segs.len() == 1 {
                if ev_find_idx(entries, segs[0]) is Some {
                    (n, Err(FsError::AlreadyExists))
                } else {
                    let attr2 = if new is D {
                        spec_bump_nlink(attr)
                    } else {
                        attr
                    };
                    (NodeView::D { attr: attr2, entries: entries.push((segs[0], new)) }, Ok(()))
                }
            } else {
                match ev_find_idx(entries, segs[0]) {
                    None => (n, Err(FsError::NotFound)),
                    Some(i) => {
                        let inner = spec_insert(entries[i].1, segs.drop_first(), new);
                        if inner.1 is Ok {
                            (
                                NodeView::D {
                                    attr: attr,
                                    entries: entries.update(i, (entries[i].0, inner.0)),
                                },
                                inner.1,
                            )
                        } else {
                            (n, inner.1)
                        }
                    },
                }
            }
        },
    }
}

/// Appending `bytes` to the file at `segs`: the buffer grows by `bytes`, the
/// size attribute tracks the new length; reaching a directory is an error;
/// the tree is unchanged on every error.
pub open spec fn spec_append(n: NodeView, segs: Seq<Seq<u8>>, bytes: Seq<u8>) -> (NodeView, Result<
    (),
    FsError,
>)
    decreases segs.len(),
{
    match n {
        NodeView::F { attr, data } => {
            if segs.len() == 0 {
                (
                    NodeView::F {
                        attr: FileAttr { size: (data + bytes).len() as u64, ..attr },
                        data: data + bytes,
                    },
                    Ok(()),
                )
            } else {
                (n, Err(FsError::NotFound))
            }
        },
        NodeView::D { attr, entries } => {
            if segs.len() == 0 {
                (n, Err(FsError::IsADirectory))
            } else {
                match ev_find_idx(entries, segs[0]) {
                    None => (n, Err(FsError::NotFound)),
                    Some(i) => {
                        let inner = spec_append(entries[i].1, segs.drop_first(), bytes);
                        if inner.1 is Ok {
                            (
                                NodeView::D {
                                    attr: attr,
                                    entries: entries.update(i, (entries[i].0, inner.0)),
                                },
                                inner.1,
                            )
                        } else {
                            (n, inner.1)
                        }
                    },
                }
            }
        },
    }
}

/// Creation of every missing directory along `segs`, the full path
/// included. Fresh directories carry `uid`/`gid` and timestamp `now`; a file
/// met along the way is an error, and the error leaves everything from the
/// file on unchanged.
pub open spec fn spec_mk_parents(
    n: NodeView,
    segs: Seq<Seq<u8>>,
    uid: u32,
    gid: u32,
    now: i64,
) -> (NodeView, Result<(), FsError>)
    decreases segs.len(),
{
    if segs.len() == 0 {
        (n, Ok(()))
    } else {
        match n {
            NodeView::F { .. } => (n, Err(FsError::NotADirectory)),
            NodeView::D { attr, entries } => {
                match ev_find_idx(entries, segs[0]) {
                    Some(i) => {
                        let inner = spec_mk_parents(entries[i].1, segs.drop_first(), uid, gid, now);
                        if inner.1 is Ok {
                            (
                                NodeView::D {
                                    attr: attr,
                                    entries: entries.update(i, (entries[i].0, inner.0)),
                                },
                                inner.1,
                            )
                        } else {
                            (n, inner.1)
                        }
                    },
                    None => {
                        let fresh = NodeView::D {
                            attr: spec_dir_attr(uid, gid, now),
                            entries: Seq::empty(),
                        };
                        let inner = spec_mk_parents(fresh, segs.drop_first(), uid, gid, now);
                        (
                            NodeView::D {
                                attr: spec_bump_nlink(attr),
                                entries: entries.push((segs[0], inner.0)),
                            },
                            inner.1,
                        )
                    },
                }
            },
        }
    }
}

/// Creating the missing directories below a fresh, empty directory always
/// succeeds.
pub proof fn lemma_mk_parents_fresh(segs: Seq<Seq<u8>>, uid: u32, gid: u32, now: i64)
    ensures
        spec_mk_parents(
            NodeView::D { attr: spec_dir_attr(uid, gid, now), entries: Seq::empty() },
            segs,
            uid,
            gid,
            now,
        ).1 is Ok,
    decreases segs.len(),
{
    if segs.len() > 0 {
        lemma_mk_parents_fresh(segs.drop_first(), uid, gid, now);
    }
}

/// When creating the missing directories fails, nothing has changed.
pub proof fn lemma_mk_parents_err_unchanged(
    n: NodeView,
    segs: Seq<Seq<u8>>,
    uid: u32,
    gid: u32,
    now: i64,
)
    ensures
        spec_mk_parents(n, segs, uid, gid, now).1 is Err ==> spec_mk_parents(
            n,
            segs,
            uid,
            gid,
            now,
        ).0 == n,
    decreases segs.len(),
{
    if segs.len() > 0 {
        match n {
            NodeView::F { .. } => {},
            NodeView::D { attr, entries } => {
                match ev_find_idx(entries, segs[0]) {
                    Some(i) => {
                        lemma_mk_parents_err_unchanged(entries[i].1, segs.drop_first(), uid, gid, now);
                    },
                    None => {
                        lemma_mk_parents_fresh(segs.drop_first(), uid, gid, now);
                    },
                }
            },
        }
    }
}

/// Pushing an entry extends the entry-list model by the entry's model.
pub proof fn lemma_entries_view_push(s: Seq<FuseEntry>, e: FuseEntry)
    ensures
        entries_view(s.push(e)) =~= entries_view(s).push((e.name@, node_view(e.node))),
{
    lemma_entries_view(s);
    lemma_entries_view(s.push(e));
    assert forall|i: int| 0 <= i < s.len() + 1 implies entries_view(s.push(e))[i]
        == entries_view(s).push((e.name@, node_view(e.node)))[i] by {
        if i < s.len() {
            assert(s.push(e)[i] == s[i]);
        } else {
            assert(s.push(e)[i] == e);
        }
    }
}

/// Replacing an entry replaces its model element.
pub proof fn lemma_entries_view_update(s: Seq<FuseEntry>, t: Seq<FuseEntry>, j: int, e: FuseEntry)
    requires
        0 <= j < s.len(),
        t =~= s.update(j, e),
    ensures
        entries_view(t) =~= entries_view(s).update(j, (e.name@, node_view(e.node))),
{
    lemma_entries_view(s);
    lemma_entries_view(t);
}

/// The first matching index in a directory's entry vector, by the model.
fn find_entry(tree: &Vec<FuseEntry>, name: &[u8]) -> (r: Option<usize>)
    ensures
        match r {
            Some(j) => j < tree@.len() && ev_find_idx(entries_view(tree@), name@) == Some(j as int),
            None => ev_find_idx(entries_view(tree@), name@) is None,
        },
{
    proof {
        lemma_entries_view(tree@);
        lemma_ev_find_idx(entries_view(tree@), name@);
    }
    let mut j: usize = 0;
    while j < tree.len()
        invariant
            0 <= j <= tree@.len(),
            forall|k: int| 0 <= k < j ==> tree@[k].name@ != name@,
            entries_view(tree@).len() == tree@.len(),
            forall|i: int|
                0 <= i < tree@.len() ==> entries_view(tree@)[i] == (
                    tree@[i].name@,
                    node_view(tree@[i].node),
                ),
        decreases tree@.len() - j,
    {
        if crate::bytes::bytes_eq(tree[j].name.as_slice(), name) {
            proof {
                lemma_ev_find_idx(entries_view(tree@), name@);
                assert(entries_view(tree@)[j as int].0 == name@);
                match ev_find_idx(entries_view(tree@), name@) {
                    Some(idx) => {
                        if idx < j {
                            assert(entries_view(tree@)[idx].0 == name@);
                            assert(tree@[idx].name@ != name@);
                        } else if idx > j {
                            assert(entries_view(tree@)[j as int].0 != name@);
                        }
                    },
                    None => {
                        assert(entries_view(tree@)[j as int].0 != name@);
                    },
                }
            }
            return Some(j);
        }
        j += 1;
    }
    proof {
        lemma_ev_find_idx(entries_view(tree@), name@);
    }
    None
}

/// Insertion of an owned node below an owned subtree, from component `i`
/// on. The result is exactly the model-level insertion.
fn node_insert(n: Node, segs: &Vec<Vec<u8>>, i: usize, new: Node) -> (r: (Node, Result<
    (),
    FsError,
>))
    requires
        i <= segs@.len(),
    ensures
        r.0@ == spec_insert(n@, crate::path::segs_view(segs@).skip(i as int), new@).0,
        r.1 == spec_insert(n@, crate::path::segs_view(segs@).skip(i as int), new@).1,
    decreases segs@.len() - i,
{
    let ghost rest = crate::path::segs_view(segs@).skip(i as int);
    match n {
        Node::F(f) => (Node::F(f), Err(FsError::NotADirectory)),
        Node::D(mut d) => {
            if i == segs.len() {
                return (Node::D(d), Err(FsError::AlreadyExists));
            }
            proof {
                assert(rest.len() == segs@.len() - i);
                assert(rest[0] == segs@[i as int]@);
            }
            let j_opt = find_entry(&d.tree, segs[i].as_slice());
            if i + 1 == segs.len() {
                match j_opt {
                    Some(_) => (Node::D(d), Err(FsError::AlreadyExists)),
                    None => {
                        let is_dir = matches!(new, Node::D(_));
                        let name = crate::bytes::bytes_to_vec(segs[i].as_slice());
                        let ghost old_tree = d.tree@;
                        let ghost old_attr = d.attr;
                        let e = FuseEntry { name: name, node: new };
                        let ghost ev = (e.name@, node_view(e.node));
                        d.tree.push(e);
                        if is_dir {
                            if d.attr.nlink < u32::MAX {
                                d.attr.nlink = d.attr.nlink + 1;
                            }
                        }
                        proof {
                            lemma_entries_view_push(old_tree, e);
                            assert(node_view(Node::D(d)) =~= spec_insert(
                                NodeView::D { attr: old_attr, entries: entries_view(old_tree) },
                                rest,
                                new@,
                            ).0);
                        }
                        (Node::D(d), Ok(()))
                    },
                }
            } else {
                match j_opt {
                    None => (Node::D(d), Err(FsError::NotFound)),
                    Some(j) => {
                        let ghost old_tree = d.tree@;
                        let ghost old_attr = d.attr;
                        proof {
                            lemma_ev_find_idx(entries_view(old_tree), rest[0]);
                            lemma_entries_view(old_tree);
                        }
                        let e = d.tree.remove(j);
                        let inner = node_insert(e.node, segs, i + 1, new);
                        let res = inner.1;
                        let e2 = FuseEntry { name: e.name, node: inner.0 };
                        d.tree.insert(j, e2);
                        proof {
                            old_tree.remove_ensures(j as int);
                            old_tree.remove(j as int).insert_ensures(j as int, e2);
                            assert(d.tree@ =~= old_tree.update(j as int, e2));
                            lemma_entries_view_update(old_tree, d.tree@, j as int, e2);
                            assert(rest.drop_first() =~= crate::path::segs_view(segs@).skip(
                                i + 1,
                            ));
                            let spec_r = spec_insert(
                                NodeView::D { attr: old_attr, entries: entries_view(old_tree) },
                                rest,
                                new@,
                            );
                            if res is Ok {
                                assert(node_view(Node::D(d)) =~= spec_r.0);
                            } else {
                                assert(entries_view(d.tree@) =~= entries_view(old_tree));
                                assert(node_view(Node::D(d)) =~= spec_r.0);
                            }
                        }
                        (Node::D(d), res)
                    },
                }
            }
        },
    }
}

/// Appending below an owned subtree, from component `i` on. The result is
/// exactly the model-level append.
fn node_append(n: Node, segs: &Vec<Vec<u8>>, i: usize, bytes: &[u8]) -> (r: (Node, Result<
    (),
    FsError,
>))
    requires
        i <= segs@.len(),
    ensures
        r.0@ == spec_append(n@, crate::path::segs_view(segs@).skip(i as int), bytes@).0,
        r.1 == spec_append(n@, crate::path::segs_view(segs@).skip(i as int), bytes@).1,
    decreases segs@.len() - i,
{
    let ghost rest = crate::path::segs_view(segs@).skip(i as int);
    match n {
        Node::F(mut f) => {
            if i == segs.len() {
                let ghost oldf = f;
                f.insert_data(bytes);
                proof {
                    assert(node_view(Node::F(f)) =~= spec_append(
                        node_view(Node::F(oldf)),
                        rest,
                        bytes@,
                    ).0);
                }
                (Node::F(f), Ok(()))
            } else {
                (Node::F(f), Err(FsError::NotFound))
            }
        },
        Node::D(mut d) => {
            if i == segs.len() {
                return (Node::D(d), Err(FsError::IsADirectory));
            }
            proof {
                assert(rest[0] == segs@[i as int]@);
            }
            match find_entry(&d.tree, segs[i].as_slice()) {
                None => (Node::D(d), Err(FsError::NotFound)),
                Some(j) => {
                    let ghost old_tree = d.tree@;
                    let ghost old_attr = d.attr;
                    proof {
                        lemma_ev_find_idx(entries_view(old_tree), rest[0]);
                        lemma_entries_view(old_tree);
                    }
                    let e = d.tree.remove(j);
                    let inner = node_append(e.node, segs, i + 1, bytes);
                    let res = inner.1;
                    let e2 = FuseEntry { name: e.name, node: inner.0 };
                    d.tree.insert(j, e2);
                    proof {
                        old_tree.remove_ensures(j as int);
                        old_tree.remove(j as int).insert_ensures(j as int, e2);
                        assert(d.tree@ =~= old_tree.update(j as int, e2));
                        lemma_entries_view_update(old_tree, d.tree@, j as int, e2);
                        assert(rest.drop_first() =~= crate::path::segs_view(segs@).skip(i + 1));
                        let spec_r = spec_append(
                            NodeView::D { attr: old_attr, entries: entries_view(old_tree) },
                            rest,
                            bytes@,
                        );
                        if res is Ok {
                            assert(node_view(Node::D(d)) =~= spec_r.0);
                        } else {
                            assert(entries_view(d.tree@) =~= entries_view(old_tree));
                            assert(node_view(Node::D(d)) =~= spec_r.0);
                        }
                    }
                    (Node::D(d), res)
                },
            }
        },
    }
}

/// Creation of the missing directories along `segs`, from component `i` on,
/// below an owned subtree. The result is exactly the model-level creation.
fn node_mk_parents(n: Node, segs: &Vec<Vec<u8>>, i: usize, uid: u32, gid: u32, now: i64) -> (r: (
    Node,
    Result<(), FsError>,
))
    requires
        i <= segs@.len(),
    ensures
        r.0@ == spec_mk_parents(n@, crate::path::segs_view(segs@).skip(i as int), uid, gid, now).0,
        r.1 == spec_mk_parents(n@, crate::path::segs_view(segs@).skip(i as int), uid, gid, now).1,
    decreases segs@.len() - i,
{
    let ghost rest = crate::path::segs_view(segs@).skip(i as int);
    if i == segs.len() {
        return (n, Ok(()));
    }
    proof {
        assert(rest[0] == segs@[i as int]@);
    }
    match n {
        Node::F(f) => (Node::F(f), Err(FsError::NotADirectory)),
        Node::D(mut d) => {
            match find_entry(&d.tree, segs[i].as_slice()) {
                Some(j) => {
                    let ghost old_tree = d.tree@;
                    let ghost old_attr = d.attr;
                    proof {
                        lemma_ev_find_idx(entries_view(old_tree), rest[0]);
                        lemma_entries_view(old_tree);
                    }
                    let e = d.tree.remove(j);
                    let inner = node_mk_parents(e.node, segs, i + 1, uid, gid, now);
                    let res = inner.1;
                    let e2 = FuseEntry { name: e.name, node: inner.0 };
                    d.tree.insert(j, e2);
                    proof {
                        old_tree.remove_ensures(j as int);
                        old_tree.remove(j as int).insert_ensures(j as int, e2);
                        assert(d.tree@ =~= old_tree.update(j as int, e2));
                        lemma_entries_view_update(old_tree, d.tree@, j as int, e2);
                        assert(rest.drop_first() =~= crate::path::segs_view(segs@).skip(i + 1));
                        let spec_r = spec_mk_parents(
                            NodeView::D { attr: old_attr, entries: entries_view(old_tree) },
                            rest,
                            uid,
                            gid,
                            now,
                        );
                        if res is Ok {
                            assert(node_view(Node::D(d)) =~= spec_r.0);
                        } else {
                            lemma_mk_parents_err_unchanged(
                                entries_view(old_tree)[j as int].1,
                                rest.drop_first(),
                                uid,
                                gid,
                                now,
                            );
                            assert(entries_view(d.tree@) =~= entries_view(old_tree));
                            assert(node_view(Node::D(d)) =~= spec_r.0);
                        }
                    }
                    (Node::D(d), res)
                },
                None => {
                    let fresh = Node::D(FuseDir::new(uid, gid, now));
                    let inner = node_mk_parents(fresh, segs, i + 1, uid, gid, now);
                    let name = crate::bytes::bytes_to_vec(segs[i].as_slice());
                    let ghost old_tree = d.tree@;
                    let ghost old_attr = d.attr;
                    let e = FuseEntry { name: name, node: inner.0 };
                    d.tree.push(e);
                    if d.attr.nlink < u32::MAX {
                        d.attr.nlink = d.attr.nlink + 1;
                    }
                    proof {
                        lemma_entries_view_push(old_tree, e);
                        assert(rest.drop_first() =~= crate::path::segs_view(segs@).skip(i + 1));
                        assert(node_view(Node::D(d)) =~= spec_mk_parents(
                            NodeView::D { attr: old_attr, entries: entries_view(old_tree) },
                            rest,
                            uid,
                            gid,
                            now,
                        ).0);
                    }
                    (Node::D(d), inner.1)
                },
            }
        },
    }
}

/// A name found among entries is found at the same place after a push.
pub proof fn lemma_ev_find_push(entries: Seq<(Seq<u8>, NodeView)>, e: (Seq<u8>, NodeView), name: Seq<u8>)
    requires
        ev_find_idx(entries, name) is Some,
    ensures
        ev_find_idx(entries.push(e), name) == ev_find_idx(entries, name),
        ev_find(entries.push(e), name) == ev_find(entries, name),
    decreases entries.len(),
{
    if entries.len() > 0 {
        if entries[0].0 == name {
            assert(entries.push(e)[0] == entries[0]);
        } else {
            lemma_ev_find_push(entries.drop_first(), e, name);
            assert(entries.push(e).drop_first() =~= entries.drop_first().push(e));
        }
    }
    lemma_ev_find_idx(entries, name);
    lemma_ev_find_idx(entries.push(e), name);
}

/// A name absent from entries is found in a push exactly when it is the
/// pushed name, at the last place.
pub proof fn lemma_ev_find_push_absent(
    entries: Seq<(Seq<u8>, NodeView)>,
    e: (Seq<u8>, NodeView),
    name: Seq<u8>,
)
    requires
        ev_find_idx(entries, name) is None,
    ensures
        name == e.0 ==> ev_find_idx(entries.push(e), name) == Some(entries.len() as int)
            && ev_find(entries.push(e), name) == Some(e.1),
        name != e.0 ==> ev_find_idx(entries.push(e), name) is None,
    decreases entries.len(),
{
    if entries.len() > 0 {
        lemma_ev_find_idx(entries, name);
        assert(entries[0].0 != name);
        assert(entries.push(e)[0] == entries[0]);
        assert(ev_find_idx(entries.drop_first(), name) is None) by {
            lemma_ev_find_idx(entries.drop_first(), name);
            match ev_find_idx(entries.drop_first(), name) {
                Some(i) => {
                    assert(entries.drop_first()[i] == entries[i + 1]);
                },
                None => {},
            }
        }
        lemma_ev_find_push_absent(entries.drop_first(), e, name);
        assert(entries.push(e).drop_first() =~= entries.drop_first().push(e));
    } else {
        assert(entries.push(e)[0] == e);
        assert(entries.push(e).drop_first() =~= Seq::<(Seq<u8>, NodeView)>::empty());
        if name != e.0 {
            assert(ev_find_idx(entries.push(e), name) == (match ev_find_idx(
                entries.push(e).drop_first(),
                name,
            ) {
                None => None::<int>,
                Some(i) => Some(i + 1),
            }));
        }
    }
}

/// Finding a name looks only at names: updating an entry without renaming it
/// moves the found index nowhere.
pub proof fn lemma_ev_find_update(
    entries: Seq<(Seq<u8>, NodeView)>,
    i: int,
    v: NodeView,
    name: Seq<u8>,
)
    requires
        0 <= i < entries.len(),
    ensures
        ev_find_idx(entries.update(i, (entries[i].0, v)), name) == ev_find_idx(entries, name),
    decreases entries.len(),
{
    let updated = entries.update(i, (entries[i].0, v));
    if entries.len() > 0 {
        if i == 0 {
            if entries[0].0 != name {
                assert(updated.drop_first() =~= entries.drop_first());
            }
        } else {
            if entries[0].0 != name {
                assert(updated.drop_first() =~= entries.drop_first().update(
                    i - 1,
                    (entries.drop_first()[i - 1].0, v),
                ));
                lemma_ev_find_update(entries.drop_first(), i - 1, v, name);
            }
        }
    }
}

/// A successful insertion makes the new path resolve to the new node, and
/// lists it, under its terminal name and with its own kind, in its parent.
pub proof fn lemma_insert_lookup(n: NodeView, segs: Seq<Seq<u8>>, new: NodeView)
    requires
        spec_insert(n, segs, new).1 is Ok,
    ensures
        segs.len() >= 1,
        lookup_v(spec_insert(n, segs, new).0, segs) == Some(new),
        lookup_v(spec_insert(n, segs, new).0, segs.drop_last()) matches Some(NodeView::D {
            entries,
            ..
        }) && ev_find(entries, segs.last()) == Some(new),
    decreases segs.len(),
{
    let n2 = spec_insert(n, segs, new).0;
    match n {
        NodeView::F { .. } => {},
        NodeView::D { attr, entries } => {
            if segs.len() == 1 {
                lemma_ev_find_push_absent(entries, (segs[0], new), segs[0]);
                assert(segs.drop_last() =~= Seq::<Seq<u8>>::empty());
                assert(segs.drop_first() =~= Seq::<Seq<u8>>::empty());
                let pushed = entries.push((segs[0], new));
                assert(ev_find(pushed, segs[0]) == Some(new));
                assert(lookup_v(n2, segs) == lookup_v(new, segs.drop_first()));
                assert(lookup_v(new, segs.drop_first()) == Some(new));
                assert(lookup_v(n2, segs.drop_last()) == Some(n2));
                assert(segs.last() == segs[0]);
            } else {
                let i = ev_find_idx(entries, segs[0]).unwrap();
                lemma_ev_find_idx(entries, segs[0]);
                let inner = spec_insert(entries[i].1, segs.drop_first(), new);
                lemma_insert_lookup(entries[i].1, segs.drop_first(), new);
                lemma_ev_find_update(entries, i, inner.0, segs[0]);
                let updated = entries.update(i, (entries[i].0, inner.0));
                assert(ev_find(updated, segs[0]) == Some(inner.0));
                assert(lookup_v(n2, segs) == lookup_v(inner.0, segs.drop_first()));
                assert(segs.drop_last().len() >= 1);
                assert(segs.drop_last()[0] == segs[0]);
                assert(segs.drop_last().drop_first() =~= segs.drop_first().drop_last());
                assert(segs.drop_first().last() == segs.last());
                assert(lookup_v(n2, segs.drop_last()) == lookup_v(
                    inner.0,
                    segs.drop_first().drop_last(),
                ));
            }
        },
    }
}

/// A successful insertion keeps every resolvable path resolvable, with its
/// kind; a path that is no prefix of the insertion path resolves to the very
/// same node as before.
pub proof fn lemma_insert_preserves(n: NodeView, segs: Seq<Seq<u8>>, new: NodeView, q: Seq<Seq<u8>>)
    requires
        spec_insert(n, segs, new).1 is Ok,
        lookup_v(n, q) is Some,
    ensures
        lookup_v(spec_insert(n, segs, new).0, q) is Some,
        lookup_v(spec_insert(n, segs, new).0, q).unwrap().kind() == lookup_v(n, q).unwrap().kind(),
        !(q.len() <= segs.len() && q =~= segs.take(q.len() as int)) ==> lookup_v(
            spec_insert(n, segs, new).0,
            q,
        ) == lookup_v(n, q),
    decreases segs.len(),
{
    let n2 = spec_insert(n, segs, new).0;
    match n {
        NodeView::F { .. } => {},
        NodeView::D { attr, entries } => {
            if q.len() == 0 {
            } else if segs.len() == 1 {
                let updated = entries.push((segs[0], new));
                lemma_ev_find_idx(entries, q[0]);
                let qi = ev_find_idx(entries, q[0]).unwrap();
                lemma_ev_find_push(entries, (segs[0], new), q[0]);
                assert(lookup_v(n2, q) == lookup_v(entries[qi].1, q.drop_first()));
                assert(q[0] != segs[0]) by {
                    lemma_ev_find_idx(entries, segs[0]);
                }
                assert(!(q.len() <= segs.len() && q =~= segs.take(q.len() as int)));
            } else {
                let i = ev_find_idx(entries, segs[0]).unwrap();
                lemma_ev_find_idx(entries, segs[0]);
                let inner = spec_insert(entries[i].1, segs.drop_first(), new);
                let updated = entries.update(i, (entries[i].0, inner.0));
                lemma_ev_find_update(entries, i, inner.0, q[0]);
                lemma_ev_find_idx(entries, q[0]);
                let qi = ev_find_idx(entries, q[0]).unwrap();
                if q[0] == segs[0] {
                    assert(qi == i);
                    assert(ev_find(updated, q[0]) == Some(inner.0));
                    lemma_insert_preserves(entries[i].1, segs.drop_first(), new, q.drop_first());
                    if !(q.len() <= segs.len() && q =~= segs.take(q.len() as int)) {
                        assert(!(q.drop_first().len() <= segs.drop_first().len()
                            && q.drop_first() =~= segs.drop_first().take(
                            q.drop_first().len() as int,
                        ))) by {
                            if q.drop_first().len() <= segs.drop_first().len() && q.drop_first()
                                =~= segs.drop_first().take(q.drop_first().len() as int) {
                                assert(q =~= segs.take(q.len() as int)) by {
                                    assert forall|k: int| 0 <= k < q.len() implies q[k]
                                        == segs.take(q.len() as int)[k] by {
                                        if k > 0 {
                                            assert(q.drop_first()[k - 1] == segs.drop_first().take(
                                                q.drop_first().len() as int,
                                            )[k - 1]);
                                        }
                                    }
                                }
                            }
                        }
                    }
                } else {
                    assert(qi != i);
                    assert(updated[qi] == entries[qi]);
                    assert(ev_find(updated, q[0]) == Some(entries[qi].1));
                    assert(lookup_v(n2, q) == lookup_v(entries[qi].1, q.drop_first()));
                }
            }
        },
    }
}

/// A successful append grows exactly the addressed file: its buffer becomes
/// the old buffer followed by the new bytes, its size attribute the new
/// length; an append succeeds exactly on paths naming a file.
pub proof fn lemma_append_lookup(n: NodeView, segs: Seq<Seq<u8>>, bytes: Seq<u8>)
    ensures
        spec_append(n, segs, bytes).1 is Ok <==> (lookup_v(n, segs) matches Some(
            NodeView::F { .. },
        )),
        lookup_v(n, segs) matches Some(NodeView::F { attr, data }) ==> lookup_v(
            spec_append(n, segs, bytes).0,
            segs,
        ) == Some(
            NodeView::F {
                attr: FileAttr { size: (data + bytes).len() as u64, ..attr },
                data: data + bytes,
            },
        ),
    decreases segs.len(),
{
    match n {
        NodeView::F { attr, data } => {},
        NodeView::D { attr, entries } => {
            if segs.len() > 0 {
                match ev_find_idx(entries, segs[0]) {
                    None => {},
                    Some(i) => {
                        lemma_ev_find_idx(entries, segs[0]);
                        lemma_append_lookup(entries[i].1, segs.drop_first(), bytes);
                        let inner = spec_append(entries[i].1, segs.drop_first(), bytes);
                        if inner.1 is Ok {
                            lemma_ev_find_update(entries, i, inner.0, segs[0]);
                        }
                    },
                }
            }
        },
    }
}

/// The tree after a whole sequence of appends to one file, first to last.
pub open spec fn spec_append_all(n: NodeView, segs: Seq<Seq<u8>>, chunks: Seq<Seq<u8>>) -> NodeView
    decreases chunks.len(),
{
    if chunks.len() == 0 {
        n
    } else {
        spec_append_all(spec_append(n, segs, chunks[0]).0, segs, chunks.drop_first())
    }
}

/// One sequence of byte strings, concatenated in order.
pub open spec fn concat_all(chunks: Seq<Seq<u8>>) -> Seq<u8>
    decreases chunks.len(),
{
    if chunks.len() == 0 {
        Seq::<u8>::empty()
    } else {
        chunks[0] + concat_all(chunks.drop_first())
    }
}

/// After any sequence of appends to a file, its buffer is the old buffer
/// followed by the appended byte strings in order, and its size attribute is
/// exactly that length — the sum of the old length and the appended counts.
pub proof fn lemma_append_all(n: NodeView, segs: Seq<Seq<u8>>, chunks: Seq<Seq<u8>>)
    requires
        lookup_v(n, segs) matches Some(NodeView::F { attr, data }) && attr.size == data.len(),
        lookup_v(n, segs).unwrap()->F_data.len() + concat_all(chunks).len() <= u64::MAX,
    ensures
        lookup_v(spec_append_all(n, segs, chunks), segs) matches Some(NodeView::F { attr, data })
            && {
            let d0 = lookup_v(n, segs).unwrap()->F_data;
            &&& data =~= d0 + concat_all(chunks)
            &&& attr.size == data.len()
            &&& attr == (FileAttr { size: attr.size, ..lookup_v(n, segs).unwrap()->F_attr })
        },
    decreases chunks.len(),
{
    let d0 = lookup_v(n, segs).unwrap()->F_data;
    let a0 = lookup_v(n, segs).unwrap()->F_attr;
    if chunks.len() == 0 {
        assert(d0 + concat_all(chunks) =~= d0);
        assert(a0 == (FileAttr { size: a0.size, ..a0 }));
    } else {
        lemma_append_lookup(n, segs, chunks[0]);
        let n1 = spec_append(n, segs, chunks[0]).0;
        assert(lookup_v(n1, segs) == Some(
            NodeView::F {
                attr: FileAttr { size: (d0 + chunks[0]).len() as u64, ..a0 },
                data: d0 + chunks[0],
            },
        ));
        assert(concat_all(chunks) == chunks[0] + concat_all(chunks.drop_first()));
        assert((d0 + chunks[0]).len() <= u64::MAX);
        lemma_append_all(n1, segs, chunks.drop_first());
        assert((d0 + chunks[0]) + concat_all(chunks.drop_first()) =~= d0 + (chunks[0] + concat_all(
            chunks.drop_first(),
        )));
    }
}

/// When creating the missing directories fails, the outcome does not depend
/// on the creation timestamp.
pub proof fn lemma_mk_parents_err_time(
    n: NodeView,
    segs: Seq<Seq<u8>>,
    uid: u32,
    gid: u32,
    now: i64,
    now2: i64,
)
    ensures
        spec_mk_parents(n, segs, uid, gid, now).1 is Err ==> spec_mk_parents(
            n,
            segs,
            uid,
            gid,
            now2,
        ).1 == spec_mk_parents(n, segs, uid, gid, now).1,
    decreases segs.len(),
{
    if segs.len() > 0 {
        match n {
            NodeView::F { .. } => {},
            NodeView::D { attr, entries } => {
                match ev_find_idx(entries, segs[0]) {
                    Some(i) => {
                        lemma_mk_parents_err_time(entries[i].1, segs.drop_first(), uid, gid, now, now2);
                        lemma_mk_parents_err_time(entries[i].1, segs.drop_first(), uid, gid, now2, now);
                    },
                    None => {
                        lemma_mk_parents_fresh(segs.drop_first(), uid, gid, now);
                    },
                }
            },
        }
    }
}

/// Creating the missing directories along a path is idempotent: a second
/// call, at any later timestamp, changes nothing and reports the same
/// outcome.
pub proof fn lemma_mk_parents_idempotent(
    n: NodeView,
    segs: Seq<Seq<u8>>,
    uid: u32,
    gid: u32,
    now: i64,
    now2: i64,
)
    ensures
        spec_mk_parents(spec_mk_parents(n, segs, uid, gid, now).0, segs, uid, gid, now2).0
            == spec_mk_parents(n, segs, uid, gid, now).0,
        spec_mk_parents(spec_mk_parents(n, segs, uid, gid, now).0, segs, uid, gid, now2).1
            == spec_mk_parents(n, segs, uid, gid, now).1,
    decreases segs.len(),
{
    let first = spec_mk_parents(n, segs, uid, gid, now);
    let second = spec_mk_parents(first.0, segs, uid, gid, now2);
    if segs.len() == 0 {
    } else {
        match n {
            NodeView::F { .. } => {},
            NodeView::D { attr, entries } => {
                match ev_find_idx(entries, segs[0]) {
                    Some(i) => {
                        lemma_ev_find_idx(entries, segs[0]);
                        let inner = spec_mk_parents(entries[i].1, segs.drop_first(), uid, gid, now);
                        lemma_mk_parents_idempotent(
                            entries[i].1,
                            segs.drop_first(),
                            uid,
                            gid,
                            now,
                            now2,
                        );
                        if inner.1 is Ok {
                            let updated = entries.update(i, (entries[i].0, inner.0));
                            lemma_ev_find_update(entries, i, inner.0, segs[0]);
                            assert(ev_find_idx(updated, segs[0]) == Some(i));
                            let inner2 = spec_mk_parents(
                                updated[i].1,
                                segs.drop_first(),
                                uid,
                                gid,
                                now2,
                            );
                            assert(updated[i].1 == inner.0);
                            assert(inner2.0 == inner.0 && inner2.1 is Ok);
                            assert(updated.update(i, (updated[i].0, inner2.0)) =~= updated);
                            assert(second.0 == first.0);
                        } else {
                            lemma_mk_parents_err_unchanged(n, segs, uid, gid, now);
                            lemma_mk_parents_err_time(n, segs, uid, gid, now, now2);
                            lemma_mk_parents_err_unchanged(n, segs, uid, gid, now2);
                        }
                    },
                    None => {
                        let fresh = NodeView::D {
                            attr: spec_dir_attr(uid, gid, now),
                            entries: Seq::empty(),
                        };
                        lemma_mk_parents_fresh(segs.drop_first(), uid, gid, now);
                        let inner = spec_mk_parents(fresh, segs.drop_first(), uid, gid, now);
                        let pushed = entries.push((segs[0], inner.0));
                        lemma_ev_find_push_absent(entries, (segs[0], inner.0), segs[0]);
                        assert(ev_find_idx(pushed, segs[0]) == Some(entries.len() as int));
                        lemma_mk_parents_idempotent(fresh, segs.drop_first(), uid, gid, now, now2);
                        let inner2 = spec_mk_parents(inner.0, segs.drop_first(), uid, gid, now2);
                        assert(inner2.0 == inner.0 && inner2.1 is Ok);
                        let i2 = entries.len() as int;
                        assert(pushed[i2].1 == inner.0);
                        assert(pushed.update(i2, (pushed[i2].0, inner2.0)) =~= pushed);
                        assert(second.0 == first.0);
                    },
                }
            },
        }
    }
}

/// The tree after a file of permission `perm` is created at a raw path,
/// the owner being the tree's root owner; an error changes nothing.
pub open spec fn view_mk_file(v: NodeView, path: Seq<u8>, now: i64, perm: u16) -> NodeView {
    match crate::path::spec_parse_path(path) {
        None => v,
        Some(segs) => spec_insert(
            v,
            segs,
            NodeView::F {
                attr: spec_file_attr(v.attr().uid, v.attr().gid, now, perm),
                data: Seq::empty(),
            },
        ).0,
    }
}

/// The tree after the missing directories along a raw path are created; an
/// error leaves what stood before the failing step.
pub open spec fn view_mk_parents(v: NodeView, path: Seq<u8>, now: i64) -> NodeView {
    match crate::path::spec_parse_path(path) {
        None => v,
        Some(segs) => spec_mk_parents(v, segs, v.attr().uid, v.attr().gid, now).0,
    }
}

/// The tree after bytes are appended to the file at a raw path; an error
/// changes nothing.
pub open spec fn view_append(v: NodeView, path: Seq<u8>, bytes: Seq<u8>) -> NodeView {
    match crate::path::spec_parse_path(path) {
        None => v,
        Some(segs) => spec_append(v, segs, bytes).0,
    }
}

/// One listed child: its name and kind.
#[derive(Debug, PartialEq, Eq)]
pub struct DirectoryEntry {
    pub name: Vec<u8>,
    pub kind: FileKind,
}

/// The tree store: a root directory addressed by absolute byte paths.
pub struct Filesystem {
    pub root: Node,
}

impl View for Filesystem {
    type V = NodeView;

    open spec fn view(&self) -> NodeView {
        node_view(self.root)
    }
}

impl Filesystem {
    /// A store holding one empty root directory owned by the mounting
    /// user's ids.
    pub fn new(uid: u32, gid: u32, now: i64) -> (fs: Filesystem)
        ensures
            fs@ == (NodeView::D { attr: spec_dir_attr(uid, gid, now), entries: Seq::empty() }),
    {
        Filesystem { root: Node::D(FuseDir::new(uid, gid, now)) }
    }

    /// What a raw path resolves to: nothing for a non-absolute path, else
    /// the node at its components.
    pub open spec fn spec_get(self, path: Seq<u8>) -> Option<NodeView> {
        match crate::path::spec_parse_path(path) {
            None => None,
            Some(segs) => lookup_v(self@, segs),
        }
    }

    /// Resolve a raw path to the node it names.
    pub fn get(&self, path: &[u8]) -> (r: Option<&Node>)
        ensures
            match r {
                Some(n) => self.spec_get(path@) == Some(n@),
                None => self.spec_get(path@) is None,
            },
    {
        let segs = match crate::path::parse_path(path) {
            Some(s) => s,
            None => {
                return None;
            },
        };
        let ghost sv = crate::path::segs_view(segs@);
        let mut cur: &Node = &self.root;
        let mut i: usize = 0;
        proof {
            assert(sv.skip(0) =~= sv);
        }
        while i < segs.len()
            invariant
                0 <= i <= segs@.len(),
                sv == crate::path::segs_view(segs@),
                crate::path::spec_parse_path(path@) == Some(sv),
                lookup_v(self@, sv) == lookup_v(cur@, sv.skip(i as int)),
            decreases segs@.len() - i,
        {
            let ghost rest = sv.skip(i as int);
            proof {
                assert(rest[0] == segs@[i as int]@);
            }
            match cur {
                Node::F(_) => {
                    proof {
                        assert(cur@ is F);
                        assert(lookup_v(cur@, rest) is None);
                    }
                    return None;
                },
                Node::D(d) => {
                    proof {
                        lemma_entries_view(d.tree@);
                        assert(cur@ == (NodeView::D {
                            attr: d.attr,
                            entries: entries_view(d.tree@),
                        }));
                    }
                    match find_entry(&d.tree, segs[i].as_slice()) {
                        None => {
                            proof {
                                assert(ev_find(entries_view(d.tree@), rest[0]) is None);
                                assert(lookup_v(cur@, rest) is None);
                            }
                            return None;
                        },
                        Some(j) => {
                            proof {
                                assert(ev_find(entries_view(d.tree@), rest[0]) == Some(
                                    node_view(d.tree@[j as int].node),
                                ));
                                assert(rest.drop_first() =~= sv.skip(i + 1));
                            }
                            cur = &d.tree[j].node;
                        },
                    }
                },
            }
            i += 1;
        }
        proof {
            assert(sv.skip(i as int) =~= Seq::<Seq<u8>>::empty());
        }
        Some(cur)
    }

    /// The model of creating a directory at a raw path, with the root
    /// owner's ids.
    pub open spec fn spec_mk_dir(self, path: Seq<u8>, now: i64) -> (NodeView, Result<
        (),
        FsError,
    >) {
        match crate::path::spec_parse_path(path) {
            None => (self@, Err(FsError::NotFound)),
            Some(segs) => spec_insert(
                self@,
                segs,
                NodeView::D {
                    attr: spec_dir_attr(self@.attr().uid, self@.attr().gid, now),
                    entries: Seq::empty(),
                },
            ),
        }
    }

    /// Create a directory at `path`; every ancestor must already exist.
    pub fn mk_dir(&mut self, path: &[u8], now: i64) -> (r: Result<(), FsError>)
        ensures
            final(self)@ == old(self).spec_mk_dir(path@, now).0,
            r == old(self).spec_mk_dir(path@, now).1,
    {
        let segs = match crate::path::parse_path(path) {
            Some(s) => s,
            None => {
                return Err(FsError::NotFound);
            },
        };
        let uid = self.root.attr().uid;
        let gid = self.root.attr().gid;
        let node = Node::D(FuseDir::new(uid, gid, now));
        let mut tmp = Node::F(FuseFile::new_ro(0, 0, 0));
        core::mem::swap(&mut self.root, &mut tmp);
        let out = node_insert(tmp, &segs, 0, node);
        self.root = out.0;
        proof {
            assert(crate::path::segs_view(segs@).skip(0) =~= crate::path::segs_view(segs@));
        }
        out.1
    }

    /// The model of creating a read-only file at a raw path.
    pub open spec fn spec_mk_ro_file(self, path: Seq<u8>, now: i64) -> (NodeView, Result<
        (),
        FsError,
    >) {
        match crate::path::spec_parse_path(path) {
            None => (self@, Err(FsError::NotFound)),
            Some(segs) => spec_insert(
                self@,
                segs,
                NodeView::F {
                    attr: spec_file_attr(self@.attr().uid, self@.attr().gid, now, 0o400),
                    data: Seq::empty(),
                },
            ),
        }
    }

    /// Create a read-only file at `path`; every ancestor must already exist.
    pub fn mk_ro_file(&mut self, path: &[u8], now: i64) -> (r: Result<(), FsError>)
        ensures
            final(self)@ == old(self).spec_mk_ro_file(path@, now).0,
            r == old(self).spec_mk_ro_file(path@, now).1,
    {
        let segs = match crate::path::parse_path(path) {
            Some(s) => s,
            None => {
                return Err(FsError::NotFound);
            },
        };
        let uid = self.root.attr().uid;
        let gid = self.root.attr().gid;
        let node = Node::F(FuseFile::new_ro(uid, gid, now));
        let mut tmp = Node::F(FuseFile::new_ro(0, 0, 0));
        core::mem::swap(&mut self.root, &mut tmp);
        let out = node_insert(tmp, &segs, 0, node);
        self.root = out.0;
        proof {
            assert(crate::path::segs_view(segs@).skip(0) =~= crate::path::segs_view(segs@));
        }
        out.1
    }

    /// The model of creating a writable file at a raw path.
    pub open spec fn spec_mk_rw_file(self, path: Seq<u8>, now: i64) -> (NodeView, Result<
        (),
        FsError,
    >) {
        match crate::path::spec_parse_path(path) {
            None => (self@, Err(FsError::NotFound)),
            Some(segs) => spec_insert(
                self@,
                segs,
                NodeView::F {
                    attr: spec_file_attr(self@.attr().uid, self@.attr().gid, now, 0o600),
                    data: Seq::empty(),
                },
            ),
        }
    }

    /// Create a writable file at `path`; every ancestor must already exist.
    pub fn mk_rw_file(&mut self, path: &[u8], now: i64) -> (r: Result<(), FsError>)
        ensures
            final(self)@ == old(self).spec_mk_rw_file(path@, now).0,
            r == old(self).spec_mk_rw_file(path@, now).1,
    {
        let segs = match crate::path::parse_path(path) {
            Some(s) => s,
            None => {
                return Err(FsError::NotFound);
            },
        };
        let uid = self.root.attr().uid;
        let gid = self.root.attr().gid;
        let node = Node::F(FuseFile::new_rw(uid, gid, now));
        let mut tmp = Node::F(FuseFile::new_ro(0, 0, 0));
        core::mem::swap(&mut self.root, &mut tmp);
        let out = node_insert(tmp, &segs, 0, node);
        self.root = out.0;
        proof {
            assert(crate::path::segs_view(segs@).skip(0) =~= crate::path::segs_view(segs@));
        }
        out.1
    }

    /// The model of appending to the file at a raw path.
    pub open spec fn spec_append(self, path: Seq<u8>, bytes: Seq<u8>) -> (NodeView, Result<
        (),
        FsError,
    >) {
        match crate::path::spec_parse_path(path) {
            None => (self@, Err(FsError::NotFound)),
            Some(segs) => spec_append(self@, segs, bytes),
        }
    }

    /// Append `bytes` to the file at `path`.
    pub fn append(&mut self, path: &[u8], bytes: &[u8]) -> (r: Result<(), FsError>)
        ensures
            final(self)@ == old(self).spec_append(path@, bytes@).0,
            r == old(self).spec_append(path@, bytes@).1,
    {
        let segs = match crate::path::parse_path(path) {
            Some(s) => s,
            None => {
                return Err(FsError::NotFound);
            },
        };
        let mut tmp = Node::F(FuseFile::new_ro(0, 0, 0));
        core::mem::swap(&mut self.root, &mut tmp);
        let out = node_append(tmp, &segs, 0, bytes);
        self.root = out.0;
        proof {
            assert(crate::path::segs_view(segs@).skip(0) =~= crate::path::segs_view(segs@));
        }
        out.1
    }

    /// The model of creating every missing directory along a raw path.
    pub open spec fn spec_mk_parents(self, path: Seq<u8>, now: i64) -> (NodeView, Result<
        (),
        FsError,
    >) {
        match crate::path::spec_parse_path(path) {
            None => (self@, Err(FsError::NotFound)),
            Some(segs) => spec_mk_parents(
                self@,
                segs,
                self@.attr().uid,
                self@.attr().gid,
                now,
            ),
        }
    }

    /// Create every missing directory along `path`, the full path included.
    pub fn mk_parents(&mut self, path: &[u8], now: i64) -> (r: Result<(), FsError>)
        ensures
            final(self)@ == old(self).spec_mk_parents(path@, now).0,
            r == old(self).spec_mk_parents(path@, now).1,
    {
        let segs = match crate::path::parse_path(path) {
            Some(s) => s,
            None => {
                return Err(FsError::NotFound);
            },
        };
        let uid = self.root.attr().uid;
        let gid = self.root.attr().gid;
        let mut tmp = Node::F(FuseFile::new_ro(0, 0, 0));
        core::mem::swap(&mut self.root, &mut tmp);
        let out = node_mk_parents(tmp, &segs, 0, uid, gid, now);
        self.root = out.0;
        proof {
            assert(crate::path::segs_view(segs@).skip(0) =~= crate::path::segs_view(segs@));
        }
        out.1
    }

    /// List the children of the directory at `path`, in insertion order:
    /// nothing when the path misses or names a file.
    pub fn dir_entries(&self, path: &[u8]) -> (r: Option<Vec<DirectoryEntry>>)
        ensures
            match r {
                Some(v) => {
                    &&& self.spec_get(path@) matches Some(NodeView::D { entries, .. })
                    &&& v@.len() == entries.len()
                    &&& forall|i: int|
                        0 <= i < entries.len() ==> v@[i].name@ == entries[i].0 && v@[i].kind
                            == entries[i].1.kind()
                },
                None => !(self.spec_get(path@) matches Some(NodeView::D { .. })),
            },
    {
        let node = match self.get(path) {
            Some(n) => n,
            None => {
                return None;
            },
        };
        match node {
            Node::F(_) => None,
            Node::D(d) => {
                proof {
                    lemma_entries_view(d.tree@);
                }
                let ghost entries = entries_view(d.tree@);
                let mut out: Vec<DirectoryEntry> = Vec::new();
                let mut i: usize = 0;
                while i < d.tree.len()
                    invariant
                        0 <= i <= d.tree@.len(),
                        entries == entries_view(d.tree@),
                        entries.len() == d.tree@.len(),
                        forall|k: int|
                            0 <= k < d.tree@.len() ==> entries[k] == (
                                d.tree@[k].name@,
                                node_view(d.tree@[k].node),
                            ),
                        out@.len() == i,
                        forall|k: int|
                            0 <= k < i ==> out@[k].name@ == entries[k].0 && out@[k].kind
                                == entries[k].1.kind(),
                    decreases d.tree@.len() - i,
                {
                    let kind = match &d.tree[i].node {
                        Node::D(_) => FileKind::Directory,
                        Node::F(_) => FileKind::RegularFile,
                    };
                    let name = crate::bytes::bytes_to_vec(d.tree[i].name.as_slice());
                    out.push(DirectoryEntry { name: name, kind: kind });
                    i += 1;
                }
                Some(out)
            },
        }
    }

    /// The attributes of the node at `path`, or not-found.
    pub fn attr(&self, path: &[u8]) -> (r: Result<FileAttr, FsError>)
        ensures
            match self.spec_get(path@) {
                Some(n) => r == Ok::<FileAttr, FsError>(n.attr()),
                None => r == Err::<FileAttr, FsError>(FsError::NotFound),
            },
    {
        match self.get(path) {
            Some(n) => Ok(*n.attr()),
            None => Err(FsError::NotFound),
        }
    }
}

} // verus!
