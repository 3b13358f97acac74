//! The bridge between the protocol session and the tree: inbound protocol
//! events become tree-mutation commands, and the commands are applied to the
//! store by a single mutator.
//!
//! Log lines are `HH:MM:SS sender: body\n` for messages, `HH:MM:SS sender
//! has joined\n` and `HH:MM:SS sender has left[ (reason)]\n` for membership
//! changes; the raw wire log line is `HH:MM:SS ` followed by the message as
//! the session library renders it.

use vstd::prelude::*;

use crate::clock::TimeOfDay;
use crate::errors::FsError;
use crate::names::{name_receive, name_send, spec_name_raw, spec_name_receive, spec_name_send};
use crate::tree::{Filesystem, NodeView};

verus! {

/// A tree-mutation command, delivered to the single mutator task.
#[derive(Debug)]
pub enum FsControl {
    /// Materialize the directory at this absolute path, with its `receive`
    /// and `send` files.
    CreateDir(Vec<u8>),
    /// Append bytes to the file at this absolute path.
    Message(Vec<u8>, Vec<u8>),
}

/// The mathematical view of a command.
pub enum FsControlView {
    CreateDir(Seq<u8>),
    Message(Seq<u8>, Seq<u8>),
}

impl View for FsControl {
    type V = FsControlView;

    open spec fn view(&self) -> FsControlView {
        match self {
            FsControl::CreateDir(p) => FsControlView::CreateDir(p@),
            FsControl::Message(p, d) => FsControlView::Message(p@, d@),
        }
    }
}

/// The views of a command list.
pub open spec fn ctrls_view(s: Seq<FsControl>) -> Seq<FsControlView> {
    s.map_values(|c: FsControl| c@)
}

/// An outbound protocol message, handed to the session for transmission.
#[derive(Debug)]
pub enum IrcAction {
    /// Join a channel, with its key when one was given.
    Join { channel: Vec<u8>, key: Option<Vec<u8>> },
    /// Leave a channel, with a reason when one was given.
    Part { channel: Vec<u8>, reason: Option<Vec<u8>> },
    /// Send a chat message to a channel or peer.
    Privmsg { target: Vec<u8>, body: Vec<u8> },
}

/// The mathematical view of an outbound message.
pub enum IrcActionView {
    Join { channel: Seq<u8>, key: Option<Seq<u8>> },
    Part { channel: Seq<u8>, reason: Option<Seq<u8>> },
    Privmsg { target: Seq<u8>, body: Seq<u8> },
}

/// The view of an optional byte string.
pub open spec fn opt_view(o: Option<Vec<u8>>) -> Option<Seq<u8>> {
    match o {
        None => None,
        Some(v) => Some(v@),
    }
}

impl View for IrcAction {
    type V = IrcActionView;

    open spec fn view(&self) -> IrcActionView {
        match self {
            IrcAction::Join { channel, key } => IrcActionView::Join {
                channel: channel@,
                key: opt_view(*key),
            },
            IrcAction::Part { channel, reason } => IrcActionView::Part {
                channel: channel@,
                reason: opt_view(*reason),
            },
            IrcAction::Privmsg { target, body } => IrcActionView::Privmsg {
                target: target@,
                body: body@,
            },
        }
    }
}

/// The views of an outbound-message list.
pub open spec fn acts_view(s: Seq<IrcAction>) -> Seq<IrcActionView> {
    s.map_values(|a: IrcAction| a@)
}

/// Push a command; the view list grows by the command's view.
pub fn push_control(v: &mut Vec<FsControl>, c: FsControl)
    ensures
        ctrls_view(final(v)@) == ctrls_view(old(v)@).push(c@),
{
    let ghost c0 = c;
    let ghost base = v@;
    v.push(c);
    proof {
        assert forall|i: int| 0 <= i < base.len() + 1 implies ctrls_view(v@)[i] == ctrls_view(
            base,
        ).push(c0@)[i] by {
            if i < base.len() {
                assert(v@[i] == base[i]);
            } else {
                assert(v@[i] == c0);
            }
        }
        assert(ctrls_view(v@) =~= ctrls_view(base).push(c0@));
    }
}

/// Push an outbound message; the view list grows by the message's view.
pub fn push_action(v: &mut Vec<IrcAction>, a: IrcAction)
    ensures
        acts_view(final(v)@) == acts_view(old(v)@).push(a@),
{
    let ghost a0 = a;
    let ghost base = v@;
    v.push(a);
    proof {
        assert forall|i: int| 0 <= i < base.len() + 1 implies acts_view(v@)[i] == acts_view(
            base,
        ).push(a0@)[i] by {
            if i < base.len() {
                assert(v@[i] == base[i]);
            } else {
                assert(v@[i] == a0);
            }
        }
        assert(acts_view(v@) =~= acts_view(base).push(a0@));
    }
}

/// An inbound protocol event, as the session library delivers it.
#[derive(Debug)]
pub struct IrcEvent {
    /// The whole message as the session library renders it for logging.
    pub raw: Vec<u8>,
    /// What the message means to the bridge.
    pub kind: EventKind,
}

/// The event kinds the bridge distinguishes. A missing sender stands for
/// the server or is filled with this client's nickname.
#[derive(Debug)]
pub enum EventKind {
    /// A chat message to a channel, or to this client directly.
    Privmsg { sender: Option<Vec<u8>>, target: Vec<u8>, text: Vec<u8> },
    /// Someone joined a channel.
    Join { sender: Option<Vec<u8>>, channel: Vec<u8> },
    /// Someone left a channel, with an optional reason.
    Part { sender: Option<Vec<u8>>, channel: Vec<u8>, reason: Option<Vec<u8>> },
    /// A keepalive, answered by the session library itself.
    Ping,
    /// Anything else.
    Other,
}

/// The two decimal digits of a value below 100.
pub open spec fn spec_two_digits(n: u8) -> Seq<u8> {
    seq![(48 + n / 10) as u8, (48 + n % 10) as u8]
}

/// A wall-clock time rendered `HH:MM:SS`.
pub open spec fn spec_hms(t: TimeOfDay) -> Seq<u8> {
    spec_two_digits(t.hour) + seq![58u8] + spec_two_digits(t.min) + seq![58u8] + spec_two_digits(
        t.sec,
    )
}

/// The absolute path of a top-level name: the root joined with it, unless
/// it is itself absolute.
pub open spec fn spec_root_join(name: Seq<u8>) -> Seq<u8> {
    if name.len() > 0 && name[0] == 47 {
        name
    } else {
        seq![47u8] + name
    }
}

/// The `receive` file beside or below an absolute path.
pub open spec fn spec_receive_under(dir: Seq<u8>) -> Seq<u8> {
    dir + seq![47u8] + spec_name_receive()
}

/// The `send` file below an absolute path.
pub open spec fn spec_send_under(dir: Seq<u8>) -> Seq<u8> {
    dir + seq![47u8] + spec_name_send()
}

/// The absolute path of the session-wide `receive` log.
pub open spec fn spec_path_receive() -> Seq<u8> {
    seq![47u8] + spec_name_receive()
}

/// The absolute path of the session-wide `send` input.
pub open spec fn spec_path_send() -> Seq<u8> {
    seq![47u8] + spec_name_send()
}

/// The absolute path of the raw wire log.
pub open spec fn spec_path_raw() -> Seq<u8> {
    seq![47u8] + spec_name_raw()
}

/// A raw log line: the timestamp, a space, and the rendered message.
pub open spec fn spec_raw_line(t: TimeOfDay, raw: Seq<u8>) -> Seq<u8> {
    spec_hms(t) + seq![32u8] + raw
}

/// A chat log line: `HH:MM:SS sender: body` and a newline.
pub open spec fn spec_chat_line(t: TimeOfDay, sender: Seq<u8>, body: Seq<u8>) -> Seq<u8> {
    spec_hms(t) + seq![32u8] + sender + seq![58u8, 32u8] + body + seq![10u8]
}

/// A join log line: `HH:MM:SS sender has joined` and a newline.
pub open spec fn spec_join_line(t: TimeOfDay, sender: Seq<u8>) -> Seq<u8> {
    spec_hms(t) + seq![32u8] + sender + seq![
        32u8,
        104u8,
        97u8,
        115u8,
        32u8,
        106u8,
        111u8,
        105u8,
        110u8,
        101u8,
        100u8,
        10u8,
    ]
}

/// A part log line: `HH:MM:SS sender has left`, the parenthesized reason
/// when one was given, and a newline.
pub open spec fn spec_part_line(t: TimeOfDay, sender: Seq<u8>, reason: Option<Seq<u8>>) -> Seq<
    u8,
> {
    spec_hms(t) + seq![32u8] + sender + seq![32u8, 104u8, 97u8, 115u8, 32u8, 108u8, 101u8, 102u8, 116u8]
        + (match reason {
        None => Seq::<u8>::empty(),
        Some(r) => seq![32u8, 40u8] + r + seq![41u8],
    }) + seq![10u8]
}

/// The sender's name, or this client's nickname when the event named none.
pub open spec fn spec_sender_or(sender: Option<Vec<u8>>, nick: Seq<u8>) -> Seq<u8> {
    match sender {
        Some(s) => s@,
        None => nick,
    }
}

/// The directory a chat message lands in: the target, unless the target is
/// this client itself — then the sender's name.
pub open spec fn spec_privmsg_dir(
    sender: Option<Vec<u8>>,
    target: Seq<u8>,
    nick: Seq<u8>,
) -> Seq<u8> {
    if target == nick {
        spec_sender_or(sender, nick)
    } else {
        target
    }
}

/// Render a time of day as `HH:MM:SS`.
pub fn hms_bytes(t: &TimeOfDay) -> (r: Vec<u8>)
    ensures
        r@ == spec_hms(*t),
{
    let mut v: Vec<u8> = Vec::new();
    v.push(48 + t.hour / 10);
    v.push(48 + t.hour % 10);
    v.push(58);
    v.push(48 + t.min / 10);
    v.push(48 + t.min % 10);
    v.push(58);
    v.push(48 + t.sec / 10);
    v.push(48 + t.sec % 10);
    proof {
        assert(v@ =~= spec_hms(*t));
    }
    v
}

/// The root joined with a top-level name.
pub fn root_join(name: &[u8]) -> (r: Vec<u8>)
    ensures
        r@ == spec_root_join(name@),
{
    if name.len() > 0 && name[0] == 47 {
        crate::bytes::bytes_to_vec(name)
    } else {
        let mut v: Vec<u8> = Vec::new();
        v.push(47);
        crate::bytes::extend_bytes(&mut v, name);
        proof {
            assert(v@ =~= spec_root_join(name@));
        }
        v
    }
}

/// The path of the `receive` file below `dir`.
pub fn receive_under(dir: &[u8]) -> (r: Vec<u8>)
    ensures
        r@ == spec_receive_under(dir@),
{
    let mut v = crate::bytes::bytes_to_vec(dir);
    v.push(47);
    let name = name_receive();
    crate::bytes::extend_bytes(&mut v, name.as_slice());
    proof {
        assert(v@ =~= spec_receive_under(dir@));
    }
    v
}

/// The path of the `send` file below `dir`.
pub fn send_under(dir: &[u8]) -> (r: Vec<u8>)
    ensures
        r@ == spec_send_under(dir@),
{
    let mut v = crate::bytes::bytes_to_vec(dir);
    v.push(47);
    let name = name_send();
    crate::bytes::extend_bytes(&mut v, name.as_slice());
    proof {
        assert(v@ =~= spec_send_under(dir@));
    }
    v
}

/// A chat log line.
pub fn chat_line(t: &TimeOfDay, sender: &[u8], body: &[u8]) -> (r: Vec<u8>)
    ensures
        r@ == spec_chat_line(*t, sender@, body@),
{
    let mut v = hms_bytes(t);
    v.push(32);
    crate::bytes::extend_bytes(&mut v, sender);
    v.push(58);
    v.push(32);
    crate::bytes::extend_bytes(&mut v, body);
    v.push(10);
    proof {
        assert(v@ =~= spec_chat_line(*t, sender@, body@));
    }
    v
}

/// The commands an inbound event turns into: the raw wire line always, and
/// for chat, join and part events the directory materialization and the
/// formatted log line; the directory of a direct message is named for its
/// sender.
pub fn handle_event(ev: &IrcEvent, nick: &[u8], t: &TimeOfDay) -> (r: Vec<FsControl>)
    ensures
        ctrls_view(r@)[0] == FsControlView::Message(spec_path_raw(), spec_raw_line(*t, ev.raw@)),
        ev.kind matches EventKind::Privmsg { sender, target, text } ==> ctrls_view(r@) =~= seq![
            FsControlView::Message(spec_path_raw(), spec_raw_line(*t, ev.raw@)),
            FsControlView::CreateDir(spec_root_join(spec_privmsg_dir(sender, target@, nick@))),
            FsControlView::Message(
                spec_receive_under(spec_root_join(spec_privmsg_dir(sender, target@, nick@))),
                spec_chat_line(
                    *t,
                    spec_sender_or(sender, nick@),
                    crate::bytes::spec_trim(text@),
                ),
            ),
        ],
        ev.kind matches EventKind::Join { sender, channel } ==> ctrls_view(r@) =~= seq![
            FsControlView::Message(spec_path_raw(), spec_raw_line(*t, ev.raw@)),
            FsControlView::CreateDir(spec_root_join(channel@)),
            FsControlView::Message(
                spec_receive_under(spec_root_join(channel@)),
                spec_join_line(*t, spec_sender_or(sender, nick@)),
            ),
        ],
        ev.kind matches EventKind::Part { sender, channel, reason } ==> ctrls_view(r@) =~= seq![
            FsControlView::Message(spec_path_raw(), spec_raw_line(*t, ev.raw@)),
            FsControlView::CreateDir(spec_root_join(channel@)),
            FsControlView::Message(
                spec_receive_under(spec_root_join(channel@)),
                spec_part_line(*t, spec_sender_or(sender, nick@), opt_view(reason)),
            ),
        ],
        ev.kind is Ping ==> ctrls_view(r@) =~= seq![
            FsControlView::Message(spec_path_raw(), spec_raw_line(*t, ev.raw@)),
        ],
        ev.kind is Other ==> ctrls_view(r@) =~= seq![
            FsControlView::Message(spec_path_raw(), spec_raw_line(*t, ev.raw@)),
            FsControlView::Message(spec_path_receive(), spec_raw_line(*t, ev.raw@)),
        ],
{
    let mut out: Vec<FsControl> = Vec::new();
    let mut raw_path: Vec<u8> = Vec::new();
    raw_path.push(47);
    let rn = crate::names::name_raw();
    crate::bytes::extend_bytes(&mut raw_path, rn.as_slice());
    proof {
        assert(raw_path@ =~= spec_path_raw());
    }
    let mut raw_line = hms_bytes(t);
    raw_line.push(32);
    crate::bytes::extend_bytes(&mut raw_line, ev.raw.as_slice());
    proof {
        assert(raw_line@ =~= spec_raw_line(*t, ev.raw@));
    }
    out.push(FsControl::Message(raw_path, raw_line));
    match &ev.kind {
        EventKind::Privmsg { sender, target, text } => {
            let sender_name: Vec<u8> = match sender {
                Some(s) => crate::bytes::bytes_to_vec(s.as_slice()),
                None => crate::bytes::bytes_to_vec(nick),
            };
            proof {
                assert(sender_name@ == spec_sender_or(*sender, nick@));
            }
            let dir_name: Vec<u8> = if crate::bytes::bytes_eq(target.as_slice(), nick) {
                crate::bytes::bytes_to_vec(sender_name.as_slice())
            } else {
                crate::bytes::bytes_to_vec(target.as_slice())
            };
            proof {
                assert(dir_name@ == spec_privmsg_dir(*sender, target@, nick@));
            }
            let dir = root_join(dir_name.as_slice());
            let tt = trimmed_text(text);
            let line = chat_line(t, sender_name.as_slice(), tt.as_slice());
            push_dir_and_line(out, dir, line, Ghost(*t), Ghost(ev.raw@))
        },
        EventKind::Join { sender, channel } => {
            let dir = root_join(channel.as_slice());
            let mut line = hms_bytes(t);
            line.push(32);
            match sender {
                Some(s) => crate::bytes::extend_bytes(&mut line, s.as_slice()),
                None => crate::bytes::extend_bytes(&mut line, nick),
            }
            let suffix: Vec<u8> = vec![
                32u8,
                104u8,
                97u8,
                115u8,
                32u8,
                106u8,
                111u8,
                105u8,
                110u8,
                101u8,
                100u8,
                10u8,
            ];
            crate::bytes::extend_bytes(&mut line, suffix.as_slice());
            proof {
                assert(line@ =~= spec_join_line(
                    *t,
                    spec_sender_or(*sender, nick@),
                ));
            }
            push_dir_and_line(out, dir, line, Ghost(*t), Ghost(ev.raw@))
        },
        EventKind::Part { sender, channel, reason } => {
            let dir = root_join(channel.as_slice());
            let mut line = hms_bytes(t);
            line.push(32);
            match sender {
                Some(s) => crate::bytes::extend_bytes(&mut line, s.as_slice()),
                None => crate::bytes::extend_bytes(&mut line, nick),
            }
            let suffix: Vec<u8> = vec![32u8, 104u8, 97u8, 115u8, 32u8, 108u8, 101u8, 102u8, 116u8];
            crate::bytes::extend_bytes(&mut line, suffix.as_slice());
            match reason {
                Some(rs) => {
                    line.push(32);
                    line.push(40);
                    crate::bytes::extend_bytes(&mut line, rs.as_slice());
                    line.push(41);
                },
                None => {},
            }
            line.push(10);
            proof {
                assert(line@ =~= spec_part_line(
                    *t,
                    spec_sender_or(*sender, nick@),
                    opt_view(*reason),
                ));
            }
            push_dir_and_line(out, dir, line, Ghost(*t), Ghost(ev.raw@))
        },
        EventKind::Ping => {
            proof {
                assert(ctrls_view(out@) =~= seq![
                    FsControlView::Message(spec_path_raw(), spec_raw_line(*t, ev.raw@)),
                ]);
            }
            out
        },
        EventKind::Other => {
            let mut recv_path: Vec<u8> = Vec::new();
            recv_path.push(47);
            let nm = name_receive();
            crate::bytes::extend_bytes(&mut recv_path, nm.as_slice());
            proof {
                assert(recv_path@ =~= spec_path_receive());
            }
            let mut line2 = hms_bytes(t);
            line2.push(32);
            crate::bytes::extend_bytes(&mut line2, ev.raw.as_slice());
            proof {
                assert(line2@ =~= spec_raw_line(*t, ev.raw@));
            }
            out.push(FsControl::Message(recv_path, line2));
            proof {
                assert(ctrls_view(out@) =~= seq![
                    FsControlView::Message(spec_path_raw(), spec_raw_line(*t, ev.raw@)),
                    FsControlView::Message(spec_path_receive(), spec_raw_line(*t, ev.raw@)),
                ]);
            }
            out
        },
    }
}

/// The text of a chat message, trimmed of surrounding whitespace.
fn trimmed_text(text: &Vec<u8>) -> (r: Vec<u8>)
    ensures
        r@ == crate::bytes::spec_trim(text@),
{
    crate::bytes::trim_bytes(text.as_slice())
}

/// Push the directory materialization and the log-line append for `dir`.
fn push_dir_and_line(
    out: Vec<FsControl>,
    dir: Vec<u8>,
    line: Vec<u8>,
    t: Ghost<TimeOfDay>,
    raw: Ghost<Seq<u8>>,
) -> (r: Vec<FsControl>)
    requires
        ctrls_view(out@) =~= seq![
            FsControlView::Message(spec_path_raw(), spec_raw_line(t@, raw@)),
        ],
    ensures
        ctrls_view(r@) =~= seq![
            FsControlView::Message(spec_path_raw(), spec_raw_line(t@, raw@)),
            FsControlView::CreateDir(dir@),
            FsControlView::Message(spec_receive_under(dir@), line@),
        ],
{
    let mut out = out;
    let ghost base = out@;
    let ghost dirv = dir@;
    let ghost linev = line@;
    let recv = receive_under(dir.as_slice());
    let c1 = FsControl::CreateDir(dir);
    let ghost c1v = c1@;
    let c2 = FsControl::Message(recv, line);
    let ghost c2v = c2@;
    out.push(c1);
    out.push(c2);
    proof {
        assert(c1v == FsControlView::CreateDir(dirv));
        assert(c2v == FsControlView::Message(spec_receive_under(dirv), linev));
        assert(ctrls_view(base).len() == base.len());
        assert(base.len() == 1);
        assert(ctrls_view(base)[0] == base[0]@);
        assert(out@ == base.push(c1).push(c2));
        assert(out@.len() == 3);
        assert(out@[0] == base[0] && out@[1] == c1 && out@[2] == c2);
        assert(ctrls_view(out@).len() == 3);
        assert(ctrls_view(out@)[0] == out@[0]@ && ctrls_view(out@)[1] == out@[1]@ && ctrls_view(
            out@,
        )[2] == out@[2]@);
        assert(ctrls_view(out@) =~= seq![
            FsControlView::Message(spec_path_raw(), spec_raw_line(t@, raw@)),
            FsControlView::CreateDir(dirv),
            FsControlView::Message(spec_receive_under(dirv), linev),
        ]);
    }
    out
}

/// The store after one command: an append for `Message` (a miss or a
/// directory changes nothing), and for `CreateDir` the directory chain, its
/// `receive` file, then its `send` file, each step's error dropped.
pub open spec fn spec_apply_control(v: NodeView, c: FsControlView, now: i64) -> NodeView {
    match c {
        FsControlView::Message(p, d) => crate::tree::view_append(v, p, d),
        FsControlView::CreateDir(p) => {
            let v1 = crate::tree::view_mk_parents(v, p, now);
            let v2 = crate::tree::view_mk_file(v1, spec_receive_under(p), now, 0o400);
            crate::tree::view_mk_file(v2, spec_send_under(p), now, 0o600)
        },
    }
}

/// Apply one command to the store; every error is dropped, as the mutator
/// keeps running whatever a single command does.
pub fn apply_control(fs: &mut Filesystem, c: &FsControl, now: i64)
    ensures
        final(fs)@ == spec_apply_control(old(fs)@, c@, now),
{
    match c {
        FsControl::Message(p, d) => {
            let _ = fs.append(p.as_slice(), d.as_slice());
        },
        FsControl::CreateDir(p) => {
            let _ = fs.mk_parents(p.as_slice(), now);
            let rp = receive_under(p.as_slice());
            let _ = fs.mk_ro_file(rp.as_slice(), now);
            let sp = send_under(p.as_slice());
            let _ = fs.mk_rw_file(sp.as_slice(), now);
        },
    }
}

} // verus!
