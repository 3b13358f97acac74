//! The directive parser for text written to the session-level input file.
//!
//! The trimmed line is split on single spaces; the first non-empty token is
//! the directive (accepted with or without the leading slash), the tokens
//! after it — once the empties right after the directive are dropped — are
//! its arguments, each trimmed. `join` and `part` take a comma-separated
//! channel list and an optional matching list of keys or reasons; `msg`
//! takes a target and a message body; anything else is silently ignored.

use vstd::prelude::*;

use crate::bridge::{
    acts_view, chat_line, ctrls_view, receive_under, root_join, spec_chat_line,
    spec_receive_under, spec_root_join, FsControl, FsControlView, IrcAction, IrcActionView,
};
use crate::bytes::spec_trim;
use crate::clock::TimeOfDay;
use crate::path::{segs_view, split_bytes, split_from};

verus! {

/// The tokens of a directive line: the line split on single spaces.
pub open spec fn spec_tokens(s: Seq<u8>) -> Seq<Seq<u8>> {
    split_from(s, 0, 32)
}

/// The tokens with their leading empties removed.
pub open spec fn skip_empty(toks: Seq<Seq<u8>>) -> Seq<Seq<u8>>
    decreases toks.len(),
{
    if toks.len() > 0 && toks[0].len() == 0 {
        skip_empty(toks.drop_first())
    } else {
        toks
    }
}

/// The directive word: the first non-empty token, if any.
pub open spec fn spec_command(line: Seq<u8>) -> Option<Seq<u8>> {
    let t = skip_empty(spec_tokens(line));
    if t.len() > 0 {
        Some(t[0])
    } else {
        None
    }
}

/// The arguments: what follows the directive word once the empties right
/// after it are dropped, each token trimmed.
pub open spec fn spec_arguments(line: Seq<u8>) -> Seq<Seq<u8>> {
    let t = skip_empty(spec_tokens(line));
    if t.len() > 0 {
        skip_empty(t.drop_first()).map_values(|x: Seq<u8>| spec_trim(x))
    } else {
        Seq::<Seq<u8>>::empty()
    }
}

/// The spellings of the join directive: `/j`, `/join`, `j`, `join`.
pub open spec fn is_join_word(w: Seq<u8>) -> bool {
    ||| w == seq![47u8, 106u8]
    ||| w == seq![47u8, 106u8, 111u8, 105u8, 110u8]
    ||| w == seq![106u8]
    ||| w == seq![106u8, 111u8, 105u8, 110u8]
}

/// The spellings of the part directive: `/part`, `part`.
pub open spec fn is_part_word(w: Seq<u8>) -> bool {
    ||| w == seq![47u8, 112u8, 97u8, 114u8, 116u8]
    ||| w == seq![112u8, 97u8, 114u8, 116u8]
}

/// The spellings of the msg directive: `/msg`, `msg`.
pub open spec fn is_msg_word(w: Seq<u8>) -> bool {
    ||| w == seq![47u8, 109u8, 115u8, 103u8]
    ||| w == seq![109u8, 115u8, 103u8]
}

/// What a join directive emits: one directory materialization and one join
/// message per named channel; with a key list, channels and keys pair up
/// until the shorter list ends.
pub open spec fn spec_join_effects(args: Seq<Seq<u8>>) -> (Seq<FsControlView>, Seq<
    IrcActionView,
>) {
    if args.len() == 1 {
        let chans = split_from(args[0], 0, 44);
        (
            Seq::new(chans.len(), |i: int| FsControlView::CreateDir(spec_root_join(chans[i]))),
            Seq::new(
                chans.len(),
                |i: int| IrcActionView::Join { channel: chans[i], key: None },
            ),
        )
    } else if args.len() > 1 {
        let chans = split_from(args[0], 0, 44);
        let keys = split_from(args[1], 0, 44);
        let n = if chans.len() <= keys.len() {
            chans.len()
        } else {
            keys.len()
        };
        (
            Seq::new(n, |i: int| FsControlView::CreateDir(spec_root_join(chans[i]))),
            Seq::new(
                n,
                |i: int| IrcActionView::Join { channel: chans[i], key: Some(keys[i]) },
            ),
        )
    } else {
        (Seq::<FsControlView>::empty(), Seq::<IrcActionView>::empty())
    }
}

/// What a part directive emits: one part message per named channel; with a
/// reason list, an empty reason stands for none.
pub open spec fn spec_part_effects(args: Seq<Seq<u8>>) -> Seq<IrcActionView> {
    if args.len() == 1 {
        let chans = split_from(args[0], 0, 44);
        Seq::new(chans.len(), |i: int| IrcActionView::Part { channel: chans[i], reason: None })
    } else if args.len() > 1 {
        let chans = split_from(args[0], 0, 44);
        let reasons = split_from(args[1], 0, 44);
        let n = if chans.len() <= reasons.len() {
            chans.len()
        } else {
            reasons.len()
        };
        Seq::new(
            n,
            |i: int|
                IrcActionView::Part {
                    channel: chans[i],
                    reason: if reasons[i].len() == 0 {
                        None
                    } else {
                        Some(reasons[i])
                    },
                },
        )
    } else {
        Seq::<IrcActionView>::empty()
    }
}

/// The parts joined with single spaces.
pub open spec fn spec_join_spaces(parts: Seq<Seq<u8>>) -> Seq<u8>
    decreases parts.len(),
{
    if parts.len() == 0 {
        Seq::<u8>::empty()
    } else if parts.len() == 1 {
        parts[0]
    } else {
        parts[0] + seq![32u8] + spec_join_spaces(parts.drop_first())
    }
}

/// Joining one more part appends a space and the part.
pub proof fn lemma_join_spaces_push(parts: Seq<Seq<u8>>, x: Seq<u8>)
    requires
        parts.len() >= 1,
    ensures
        spec_join_spaces(parts.push(x)) == spec_join_spaces(parts) + seq![32u8] + x,
    decreases parts.len(),
{
    if parts.len() == 1 {
        assert(parts.push(x)[0] == parts[0]);
        assert(parts.push(x).drop_first() =~= seq![x]);
        assert(spec_join_spaces(seq![x]) == x);
    } else {
        lemma_join_spaces_push(parts.drop_first(), x);
        assert(parts.push(x).drop_first() =~= parts.drop_first().push(x));
        assert(parts.push(x)[0] == parts[0]);
    }
}

/// What a msg directive emits: the target's directory is materialized; with
/// a body, the chat message goes out and the line is mirrored into the
/// target's `receive` file under this client's nickname.
pub open spec fn spec_msg_effects(args: Seq<Seq<u8>>, nick: Seq<u8>, t: TimeOfDay) -> (Seq<
    FsControlView,
>, Seq<IrcActionView>) {
    if args.len() == 1 {
        (
            seq![FsControlView::CreateDir(spec_root_join(args[0]))],
            Seq::<IrcActionView>::empty(),
        )
    } else if args.len() > 1 {
        let message = spec_join_spaces(args.drop_first());
        (
            seq![
                FsControlView::CreateDir(spec_root_join(args[0])),
                FsControlView::Message(
                    spec_receive_under(spec_root_join(args[0])),
                    spec_chat_line(t, nick, message),
                ),
            ],
            seq![IrcActionView::Privmsg { target: args[0], body: message }],
        )
    } else {
        (Seq::<FsControlView>::empty(), Seq::<IrcActionView>::empty())
    }
}

/// What one directive line emits, as tree commands and outbound messages.
/// A line without a recognized directive emits nothing.
pub open spec fn spec_directive_effects(line: Seq<u8>, nick: Seq<u8>, t: TimeOfDay) -> (Seq<
    FsControlView,
>, Seq<IrcActionView>) {
    match spec_command(line) {
        None => (Seq::<FsControlView>::empty(), Seq::<IrcActionView>::empty()),
        Some(w) => {
            let args = spec_arguments(line);
            if is_join_word(w) {
                spec_join_effects(args)
            } else if is_part_word(w) {
                (Seq::<FsControlView>::empty(), spec_part_effects(args))
            } else if is_msg_word(w) {
                spec_msg_effects(args, nick, t)
            } else {
                (Seq::<FsControlView>::empty(), Seq::<IrcActionView>::empty())
            }
        },
    }
}

/// The directive word and argument vector of a line.
#[verifier::rlimit(50)]
fn command_and_arguments(line: &[u8]) -> (r: (Option<Vec<u8>>, Vec<Vec<u8>>))
    ensures
        match r.0 {
            Some(w) => spec_command(line@) == Some(w@),
            None => spec_command(line@) is None,
        },
        segs_view(r.1@) == spec_arguments(line@),
{
    let toks = split_bytes(line, 0, 32);
    let ghost full = segs_view(toks@);
    proof {
        assert(full.skip(0) =~= full);
    }
    let mut i: usize = 0;
    while i < toks.len() && toks[i].len() == 0
        invariant
            0 <= i <= toks@.len(),
            full == segs_view(toks@),
            spec_tokens(line@) == full,
            skip_empty(full) == skip_empty(full.skip(i as int)),
        decreases toks@.len() - i,
    {
        proof {
            assert(full[i as int] == toks@[i as int]@);
            assert(full.skip(i as int)[0] == full[i as int]);
            assert(full.skip(i as int).drop_first() =~= full.skip(i + 1));
            assert(skip_empty(full.skip(i as int)) == skip_empty(
                full.skip(i as int).drop_first(),
            ));
        }
        i += 1;
    }
    if i == toks.len() {
        proof {
            assert(full.skip(i as int) =~= Seq::<Seq<u8>>::empty());
            assert(skip_empty(full).len() == 0);
        }
        let empty_args: Vec<Vec<u8>> = Vec::new();
        proof {
            assert(segs_view(empty_args@) =~= Seq::<Seq<u8>>::empty());
        }
        return (None, empty_args);
    }
    proof {
        assert(full.skip(i as int)[0] == full[i as int]);
        assert(full[i as int] == toks@[i as int]@);
        assert(full[i as int].len() > 0);
        assert(skip_empty(full) == full.skip(i as int));
        assert(skip_empty(full)[0] == full[i as int]);
    }
    let command = crate::bytes::bytes_to_vec(toks[i].as_slice());
    let ghost after = skip_empty(full).drop_first();
    proof {
        assert(after =~= full.skip(i + 1));
    }
    let mut j: usize = i + 1;
    while j < toks.len() && toks[j].len() == 0
        invariant
            i < j <= toks@.len(),
            full == segs_view(toks@),
            after == full.skip(i + 1),
            skip_empty(after) == skip_empty(full.skip(j as int)),
        decreases toks@.len() - j,
    {
        proof {
            assert(full[j as int] == toks@[j as int]@);
            assert(full.skip(j as int)[0] == full[j as int]);
            assert(full.skip(j as int).drop_first() =~= full.skip(j + 1));
            assert(skip_empty(full.skip(j as int)) == skip_empty(
                full.skip(j as int).drop_first(),
            ));
        }
        j += 1;
    }
    proof {
        if j < toks@.len() {
            assert(full.skip(j as int)[0] == full[j as int]);
            assert(full[j as int] == toks@[j as int]@);
            assert(skip_empty(full.skip(j as int)) == full.skip(j as int));
        } else {
            assert(full.skip(j as int) =~= Seq::<Seq<u8>>::empty());
            assert(skip_empty(full.skip(j as int)) == full.skip(j as int));
        }
    }
    let ghost args_spec = skip_empty(after).map_values(|x: Seq<u8>| spec_trim(x));
    let mut args: Vec<Vec<u8>> = Vec::new();
    let mut k: usize = j;
    proof {
        assert(segs_view(args@) =~= args_spec.take(0));
    }
    while k < toks.len()
        invariant
            j <= k <= toks@.len(),
            full == segs_view(toks@),
            skip_empty(after) == full.skip(j as int),
            args_spec == skip_empty(after).map_values(|x: Seq<u8>| spec_trim(x)),
            args@.len() == k - j,
            segs_view(args@) == args_spec.take(k - j),
        decreases toks@.len() - k,
    {
        let a = crate::bytes::trim_bytes(toks[k].as_slice());
        args.push(a);
        proof {
            assert(full.skip(j as int)[k - j] == full[k as int]);
            assert(full[k as int] == toks@[k as int]@);
            assert(args_spec[k - j] == spec_trim(full[k as int]));
            assert(segs_view(args@) =~= args_spec.take(k - j + 1));
        }
        k += 1;
    }
    proof {
        assert(args_spec.take(toks@.len() - j) =~= args_spec);
        assert(spec_command(line@) == Some(command@));
        assert(spec_arguments(line@) == args_spec);
    }
    (Some(command), args)
}

/// What one directive line emits: the tree commands and outbound messages
/// of `spec_directive_effects`.
pub fn directive_effects(line: &[u8], nick: &[u8], t: &TimeOfDay) -> (r: (Vec<FsControl>, Vec<
    IrcAction,
>))
    ensures
        ctrls_view(r.0@) == spec_directive_effects(line@, nick@, *t).0,
        acts_view(r.1@) == spec_directive_effects(line@, nick@, *t).1,
{
    let mut controls: Vec<FsControl> = Vec::new();
    let mut actions: Vec<IrcAction> = Vec::new();
    proof {
        assert(ctrls_view(controls@) =~= Seq::<FsControlView>::empty());
        assert(acts_view(actions@) =~= Seq::<IrcActionView>::empty());
    }
    let (command, args) = command_and_arguments(line);
    let command = match command {
        Some(w) => w,
        None => {
            return (controls, actions);
        },
    };
    let w = command.as_slice();
    let kw_j: Vec<u8> = vec![47u8, 106u8];
    let kw_join: Vec<u8> = vec![47u8, 106u8, 111u8, 105u8, 110u8];
    let kw_j2: Vec<u8> = vec![106u8];
    let kw_join2: Vec<u8> = vec![106u8, 111u8, 105u8, 110u8];
    let kw_part: Vec<u8> = vec![47u8, 112u8, 97u8, 114u8, 116u8];
    let kw_part2: Vec<u8> = vec![112u8, 97u8, 114u8, 116u8];
    let kw_msg: Vec<u8> = vec![47u8, 109u8, 115u8, 103u8];
    let kw_msg2: Vec<u8> = vec![109u8, 115u8, 103u8];
    proof {
        assert(kw_j@ =~= seq![47u8, 106u8]);
        assert(kw_join@ =~= seq![47u8, 106u8, 111u8, 105u8, 110u8]);
        assert(kw_j2@ =~= seq![106u8]);
        assert(kw_join2@ =~= seq![106u8, 111u8, 105u8, 110u8]);
        assert(kw_part@ =~= seq![47u8, 112u8, 97u8, 114u8, 116u8]);
        assert(kw_part2@ =~= seq![112u8, 97u8, 114u8, 116u8]);
        assert(kw_msg@ =~= seq![47u8, 109u8, 115u8, 103u8]);
        assert(kw_msg2@ =~= seq![109u8, 115u8, 103u8]);
    }
    let is_join = crate::bytes::bytes_eq(w, kw_j.as_slice()) || crate::bytes::bytes_eq(
        w,
        kw_join.as_slice(),
    ) || crate::bytes::bytes_eq(w, kw_j2.as_slice()) || crate::bytes::bytes_eq(
        w,
        kw_join2.as_slice(),
    );
    let is_part = crate::bytes::bytes_eq(w, kw_part.as_slice()) || crate::bytes::bytes_eq(
        w,
        kw_part2.as_slice(),
    );
    let is_msg = crate::bytes::bytes_eq(w, kw_msg.as_slice()) || crate::bytes::bytes_eq(
        w,
        kw_msg2.as_slice(),
    );
    proof {
        assert(is_join == is_join_word(command@));
        assert(is_part == is_part_word(command@));
        assert(is_msg == is_msg_word(command@));
    }
    if is_join {
        if args.len() == 1 {
            let chans = split_bytes(args[0].as_slice(), 0, 44);
            let ghost chansv = split_from(args[0]@, 0, 44);
            proof {
                assert(chansv == segs_view(chans@));
            }
            let mut x: usize = 0;
            while x < chans.len()
                invariant
                    0 <= x <= chans@.len(),
                    chansv == segs_view(chans@),
                    ctrls_view(controls@) == Seq::new(
                        chansv.len(),
                        |i: int| FsControlView::CreateDir(spec_root_join(chansv[i])),
                    ).take(x as int),
                    acts_view(actions@) == Seq::new(
                        chansv.len(),
                        |i: int| IrcActionView::Join { channel: chansv[i], key: None },
                    ).take(x as int),
                decreases chans@.len() - x,
            {
                let dir = root_join(chans[x].as_slice());
                crate::bridge::push_control(&mut controls, FsControl::CreateDir(dir));
                let ch = crate::bytes::bytes_to_vec(chans[x].as_slice());
                crate::bridge::push_action(&mut actions, IrcAction::Join { channel: ch, key: None });
                proof {
                    let cspec = Seq::new(
                        chansv.len(),
                        |i: int| FsControlView::CreateDir(spec_root_join(chansv[i])),
                    );
                    let aspec = Seq::new(
                        chansv.len(),
                        |i: int| IrcActionView::Join { channel: chansv[i], key: None },
                    );
                    assert(chansv[x as int] == chans@[x as int]@);
                    assert(cspec.take(x + 1) =~= cspec.take(x as int).push(cspec[x as int]));
                    assert(aspec.take(x + 1) =~= aspec.take(x as int).push(aspec[x as int]));
                }
                x += 1;
            }
            proof {
                assert(Seq::new(
                    chansv.len(),
                    |i: int| FsControlView::CreateDir(spec_root_join(chansv[i])),
                ).take(chansv.len() as int) =~= Seq::new(
                    chansv.len(),
                    |i: int| FsControlView::CreateDir(spec_root_join(chansv[i])),
                ));
                assert(Seq::new(
                    chansv.len(),
                    |i: int| IrcActionView::Join { channel: chansv[i], key: None },
                ).take(chansv.len() as int) =~= Seq::new(
                    chansv.len(),
                    |i: int| IrcActionView::Join { channel: chansv[i], key: None },
                ));
            }
        } else if args.len() > 1 {
            let chans = split_bytes(args[0].as_slice(), 0, 44);
            let keys = split_bytes(args[1].as_slice(), 0, 44);
            let ghost chansv = split_from(args[0]@, 0, 44);
            let ghost keysv = split_from(args[1]@, 0, 44);
            let n = if chans.len() <= keys.len() {
                chans.len()
            } else {
                keys.len()
            };
            let mut x: usize = 0;
            while x < n
                invariant
                    0 <= x <= n,
                    n == (if chansv.len() <= keysv.len() {
                        chansv.len()
                    } else {
                        keysv.len()
                    }),
                    chansv == segs_view(chans@),
                    keysv == segs_view(keys@),
                    ctrls_view(controls@) == Seq::new(
                        n as nat,
                        |i: int| FsControlView::CreateDir(spec_root_join(chansv[i])),
                    ).take(x as int),
                    acts_view(actions@) == Seq::new(
                        n as nat,
                        |i: int| IrcActionView::Join { channel: chansv[i], key: Some(keysv[i]) },
                    ).take(x as int),
                decreases n - x,
            {
                let dir = root_join(chans[x].as_slice());
                crate::bridge::push_control(&mut controls, FsControl::CreateDir(dir));
                let ch = crate::bytes::bytes_to_vec(chans[x].as_slice());
                let key = crate::bytes::bytes_to_vec(keys[x].as_slice());
                crate::bridge::push_action(&mut actions, IrcAction::Join { channel: ch, key: Some(key) });
                proof {
                    let cspec = Seq::new(
                        n as nat,
                        |i: int| FsControlView::CreateDir(spec_root_join(chansv[i])),
                    );
                    let aspec = Seq::new(
                        n as nat,
                        |i: int| IrcActionView::Join { channel: chansv[i], key: Some(keysv[i]) },
                    );
                    assert(chansv[x as int] == chans@[x as int]@);
                    assert(keysv[x as int] == keys@[x as int]@);
                    assert(cspec.take(x + 1) =~= cspec.take(x as int).push(cspec[x as int]));
                    assert(aspec.take(x + 1) =~= aspec.take(x as int).push(aspec[x as int]));
                }
                x += 1;
            }
            proof {
                assert(Seq::new(
                    n as nat,
                    |i: int| FsControlView::CreateDir(spec_root_join(chansv[i])),
                ).take(n as int) =~= Seq::new(
                    n as nat,
                    |i: int| FsControlView::CreateDir(spec_root_join(chansv[i])),
                ));
                assert(Seq::new(
                    n as nat,
                    |i: int| IrcActionView::Join { channel: chansv[i], key: Some(keysv[i]) },
                ).take(n as int) =~= Seq::new(
                    n as nat,
                    |i: int| IrcActionView::Join { channel: chansv[i], key: Some(keysv[i]) },
                ));
            }
        }
    } else if is_part {
        if args.len() == 1 {
            let chans = split_bytes(args[0].as_slice(), 0, 44);
            let ghost chansv = split_from(args[0]@, 0, 44);
            let mut x: usize = 0;
            while x < chans.len()
                invariant
                    0 <= x <= chans@.len(),
                    chansv == segs_view(chans@),
                    ctrls_view(controls@) == Seq::<FsControlView>::empty(),
                    acts_view(actions@) == Seq::new(
                        chansv.len(),
                        |i: int| IrcActionView::Part { channel: chansv[i], reason: None },
                    ).take(x as int),
                decreases chans@.len() - x,
            {
                let ch = crate::bytes::bytes_to_vec(chans[x].as_slice());
                crate::bridge::push_action(&mut actions, IrcAction::Part { channel: ch, reason: None });
                proof {
                    let aspec = Seq::new(
                        chansv.len(),
                        |i: int| IrcActionView::Part { channel: chansv[i], reason: None },
                    );
                    assert(chansv[x as int] == chans@[x as int]@);
                    assert(aspec.take(x + 1) =~= aspec.take(x as int).push(aspec[x as int]));
                }
                x += 1;
            }
            proof {
                assert(Seq::new(
                    chansv.len(),
                    |i: int| IrcActionView::Part { channel: chansv[i], reason: None },
                ).take(chansv.len() as int) =~= Seq::new(
                    chansv.len(),
                    |i: int| IrcActionView::Part { channel: chansv[i], reason: None },
                ));
            }
        } else if args.len() > 1 {
            let chans = split_bytes(args[0].as_slice(), 0, 44);
            let reasons = split_bytes(args[1].as_slice(), 0, 44);
            let ghost chansv = split_from(args[0]@, 0, 44);
            let ghost reasonsv = split_from(args[1]@, 0, 44);
            let n = if chans.len() <= reasons.len() {
                chans.len()
            } else {
                reasons.len()
            };
            let ghost part_spec = Seq::new(
                n as nat,
                |i: int|
                    IrcActionView::Part {
                        channel: chansv[i],
                        reason: if reasonsv[i].len() == 0 {
                            None
                        } else {
                            Some(reasonsv[i])
                        },
                    },
            );
            let mut x: usize = 0;
            while x < n
                invariant
                    0 <= x <= n,
                    n == (if chansv.len() <= reasonsv.len() {
                        chansv.len()
                    } else {
                        reasonsv.len()
                    }),
                    chansv == segs_view(chans@),
                    reasonsv == segs_view(reasons@),
                    part_spec == Seq::new(
                        n as nat,
                        |i: int|
                            IrcActionView::Part {
                                channel: chansv[i],
                                reason: if reasonsv[i].len() == 0 {
                                    None
                                } else {
                                    Some(reasonsv[i])
                                },
                            },
                    ),
                    ctrls_view(controls@) == Seq::<FsControlView>::empty(),
                    acts_view(actions@) == part_spec.take(x as int),
                decreases n - x,
            {
                let ch = crate::bytes::bytes_to_vec(chans[x].as_slice());
                let reason: Option<Vec<u8>> = if reasons[x].len() == 0 {
                    None
                } else {
                    Some(crate::bytes::bytes_to_vec(reasons[x].as_slice()))
                };
                proof {
                    assert(chansv[x as int] == chans@[x as int]@);
                    assert(reasonsv[x as int] == reasons@[x as int]@);
                }
                crate::bridge::push_action(&mut actions, IrcAction::Part { channel: ch, reason: reason });
                proof {
                    assert(part_spec.take(x + 1) =~= part_spec.take(x as int).push(
                        part_spec[x as int],
                    ));
                }
                x += 1;
            }
            proof {
                assert(part_spec.take(n as int) =~= part_spec);
            }
        }
    } else if is_msg {
        if args.len() == 1 {
            let dir = root_join(args[0].as_slice());
            crate::bridge::push_control(&mut controls, FsControl::CreateDir(dir));
            proof {
                assert(segs_view(args@)[0] == args@[0]@);
                assert(ctrls_view(controls@) =~= seq![
                    FsControlView::CreateDir(spec_root_join(args@[0]@)),
                ]);
            }
        } else if args.len() > 1 {
            let message = join_spaces_from(&args, 1);
            let dir = root_join(args[0].as_slice());
            let ghost dirv = dir@;
            let recv = receive_under(dir.as_slice());
            let mirror = chat_line(t, nick, message.as_slice());
            crate::bridge::push_control(&mut controls, FsControl::CreateDir(dir));
            crate::bridge::push_control(&mut controls, FsControl::Message(recv, mirror));
            let target = crate::bytes::bytes_to_vec(args[0].as_slice());
            crate::bridge::push_action(
                &mut actions,
                IrcAction::Privmsg { target: target, body: message },
            );
            proof {
                assert(segs_view(args@)[0] == args@[0]@);
                assert(segs_view(args@).drop_first() =~= segs_view(args@).skip(1));
                assert(ctrls_view(controls@) =~= seq![
                    FsControlView::CreateDir(spec_root_join(args@[0]@)),
                    FsControlView::Message(
                        spec_receive_under(spec_root_join(args@[0]@)),
                        spec_chat_line(
                            *t,
                            nick@,
                            spec_join_spaces(segs_view(args@).drop_first()),
                        ),
                    ),
                ]);
                assert(acts_view(actions@) =~= seq![
                    IrcActionView::Privmsg {
                        target: args@[0]@,
                        body: spec_join_spaces(segs_view(args@).drop_first()),
                    },
                ]);
            }
        }
    }
    (controls, actions)
}

/// The parts from index `from` on, joined with single spaces.
fn join_spaces_from(parts: &Vec<Vec<u8>>, from: usize) -> (r: Vec<u8>)
    requires
        from < parts@.len(),
    ensures
        r@ == spec_join_spaces(segs_view(parts@).skip(from as int)),
{
    let ghost tail = segs_view(parts@).skip(from as int);
    let total = parts.len();
    let mut v = crate::bytes::bytes_to_vec(parts[from].as_slice());
    proof {
        assert(tail[0] == parts@[from as int]@);
        assert(tail.take(1) =~= seq![tail[0]]);
        assert(spec_join_spaces(tail.take(1)) == tail[0]);
    }
    let mut k: usize = from + 1;
    while k < total
        invariant
            from < k <= parts@.len(),
            total == parts@.len(),
            tail == segs_view(parts@).skip(from as int),
            v@ == spec_join_spaces(tail.take(k - from)),
        decreases parts@.len() - k,
    {
        v.push(32);
        crate::bytes::extend_bytes(&mut v, parts[k].as_slice());
        proof {
            assert(tail[k - from] == parts@[k as int]@);
            assert(tail.take(k - from + 1) =~= tail.take(k - from).push(tail[k - from]));
            lemma_join_spaces_push(tail.take(k - from), tail[k - from]);
        }
        k += 1;
    }
    proof {
        assert(tail.take(parts@.len() - from) =~= tail);
    }
    v
}

} // verus!
