//! Absolute paths as byte strings, parsed into ordered component sequences.
//!
//! A path is absolute when it starts with the separator byte `/`. The parse
//! discards the leading separator, splits on every further separator, and
//! ignores one empty trailing component (the trailing slash of a directory
//! path). The empty path stands for the root itself.

use vstd::prelude::*;

verus! {

/// The host path separator.
pub const SEPARATOR: u8 = 47;

/// The parts of `s[i..]`, split on the byte `sep`. Always at least one
/// part; splitting the empty suffix gives one empty part.
pub open spec fn split_from(s: Seq<u8>, i: int, sep: u8) -> Seq<Seq<u8>>
    decreases s.len() - i,
{
    if i < 0 || i >= s.len() {
        seq![Seq::<u8>::empty()]
    } else if s[i] == sep {
        seq![Seq::<u8>::empty()] + split_from(s, i + 1, sep)
    } else {
        let r = split_from(s, i + 1, sep);
        seq![seq![s[i]] + r[0]] + r.drop_first()
    }
}

/// Splitting always yields at least one part.
pub proof fn lemma_split_from_len(s: Seq<u8>, i: int, sep: u8)
    ensures
        split_from(s, i, sep).len() >= 1,
    decreases s.len() - i,
{
    if i < 0 || i >= s.len() {
    } else if s[i] == sep {
        lemma_split_from_len(s, i + 1, sep);
    } else {
        lemma_split_from_len(s, i + 1, sep);
    }
}

/// The mathematical view of a vector of byte strings.
pub open spec fn segs_view(v: Seq<Vec<u8>>) -> Seq<Seq<u8>> {
    v.map_values(|x: Vec<u8>| x@)
}

/// Split `s[from..]` on the byte `sep`.
pub fn split_bytes(s: &[u8], from: usize, sep: u8) -> (r: Vec<Vec<u8>>)
    requires
        from <= s@.len(),
    ensures
        segs_view(r@) == split_from(s@, from as int, sep),
{
    let ghost sv = s@;
    let mut segs: Vec<Vec<u8>> = Vec::new();
    let mut cur: Vec<u8> = Vec::new();
    let mut i: usize = from;
    proof {
        assert(segs_view(segs@) =~= Seq::<Seq<u8>>::empty());
        assert(split_from(sv, from as int, sep) =~= segs_view(segs@) + seq![
            cur@ + split_from(sv, from as int, sep).first()] + split_from(
            sv,
            from as int,
            sep,
        ).drop_first()) by {
            lemma_split_from_len(sv, from as int, sep);
            assert(cur@ + split_from(sv, from as int, sep).first() =~= split_from(
                sv,
                from as int,
                sep,
            ).first());
        }
    }
    while i < s.len()
        invariant
            from <= i <= sv.len(),
            sv == s@,
            split_from(sv, from as int, sep) == segs_view(segs@) + seq![
                cur@ + split_from(sv, i as int, sep).first()] + split_from(
                sv,
                i as int,
                sep,
            ).drop_first(),
        decreases sv.len() - i,
    {
        proof {
            lemma_split_from_len(sv, i + 1, sep);
        }
        if s[i] == sep {
            proof {
                assert(split_from(sv, i as int, sep) == seq![Seq::<u8>::empty()] + split_from(
                    sv,
                    i + 1,
                    sep,
                ));
                assert(cur@ + split_from(sv, i as int, sep).first() =~= cur@);
                assert(split_from(sv, i as int, sep).drop_first() =~= split_from(sv, i + 1, sep));
                assert(segs_view(segs@.push(cur)) =~= segs_view(segs@) + seq![cur@]);
                assert(split_from(sv, from as int, sep) =~= (segs_view(segs@) + seq![cur@]) + seq![
                    Seq::<u8>::empty() + split_from(sv, i + 1, sep).first()] + split_from(
                    sv,
                    i + 1,
                    sep,
                ).drop_first()) by {
                    assert(Seq::<u8>::empty() + split_from(sv, i + 1, sep).first() =~= split_from(
                        sv,
                        i + 1,
                        sep,
                    ).first());
                    assert(split_from(sv, i + 1, sep) =~= seq![split_from(sv, i + 1, sep).first()]
                        + split_from(sv, i + 1, sep).drop_first());
                }
            }
            segs.push(cur);
            cur = Vec::new();
            proof {
                assert(Seq::<u8>::empty() =~= cur@);
            }
        } else {
            proof {
                assert(split_from(sv, i as int, sep) == seq![seq![sv[i as int]] + split_from(
                    sv,
                    i + 1,
                    sep,
                ).first()] + split_from(sv, i + 1, sep).drop_first());
                assert(split_from(sv, i as int, sep).first() == seq![sv[i as int]] + split_from(
                    sv,
                    i + 1,
                    sep,
                ).first());
                assert(split_from(sv, i as int, sep).drop_first() =~= split_from(
                    sv,
                    i + 1,
                    sep,
                ).drop_first());
                assert(cur@.push(sv[i as int]) + split_from(sv, i + 1, sep).first() =~= cur@
                    + split_from(sv, i as int, sep).first());
            }
            cur.push(s[i]);
        }
        i += 1;
    }
    proof {
        assert(split_from(sv, i as int, sep) =~= seq![Seq::<u8>::empty()]);
        assert(cur@ + split_from(sv, i as int, sep).first() =~= cur@);
        assert(split_from(sv, i as int, sep).drop_first() =~= Seq::<Seq<u8>>::empty());
        assert(segs_view(segs@.push(cur)) =~= segs_view(segs@) + seq![cur@]);
        assert(split_from(sv, from as int, sep) =~= segs_view(segs@.push(cur)));
    }
    segs.push(cur);
    segs
}

/// What an absolute path parses to: its component sequence, or nothing when
/// the path is neither empty nor absolute.
pub open spec fn spec_parse_path(s: Seq<u8>) -> Option<Seq<Seq<u8>>> {
    if s.len() == 0 {
        Some(Seq::<Seq<u8>>::empty())
    } else if s[0] != SEPARATOR {
        None
    } else {
        let q = split_from(s, 1, SEPARATOR);
        Some(
            if q.len() > 0 && q.last().len() == 0 {
                q.drop_last()
            } else {
                q
            },
        )
    }
}

/// Parse an absolute byte path into its components.
pub fn parse_path(path: &[u8]) -> (r: Option<Vec<Vec<u8>>>)
    ensures
        r is Some <==> spec_parse_path(path@) is Some,
        r matches Some(v) ==> Some(segs_view(v@)) == spec_parse_path(path@),
{
    if path.len() == 0 {
        let v: Vec<Vec<u8>> = Vec::new();
        assert(segs_view(v@) =~= Seq::<Seq<u8>>::empty());
        return Some(v);
    }
    if path[0] != SEPARATOR {
        return None;
    }
    let mut segs = split_bytes(path, 1, SEPARATOR);
    proof {
        lemma_split_from_len(path@, 1, SEPARATOR);
        assert(segs@.len() == segs_view(segs@).len());
    }
    if segs[segs.len() - 1].len() == 0 {
        proof {
            assert(segs_view(segs@)[segs@.len() - 1] == segs@[segs@.len() - 1]@);
            assert(segs_view(segs@.drop_last()) =~= segs_view(segs@).drop_last());
        }
        segs.pop();
    }
    Some(segs)
}

} // verus!
