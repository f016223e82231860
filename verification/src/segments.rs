//! Splitting keys into delimiter-bounded segments, and joining them back.
//!
//! A key is split on any character of the configured delimiter set.
//! Consecutive, leading or trailing delimiters never produce empty segments.

use vstd::prelude::*;

verus! {

/// `c` is one of the configured delimiter characters.
pub open spec fn is_delim(delims: Seq<char>, c: char) -> bool {
    delims.contains(c)
}

/// Splitting, one character at a time: `cur` is the partial segment read so
/// far. A delimiter ends the current segment; empty segments are dropped.
pub open spec fn split_rec(s: Seq<char>, delims: Seq<char>, cur: Seq<char>) -> Seq<Seq<char>>
    decreases s.len(),
{
    if s.len() == 0 {
        if cur.len() == 0 {
            Seq::empty()
        } else {
            seq![cur]
        }
    } else if is_delim(delims, s[0]) {
        if cur.len() == 0 {
            split_rec(s.drop_first(), delims, Seq::empty())
        } else {
            seq![cur] + split_rec(s.drop_first(), delims, Seq::empty())
        }
    } else {
        split_rec(s.drop_first(), delims, cur.push(s[0]))
    }
}

/// The segment sequence of a key under a delimiter set.
pub open spec fn split_segments(s: Seq<char>, delims: Seq<char>) -> Seq<Seq<char>> {
    split_rec(s, delims, Seq::empty())
}

/// A well-formed segment: non-empty and free of delimiter characters.
pub open spec fn wf_segment(seg: Seq<char>, delims: Seq<char>) -> bool {
    &&& seg.len() > 0
    &&& forall|i: int| 0 <= i < seg.len() ==> !is_delim(delims, seg[i])
}

/// Every listed segment is well-formed.
pub open spec fn wf_segments(segs: Seq<Seq<char>>, delims: Seq<char>) -> bool {
    forall|k: int| 0 <= k < segs.len() ==> wf_segment(#[trigger] segs[k], delims)
}

/// The views of a vector of segment strings.
pub open spec fn segs_model(parts: Seq<String>) -> Seq<Seq<char>> {
    Seq::new(parts.len(), |i: int| parts[i]@)
}

/// Whether `c` occurs in the delimiter vector.
fn contains_char(delims: &Vec<char>, c: char) -> (r: bool)
    ensures
        r == is_delim(delims@, c),
{
    let n = delims.len();
    let mut i: usize = 0;
    while i < n
        invariant
            i <= n,
            n == delims@.len(),
            forall|j: int| 0 <= j < i ==> delims@[j] != c,
        decreases n - i,
    {
        if delims[i] == c {
            return true;
        }
        i += 1;
    }
    false
}

/// Split a key into its non-empty segments on any configured delimiter.
pub fn split_key(key: &str, delimiters: &Vec<char>) -> (parts: Vec<String>)
    ensures
        segs_model(parts@) == split_segments(key@, delimiters@),
{
    let n = key.unicode_len();
    let mut parts: Vec<String> = Vec::new();
    let mut start: usize = 0;
    let mut i: usize = 0;
    proof {
        assert(key@.skip(0) =~= key@);
        assert(key@.subrange(0, 0) =~= Seq::<char>::empty());
        assert(segs_model(parts@) =~= Seq::<Seq<char>>::empty());
        assert(segs_model(parts@) + split_rec(key@, delimiters@, Seq::<char>::empty()) =~= split_rec(
            key@,
            delimiters@,
            Seq::<char>::empty(),
        ));
    }
    while i < n
        invariant
            start <= i <= n,
            n == key@.len(),
            split_segments(key@, delimiters@) == segs_model(parts@) + split_rec(
                key@.skip(i as int),
                delimiters@,
                key@.subrange(start as int, i as int),
            ),
        decreases n - i,
    {
        let ghost prev_parts = parts@;
        let ghost rest = key@.skip(i as int);
        let ghost cur = key@.subrange(start as int, i as int);
        let c = key.get_char(i);
        proof {
            assert(rest[0] == key@[i as int]);
            assert(rest.drop_first() =~= key@.skip(i + 1));
        }
        if contains_char(delimiters, c) {
            if i > start {
                let seg = key.substring_char(start, i);
                parts.push(seg.to_owned());
                proof {
                    assert(segs_model(parts@) =~= segs_model(prev_parts) + seq![cur]);
                    assert(segs_model(parts@) + split_rec(
                        key@.skip(i + 1),
                        delimiters@,
                        Seq::empty(),
                    ) =~= segs_model(prev_parts) + (seq![cur] + split_rec(
                        key@.skip(i + 1),
                        delimiters@,
                        Seq::empty(),
                    )));
                }
            }
            start = i + 1;
            proof {
                assert(key@.subrange(start as int, i + 1) =~= Seq::<char>::empty());
            }
        } else {
            proof {
                assert(cur.push(key@[i as int]) =~= key@.subrange(start as int, i + 1));
            }
        }
        i += 1;
    }
    proof {
        assert(key@.skip(n as int) =~= Seq::<char>::empty());
    }
    if start < n {
        let ghost prev_parts = parts@;
        let seg = key.substring_char(start, n);
        parts.push(seg.to_owned());
        proof {
            assert(segs_model(parts@) =~= segs_model(prev_parts) + seq![
                key@.subrange(start as int, n as int),
            ]);
        }
    } else {
        proof {
            assert(key@.subrange(start as int, n as int).len() == 0);
            assert(segs_model(parts@) =~= segs_model(parts@) + Seq::<Seq<char>>::empty());
        }
    }
    parts
}

/// Joining segments with a single delimiter character between them.
pub open spec fn join_with(segs: Seq<Seq<char>>, d: char) -> Seq<char>
    decreases segs.len(),
{
    if segs.len() == 0 {
        Seq::empty()
    } else if segs.len() == 1 {
        segs[0]
    } else {
        segs[0] + seq![d] + join_with(segs.drop_first(), d)
    }
}

/// Relies on char::to_string: the returned string holds exactly the one
/// character it was given.
#[verifier::external_body]
pub(crate) fn char_to_string(c: char) -> (r: String)
    ensures
        r@ == seq![c],
{
    c.to_string()
}

/// Appending one more segment extends the join by one separator and the
/// segment (or is the segment itself when the list was empty).
proof fn lemma_join_push(segs: Seq<Seq<char>>, x: Seq<char>, d: char)
    ensures
        segs.len() == 0 ==> join_with(segs.push(x), d) == x,
        segs.len() > 0 ==> join_with(segs.push(x), d) == join_with(segs, d) + seq![d] + x,
    decreases segs.len(),
{
    if segs.len() == 0 {
        assert(segs.push(x) =~= seq![x]);
    } else if segs.len() == 1 {
        assert(segs.push(x)[0] == segs[0]);
        assert(segs.push(x).drop_first() =~= seq![x]);
        assert(join_with(seq![x], d) == x);
    } else {
        assert(segs.push(x).drop_first() =~= segs.drop_first().push(x));
        lemma_join_push(segs.drop_first(), x, d);
        assert(join_with(segs.push(x), d) == segs[0] + seq![d] + (join_with(segs.drop_first(), d)
            + seq![d] + x));
        assert(segs[0] + seq![d] + (join_with(segs.drop_first(), d) + seq![d] + x) =~= (segs[0]
            + seq![d] + join_with(segs.drop_first(), d)) + seq![d] + x);
    }
}

/// Join segment strings with a delimiter character between them.
pub fn join_segments(parts: &Vec<String>, d: char) -> (r: String)
    ensures
        r@ == join_with(segs_model(parts@), d),
{
    let mut r = String::new();
    let n = parts.len();
    let mut i: usize = 0;
    proof {
        assert(segs_model(parts@).take(0) =~= Seq::<Seq<char>>::empty());
    }
    while i < n
        invariant
            i <= n,
            n == parts@.len(),
            r@ == join_with(segs_model(parts@).take(i as int), d),
        decreases n - i,
    {
        let ghost sm = segs_model(parts@);
        proof {
            assert(sm.take(i + 1) =~= sm.take(i as int).push(sm[i as int]));
            lemma_join_push(sm.take(i as int), sm[i as int], d);
        }
        if i > 0 {
            let sep = char_to_string(d);
            r.append(sep.as_str());
        } else {
            proof {
                assert(r@ + parts@[i as int]@ =~= parts@[i as int]@);
            }
        }
        r.append(parts[i].as_str());
        i += 1;
    }
    proof {
        assert(segs_model(parts@).take(n as int) =~= segs_model(parts@));
    }
    r
}

/// Splitting always yields well-formed segments, whatever partial segment has
/// been read so far (as long as it is itself delimiter-free).
proof fn lemma_split_rec_wf(s: Seq<char>, delims: Seq<char>, cur: Seq<char>)
    requires
        forall|i: int| 0 <= i < cur.len() ==> !is_delim(delims, cur[i]),
    ensures
        wf_segments(split_rec(s, delims, cur), delims),
    decreases s.len(),
{
    if s.len() == 0 {
    } else if is_delim(delims, s[0]) {
        lemma_split_rec_wf(s.drop_first(), delims, Seq::empty());
        if cur.len() > 0 {
            let res = seq![cur] + split_rec(s.drop_first(), delims, Seq::empty());
            assert forall|k: int| 0 <= k < res.len() implies wf_segment(#[trigger] res[k], delims) by {
                if k > 0 {
                    assert(res[k] == split_rec(s.drop_first(), delims, Seq::<char>::empty())[k - 1]);
                }
            }
        }
    } else {
        assert(forall|i: int|
            0 <= i < cur.push(s[0]).len() ==> !is_delim(delims, cur.push(s[0])[i]));
        lemma_split_rec_wf(s.drop_first(), delims, cur.push(s[0]));
    }
}

/// Law: every segment that splitting produces is non-empty and contains no
/// delimiter character.
pub proof fn lemma_split_segments_wf(s: Seq<char>, delims: Seq<char>)
    ensures
        wf_segments(split_segments(s, delims), delims),
{
    lemma_split_rec_wf(s, delims, Seq::empty());
}

/// Reading a delimiter-free prefix only extends the partial segment.
proof fn lemma_split_rec_prefix(seg: Seq<char>, rest: Seq<char>, delims: Seq<char>, cur: Seq<char>)
    requires
        forall|i: int| 0 <= i < seg.len() ==> !is_delim(delims, seg[i]),
    ensures
        split_rec(seg + rest, delims, cur) == split_rec(rest, delims, cur + seg),
    decreases seg.len(),
{
    if seg.len() == 0 {
        assert(seg + rest =~= rest);
        assert(cur + seg =~= cur);
    } else {
        assert((seg + rest)[0] == seg[0]);
        assert((seg + rest).drop_first() =~= seg.drop_first() + rest);
        lemma_split_rec_prefix(seg.drop_first(), rest, delims, cur.push(seg[0]));
        assert(cur.push(seg[0]) + seg.drop_first() =~= cur + seg);
    }
}

/// Law: joining well-formed segments with any configured delimiter and
/// re-splitting with the same delimiter set reproduces the segments. In
/// particular, for a key whose split has no empty segments dropped, the full
/// segment path of its leaf round-trips through any single delimiter.
pub proof fn lemma_join_split_roundtrip(segs: Seq<Seq<char>>, delims: Seq<char>, d: char)
    requires
        is_delim(delims, d),
        wf_segments(segs, delims),
    ensures
        split_segments(join_with(segs, d), delims) == segs,
    decreases segs.len(),
{
    if segs.len() == 0 {
        assert(split_segments(Seq::empty(), delims) =~= segs);
    } else if segs.len() == 1 {
        lemma_split_rec_prefix(segs[0], Seq::empty(), delims, Seq::empty());
        assert(segs[0] + Seq::<char>::empty() =~= segs[0]);
        assert(Seq::<char>::empty() + segs[0] =~= segs[0]);
        assert(split_segments(join_with(segs, d), delims) == seq![segs[0]]);
        assert(seq![segs[0]] =~= segs);
    } else {
        let rest = segs.drop_first();
        let tail = seq![d] + join_with(rest, d);
        assert(wf_segments(rest, delims)) by {
            assert(forall|k: int| 0 <= k < rest.len() ==> rest[k] == segs[k + 1]);
        }
        assert(join_with(segs, d) =~= segs[0] + tail);
        lemma_split_rec_prefix(segs[0], tail, delims, Seq::empty());
        assert(Seq::<char>::empty() + segs[0] =~= segs[0]);
        // the head of `tail` is the delimiter, ending the first segment
        assert(tail[0] == d);
        assert(tail.drop_first() =~= join_with(rest, d));
        assert(segs[0].len() > 0);
        assert(split_rec(tail, delims, segs[0]) == seq![segs[0]] + split_rec(
            join_with(rest, d),
            delims,
            Seq::empty(),
        ));
        lemma_join_split_roundtrip(rest, delims, d);
        assert(seq![segs[0]] + rest =~= segs);
    }
}

} // verus!
