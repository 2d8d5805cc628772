//! Chunk planning: a transcript longer than the budget is cut into
//! consecutive pieces of a fixed number of characters. The cut is purely by
//! length and may fall inside a word.
use vstd::prelude::*;
use crate::text::{chars_of, string_of, string_views};

verus! {

/// The chunks of `t` for the budget `limit`: `t` itself when it fits,
/// otherwise pieces of exactly `limit` characters and a shorter or equal rest.
pub open spec fn chunks(t: Seq<char>, limit: nat) -> Seq<Seq<char>>
    decreases t.len(),
{
    if limit == 0 || t.len() <= limit {
        seq![t]
    } else {
        seq![t.take(limit as int)] + chunks(t.skip(limit as int), limit)
    }
}

/// The pieces of `ls` concatenated in order.
pub open spec fn concat_all(ls: Seq<Seq<char>>) -> Seq<char>
    decreases ls.len(),
{
    if ls.len() == 0 {
        Seq::empty()
    } else {
        ls[0] + concat_all(ls.drop_first())
    }
}

/// The chunks put back together give the transcript; every chunk holds at
/// most `limit` characters, and every chunk but the last exactly `limit`.
pub proof fn lemma_chunks_partition(t: Seq<char>, limit: nat)
    requires
        limit > 0,
    ensures
        chunks(t, limit).len() >= 1,
        concat_all(chunks(t, limit)) == t,
        forall|i: int|
            0 <= i < chunks(t, limit).len() ==> (#[trigger] chunks(t, limit)[i]).len() <= limit,
        forall|i: int|
            0 <= i < chunks(t, limit).len() - 1 ==> (#[trigger] chunks(t, limit)[i]).len()
                == limit,
        t.len() <= limit ==> chunks(t, limit).len() == 1,
    decreases t.len(),
{
    let cs = chunks(t, limit);
    if t.len() <= limit {
        assert(cs.drop_first() =~= Seq::<Seq<char>>::empty());
        assert(concat_all(cs.drop_first()) == Seq::<char>::empty());
        assert(t + Seq::<char>::empty() =~= t);
    } else {
        let rest = t.skip(limit as int);
        lemma_chunks_partition(rest, limit);
        let rs = chunks(rest, limit);
        assert(cs.drop_first() =~= rs);
        assert(cs[0] == t.take(limit as int));
        assert(t.take(limit as int) + rest =~= t);
        assert forall|i: int| 0 <= i < cs.len() implies (#[trigger] cs[i]).len() <= limit by {
            if i > 0 {
                assert(cs[i] == rs[i - 1]);
            }
        }
        assert forall|i: int| 0 <= i < cs.len() - 1 implies (#[trigger] cs[i]).len() == limit by {
            if i > 0 {
                assert(cs[i] == rs[i - 1]);
            }
        }
    }
}

/// Splits a transcript into chunks of `limit` characters (the last one
/// holds the rest). A transcript of at most `limit` characters, the empty
/// one included, is returned as a single chunk.
pub fn plan_chunks(transcript: &str, limit: usize) -> (r: Vec<String>)
    requires
        limit > 0,
    ensures
        string_views(r@) == chunks(transcript@, limit as nat),
        r.len() >= 1,
        concat_all(string_views(r@)) == transcript@,
        forall|i: int| 0 <= i < r.len() ==> (#[trigger] r@[i])@.len() <= limit,
        forall|i: int| 0 <= i < r.len() - 1 ==> (#[trigger] r@[i])@.len() == limit,
        transcript@.len() <= limit ==> r.len() == 1,
{
    let t = chars_of(transcript);
    let mut out: Vec<String> = Vec::new();
    let mut pos: usize = 0;
    assert(t@.skip(0) =~= t@);
    assert(string_views(out@) =~= Seq::<Seq<char>>::empty());
    while t.len() - pos > limit
        invariant
            limit > 0,
            pos <= t.len(),
            string_views(out@) + chunks(t@.skip(pos as int), limit as nat) == chunks(t@, limit as nat),
        decreases t.len() - pos,
    {
        let ghost before = string_views(out@);
        let ghost rest = t@.skip(pos as int);
        let mut piece: Vec<char> = Vec::new();
        let mut k: usize = pos;
        while k < pos + limit
            invariant
                pos <= k <= pos + limit <= t.len(),
                piece@ == t@.subrange(pos as int, k as int),
            decreases pos + limit - k,
        {
            piece.push(t[k]);
            assert(piece@ =~= t@.subrange(pos as int, k + 1));
            k = k + 1;
        }
        let s = string_of(&piece);
        out.push(s);
        assert(rest.take(limit as int) =~= piece@);
        assert(rest.skip(limit as int) =~= t@.skip(pos + limit));
        assert(string_views(out@) =~= before.push(piece@));
        assert(before + chunks(rest, limit as nat) =~= string_views(out@) + chunks(
            t@.skip(pos + limit),
            limit as nat,
        ));
        pos = pos + limit;
    }
    let ghost before = string_views(out@);
    let mut piece: Vec<char> = Vec::new();
    let mut k: usize = pos;
    while k < t.len()
        invariant
            pos <= k <= t.len(),
            piece@ == t@.subrange(pos as int, k as int),
        decreases t.len() - k,
    {
        piece.push(t[k]);
        assert(piece@ =~= t@.subrange(pos as int, k + 1));
        k = k + 1;
    }
    out.push(string_of(&piece));
    assert(t@.skip(pos as int) =~= piece@);
    assert(string_views(out@) =~= before.push(piece@));
    assert(string_views(out@) =~= chunks(t@, limit as nat));
    proof {
        lemma_chunks_partition(t@, limit as nat);
        assert forall|i: int| 0 <= i < out.len() implies (#[trigger] out@[i])@ == chunks(
            t@,
            limit as nat,
        )[i] by {
            assert(string_views(out@)[i] == out@[i]@);
        }
    }
    out
}

} // verus!
