//! Properties of caption normalization: uniqueness of kept lines, absence of
//! cue-timing lines, and idempotence on its own output.
use vstd::prelude::*;
use crate::text::is_ws;
use crate::caption::{
    close_tag_at, first_gt, is_header, join_words, kind_marker, language_marker, lemma_first_gt,
    nbsp_at, starts_with, tag_at, timing_tag_at, webvtt_marker, clean, is_content, is_cue_timing, keep_step, kept_lines, normalized, split_lines, collapse_ws_from, decode_nbsp_from, lemma_ws_run_end, lemma_ws_run_start, strip_tags_from,
    strip_timing_from, trim, ws_run_end, ws_run_start,
};

verus! {

/// Whitespace only as single spaces between non-whitespace characters.
pub open spec fn tidy(s: Seq<char>) -> bool {
    forall|i: int|
        0 <= i < s.len() && is_ws(#[trigger] s[i]) ==> s[i] == ' ' && 0 < i && i + 1 < s.len()
            && !is_ws(s[i + 1])
}

/// Every whitespace character is a space, and none is followed by whitespace.
pub open spec fn spaced(s: Seq<char>) -> bool {
    forall|i: int|
        0 <= i < s.len() && is_ws(#[trigger] s[i]) ==> s[i] == ' ' && (i + 1 < s.len() ==> !is_ws(
            s[i + 1],
        ))
}

proof fn lemma_collapse_spaced(s: Seq<char>, i: int)
    requires
        0 <= i <= s.len(),
    ensures
        spaced(collapse_ws_from(s, i)),
        collapse_ws_from(s, i).len() > 0 ==> i < s.len() && (is_ws(s[i]) ==> collapse_ws_from(
            s,
            i,
        )[0] == ' ') && (!is_ws(s[i]) ==> collapse_ws_from(s, i)[0] == s[i]),
    decreases s.len() - i,
{
    if i < s.len() {
        if is_ws(s[i]) {
            let e = ws_run_end(s, i);
            lemma_ws_run_end(s, i);
            lemma_collapse_spaced(s, e);
            let rest = collapse_ws_from(s, e);
            let out = seq![' '] + rest;
            assert(out == collapse_ws_from(s, i));
            assert forall|k: int| 0 <= k < out.len() && is_ws(#[trigger] out[k]) implies out[k]
                == ' ' && (k + 1 < out.len() ==> !is_ws(out[k + 1])) by {
                if k > 0 {
                    assert(out[k] == rest[k - 1]);
                    if k + 1 < out.len() {
                        assert(out[k + 1] == rest[k]);
                    }
                } else if k + 1 < out.len() {
                    assert(out[1] == rest[0]);
                }
            }
        } else {
            lemma_collapse_spaced(s, i + 1);
            let rest = collapse_ws_from(s, i + 1);
            let out = seq![s[i]] + rest;
            assert(out == collapse_ws_from(s, i));
            assert forall|k: int| 0 <= k < out.len() && is_ws(#[trigger] out[k]) implies out[k]
                == ' ' && (k + 1 < out.len() ==> !is_ws(out[k + 1])) by {
                if k > 0 {
                    assert(out[k] == rest[k - 1]);
                    if k + 1 < out.len() {
                        assert(out[k + 1] == rest[k]);
                    }
                }
            }
        }
    }
}

proof fn lemma_trim_tidy(t: Seq<char>)
    requires
        spaced(t),
    ensures
        tidy(trim(t)),
{
    let a = ws_run_end(t, 0);
    lemma_ws_run_end(t, 0);
    if a < t.len() {
        let b = ws_run_start(t, t.len() as int);
        lemma_ws_run_start(t, t.len() as int);
        let r = t.subrange(a, b);
        assert forall|k: int| 0 <= k < r.len() && is_ws(#[trigger] r[k]) implies r[k] == ' ' && 0
            < k && k + 1 < r.len() && !is_ws(r[k + 1]) by {
            assert(r[k] == t[a + k]);
            assert(a + k + 1 < b);
            assert(r[k + 1] == t[a + k + 1]);
        }
    }
}

/// A cleaned line has whitespace only as single inner spaces.
pub proof fn lemma_clean_tidy(line: Seq<char>)
    ensures
        tidy(clean(line)),
{
    let c = strip_tags_from(decode_nbsp_from(strip_timing_from(line, 0), 0), 0);
    lemma_collapse_spaced(c, 0);
    lemma_trim_tidy(collapse_ws_from(c, 0));
}

/// Every kept line is cleaned content: tidy, not empty, not a header and not a
/// cue-timing line.
pub proof fn lemma_kept_lines_content(lines: Seq<Seq<char>>)
    ensures
        forall|k: int|
            0 <= k < kept_lines(lines).len() ==> is_content(#[trigger] kept_lines(lines)[k]) && tidy(
                kept_lines(lines)[k],
            ),
    decreases lines.len(),
{
    if lines.len() > 0 {
        let prev = kept_lines(lines.drop_last());
        lemma_kept_lines_content(lines.drop_last());
        lemma_clean_tidy(lines.last());
        let next = kept_lines(lines);
        assert(next == keep_step(prev, lines.last()));
        assert forall|k: int| 0 <= k < next.len() implies is_content(#[trigger] next[k]) && tidy(
            next[k],
        ) by {
            if k < prev.len() {
                assert(next[k] == prev[k]);
            }
        }
    }
}

/// No two kept lines are equal.
pub proof fn lemma_kept_lines_distinct(lines: Seq<Seq<char>>)
    ensures
        kept_lines(lines).no_duplicates(),
    decreases lines.len(),
{
    if lines.len() > 0 {
        let prev = kept_lines(lines.drop_last());
        lemma_kept_lines_distinct(lines.drop_last());
        let c = clean(lines.last());
        if is_content(c) && !prev.contains(c) {
            let next = prev.push(c);
            assert forall|i: int, j: int|
                0 <= i < next.len() && 0 <= j < next.len() && i != j implies next[i] != next[j] by {
                if i == prev.len() {
                    assert(prev[j] == next[j]);
                } else if j == prev.len() {
                    assert(prev[i] == next[i]);
                }
            }
        }
    }
}

/// The lines kept from any caption text are pairwise distinct: a repeated
/// line survives only at its first occurrence.
pub proof fn lemma_normalize_lines_unique(raw: Seq<char>)
    ensures
        forall|i: int, j: int|
            0 <= i < j < kept_lines(split_lines(raw)).len() ==> kept_lines(split_lines(raw))[i]
                != kept_lines(split_lines(raw))[j],
{
    lemma_kept_lines_distinct(split_lines(raw));
}

/// No line kept from any caption text is a cue-timing line.
pub proof fn lemma_normalize_drops_cue_timing(raw: Seq<char>)
    ensures
        forall|i: int|
            0 <= i < kept_lines(split_lines(raw)).len() ==> !is_cue_timing(
                #[trigger] kept_lines(split_lines(raw))[i],
            ),
{
    lemma_kept_lines_content(split_lines(raw));
}

/// `s` holds an `&nbsp;` entity.
pub open spec fn has_nbsp(s: Seq<char>) -> bool {
    exists|i: int| nbsp_at(s, i)
}

/// `s` holds a `<` with a `>` somewhere after it.
pub open spec fn has_angle_pair(s: Seq<char>) -> bool {
    exists|i: int, j: int| 0 <= i < j < s.len() && s[i] == '<' && s[j] == '>'
}

proof fn lemma_strip_timing_identity(t: Seq<char>, i: int)
    requires
        0 <= i <= t.len(),
        !has_angle_pair(t),
    ensures
        strip_timing_from(t, i) == t.subrange(i, t.len() as int),
    decreases t.len() - i,
{
    if i < t.len() {
        if timing_tag_at(t, i) {
            assert(t[i] == '<' && t[i + 13] == '>');
        }
        if close_tag_at(t, i) {
            assert(t[i] == '<' && t[i + 3] == '>');
        }
        lemma_strip_timing_identity(t, i + 1);
        assert(seq![t[i]] + t.subrange(i + 1, t.len() as int) =~= t.subrange(i, t.len() as int));
    } else {
        assert(t.subrange(i, t.len() as int) =~= Seq::<char>::empty());
    }
}

proof fn lemma_decode_nbsp_identity(t: Seq<char>, i: int)
    requires
        0 <= i <= t.len(),
        !has_nbsp(t),
    ensures
        decode_nbsp_from(t, i) == t.subrange(i, t.len() as int),
    decreases t.len() - i,
{
    if i < t.len() {
        assert(!nbsp_at(t, i));
        lemma_decode_nbsp_identity(t, i + 1);
        assert(seq![t[i]] + t.subrange(i + 1, t.len() as int) =~= t.subrange(i, t.len() as int));
    } else {
        assert(t.subrange(i, t.len() as int) =~= Seq::<char>::empty());
    }
}

proof fn lemma_strip_tags_identity(t: Seq<char>, i: int)
    requires
        0 <= i <= t.len(),
        !has_angle_pair(t),
    ensures
        strip_tags_from(t, i) == t.subrange(i, t.len() as int),
    decreases t.len() - i,
{
    if i < t.len() {
        if tag_at(t, i) {
            lemma_first_gt(t, i + 1);
            assert(t[i] == '<' && t[first_gt(t, i + 1)] == '>');
        }
        lemma_strip_tags_identity(t, i + 1);
        assert(seq![t[i]] + t.subrange(i + 1, t.len() as int) =~= t.subrange(i, t.len() as int));
    } else {
        assert(t.subrange(i, t.len() as int) =~= Seq::<char>::empty());
    }
}

proof fn lemma_collapse_identity(t: Seq<char>, i: int)
    requires
        0 <= i <= t.len(),
        tidy(t),
    ensures
        collapse_ws_from(t, i) == t.subrange(i, t.len() as int),
    decreases t.len() - i,
{
    if i < t.len() {
        if is_ws(t[i]) {
            assert(t[i] == ' ' && i + 1 < t.len() && !is_ws(t[i + 1]));
            assert(ws_run_end(t, i + 1) == i + 1);
            assert(ws_run_end(t, i) == i + 1);
        }
        lemma_collapse_identity(t, i + 1);
        assert(seq![t[i]] + t.subrange(i + 1, t.len() as int) =~= t.subrange(i, t.len() as int));
    } else {
        assert(t.subrange(i, t.len() as int) =~= Seq::<char>::empty());
    }
}

proof fn lemma_trim_identity(t: Seq<char>)
    requires
        tidy(t),
    ensures
        trim(t) == t,
{
    if t.len() == 0 {
        assert(trim(t) =~= t);
    } else {
        assert(!is_ws(t[0]));
        assert(!is_ws(t[t.len() - 1]));
        assert(ws_run_end(t, 0) == 0);
        assert(ws_run_start(t, t.len() as int) == t.len());
        assert(t.subrange(0, t.len() as int) =~= t);
    }
}

/// Cleanup leaves a tidy line without entities or markup unchanged.
pub proof fn lemma_clean_identity(t: Seq<char>)
    requires
        tidy(t),
        !has_nbsp(t),
        !has_angle_pair(t),
    ensures
        clean(t) == t,
{
    assert(t.subrange(0, t.len() as int) =~= t);
    lemma_strip_timing_identity(t, 0);
    lemma_decode_nbsp_identity(t, 0);
    lemma_strip_tags_identity(t, 0);
    lemma_collapse_identity(t, 0);
    lemma_trim_identity(t);
}

proof fn lemma_join_tidy(ls: Seq<Seq<char>>)
    requires
        forall|k: int| 0 <= k < ls.len() ==> (#[trigger] ls[k]).len() > 0 && tidy(ls[k]),
    ensures
        tidy(join_words(ls)),
        ls.len() > 0 ==> join_words(ls).len() > 0,
    decreases ls.len(),
{
    if ls.len() > 1 {
        let a = join_words(ls.drop_last());
        let b = ls.last();
        assert(ls.drop_last()[0] == ls[0]);
        assert forall|k: int| 0 <= k < ls.drop_last().len() implies (#[trigger] ls.drop_last()[
            k]).len() > 0 && tidy(ls.drop_last()[k]) by {
            assert(ls.drop_last()[k] == ls[k]);
        }
        lemma_join_tidy(ls.drop_last());
        assert(ls[ls.len() - 1] == b);
        let j = a + seq![' '] + b;
        assert(j == join_words(ls));
        assert forall|i: int| 0 <= i < j.len() && is_ws(#[trigger] j[i]) implies j[i] == ' ' && 0
            < i && i + 1 < j.len() && !is_ws(j[i + 1]) by {
            if i < a.len() {
                assert(j[i] == a[i]);
                assert(j[i + 1] == a[i + 1]);
            } else if i == a.len() {
                assert(!is_ws(a[a.len() - 1]));
                assert(j[i - 1] == a[a.len() - 1]);
                assert(j[i + 1] == b[0]);
                assert(!is_ws(b[0]));
            } else {
                assert(j[i] == b[i - a.len() - 1]);
                if i + 1 < j.len() {
                    assert(j[i + 1] == b[i - a.len()]);
                }
            }
        }
    } else if ls.len() == 1 {
        assert(ls[0].len() > 0 && tidy(ls[0]));
    }
}

proof fn lemma_join_prefix(ls: Seq<Seq<char>>)
    requires
        ls.len() >= 1,
    ensures
        join_words(ls).len() >= ls[0].len(),
        join_words(ls).subrange(0, ls[0].len() as int) == ls[0],
        ls.len() >= 2 ==> join_words(ls).len() > ls[0].len() && join_words(ls)[ls[0].len() as int]
            == ' ',
    decreases ls.len(),
{
    let n = ls[0].len() as int;
    if ls.len() == 1 {
        assert(join_words(ls).subrange(0, n) =~= ls[0]);
    } else {
        let d = ls.drop_last();
        assert(d[0] == ls[0]);
        lemma_join_prefix(d);
        let a = join_words(d);
        let j = a + seq![' '] + ls.last();
        assert(j == join_words(ls));
        assert(j.subrange(0, n) =~= a.subrange(0, n));
        if ls.len() == 2 {
            assert(a == ls[0]);
            assert(j[n] == ' ');
        } else {
            assert(j[n] == a[n]);
        }
    }
}

proof fn lemma_join_not_starts(ls: Seq<Seq<char>>, p: Seq<char>)
    requires
        ls.len() >= 1,
        !starts_with(ls[0], p),
        forall|k: int| 0 <= k < p.len() ==> p[k] != ' ',
    ensures
        !starts_with(join_words(ls), p),
{
    lemma_join_prefix(ls);
    let t = join_words(ls);
    let n = ls[0].len() as int;
    if starts_with(t, p) {
        if p.len() <= n {
            assert(ls[0].subrange(0, p.len() as int) =~= t.subrange(0, p.len() as int));
        } else if ls.len() >= 2 {
            assert(t.subrange(0, p.len() as int)[n] == t[n]);
        } else {
            assert(t == ls[0]);
        }
    }
}

proof fn lemma_split_single(t: Seq<char>)
    requires
        forall|i: int| 0 <= i < t.len() ==> t[i] != '\n',
    ensures
        split_lines(t) == seq![t],
    decreases t.len(),
{
    if t.len() > 0 {
        let d = t.drop_last();
        assert forall|i: int| 0 <= i < d.len() implies d[i] != '\n' by {
            assert(d[i] == t[i]);
        }
        lemma_split_single(d);
        assert(t[t.len() - 1] != '\n');
        assert(d.push(t.last()) =~= t);
        assert(split_lines(d).update(0, d.push(t.last())) =~= seq![t]);
    } else {
        assert(t =~= Seq::<char>::empty());
    }
}

/// Normalizing a normalized transcript again leaves it unchanged, as long as
/// it holds nothing that cleanup would still rewrite: no `&nbsp;` entity, no
/// `<` followed later by `>`, and no cue-timing line at its start. (Such text
/// can appear when a tag removal or the joining of two lines brings pieces
/// together; on it the second pass changes the transcript.)
pub proof fn lemma_normalize_idempotent(raw: Seq<char>)
    requires
        !has_nbsp(normalized(raw)),
        !has_angle_pair(normalized(raw)),
        !is_cue_timing(normalized(raw)),
    ensures
        normalized(normalized(raw)) == normalized(raw),
{
    let ls = kept_lines(split_lines(raw));
    let t = join_words(ls);
    lemma_kept_lines_content(split_lines(raw));
    lemma_join_tidy(ls);
    lemma_clean_identity(t);
    assert forall|i: int| 0 <= i < t.len() implies t[i] != '\n' by {
        if t[i] == '\n' {
            assert(is_ws(t[i]));
        }
    }
    lemma_split_single(t);
    let one = seq![t];
    assert(one.drop_last() =~= Seq::<Seq<char>>::empty());
    assert(one.last() == t);
    assert(kept_lines(one.drop_last()) == Seq::<Seq<char>>::empty());
    assert(kept_lines(one) == keep_step(Seq::empty(), t));
    if t.len() > 0 {
        assert(ls.len() >= 1);
        assert(is_content(ls[0]));
        lemma_join_not_starts(ls, webvtt_marker());
        lemma_join_not_starts(ls, kind_marker());
        lemma_join_not_starts(ls, language_marker());
        assert(!is_header(t));
        assert(is_content(t));
        assert(kept_lines(one) =~= seq![t]);
    } else {
        assert(kept_lines(one) =~= Seq::<Seq<char>>::empty());
    }
}

} // verus!
