//! Caption normalization: raw WebVTT-style caption text becomes one line of
//! deduplicated, timestamp-free prose.
use vstd::prelude::*;
use vstd::utf8::{decode_utf8, encode_utf8, encode_utf8_decode_utf8, valid_utf8};
use crate::text::{chars_of, is_ws, is_whitespace_char, string_of};

verus! {

pub open spec fn is_digit(c: char) -> bool {
    48 <= (c as u32) && (c as u32) <= 57
}

/// `hh:mm:ss.mmm` starts at position `p` of `s`.
pub open spec fn timestamp_at(s: Seq<char>, p: int) -> bool {
    &&& 0 <= p && p + 12 <= s.len()
    &&& is_digit(s[p]) && is_digit(s[p + 1]) && s[p + 2] == ':'
    &&& is_digit(s[p + 3]) && is_digit(s[p + 4]) && s[p + 5] == ':'
    &&& is_digit(s[p + 6]) && is_digit(s[p + 7]) && s[p + 8] == '.'
    &&& is_digit(s[p + 9]) && is_digit(s[p + 10]) && is_digit(s[p + 11])
}

/// A cue-timing line: it begins with `hh:mm:ss.mmm --> hh:mm:ss.mmm`; cue
/// settings may follow.
pub open spec fn is_cue_timing(s: Seq<char>) -> bool {
    &&& timestamp_at(s, 0)
    &&& s.len() >= 29
    &&& s[12] == ' ' && s[13] == '-' && s[14] == '-' && s[15] == '>' && s[16] == ' '
    &&& timestamp_at(s, 17)
}

/// An embedded per-word timing tag `<hh:mm:ss.mmm><c>` (17 characters) starts at `i`.
pub open spec fn timing_tag_at(s: Seq<char>, i: int) -> bool {
    &&& 0 <= i && i + 17 <= s.len()
    &&& s[i] == '<' && timestamp_at(s, i + 1) && s[i + 13] == '>'
    &&& s[i + 14] == '<' && s[i + 15] == 'c' && s[i + 16] == '>'
}

/// A closing cue marker `</c>` starts at `i`.
pub open spec fn close_tag_at(s: Seq<char>, i: int) -> bool {
    &&& 0 <= i && i + 4 <= s.len()
    &&& s[i] == '<' && s[i + 1] == '/' && s[i + 2] == 'c' && s[i + 3] == '>'
}

/// The entity `&nbsp;` starts at `i`.
pub open spec fn nbsp_at(s: Seq<char>, i: int) -> bool {
    &&& 0 <= i && i + 6 <= s.len()
    &&& s[i] == '&' && s[i + 1] == 'n' && s[i + 2] == 'b' && s[i + 3] == 's'
    &&& s[i + 4] == 'p' && s[i + 5] == ';'
}

/// The first position at or after `k` that holds `>`, or `s.len()`.
pub open spec fn first_gt(s: Seq<char>, k: int) -> int
    decreases s.len() - k,
{
    if k < 0 || k >= s.len() {
        s.len() as int
    } else if s[k] == '>' {
        k
    } else {
        first_gt(s, k + 1)
    }
}

pub proof fn lemma_first_gt(s: Seq<char>, k: int)
    requires
        0 <= k <= s.len(),
    ensures
        k <= first_gt(s, k) <= s.len(),
        first_gt(s, k) < s.len() ==> s[first_gt(s, k)] == '>',
        forall|m: int| k <= m < first_gt(s, k) ==> s[m] != '>',
    decreases s.len() - k,
{
    if k < s.len() && s[k] != '>' {
        lemma_first_gt(s, k + 1);
    }
}

/// A markup tag `<...>` (no `>` inside) starts at `i`.
pub open spec fn tag_at(s: Seq<char>, i: int) -> bool {
    0 <= i < s.len() && s[i] == '<' && first_gt(s, i + 1) < s.len()
}

/// The first position at or after `k` that holds no whitespace, or `s.len()`.
pub open spec fn ws_run_end(s: Seq<char>, k: int) -> int
    decreases s.len() - k,
{
    if k < 0 || k >= s.len() {
        s.len() as int
    } else if is_ws(s[k]) {
        ws_run_end(s, k + 1)
    } else {
        k
    }
}

pub proof fn lemma_ws_run_end(s: Seq<char>, k: int)
    requires
        0 <= k <= s.len(),
    ensures
        k <= ws_run_end(s, k) <= s.len(),
        ws_run_end(s, k) < s.len() ==> !is_ws(s[ws_run_end(s, k)]),
        forall|m: int| k <= m < ws_run_end(s, k) ==> is_ws(s[m]),
    decreases s.len() - k,
{
    if k < s.len() && is_ws(s[k]) {
        lemma_ws_run_end(s, k + 1);
    }
}

/// The start of the run of whitespace that ends just before `k`.
pub open spec fn ws_run_start(s: Seq<char>, k: int) -> int
    decreases k,
{
    if k <= 0 || k > s.len() {
        0
    } else if is_ws(s[k - 1]) {
        ws_run_start(s, k - 1)
    } else {
        k
    }
}

pub proof fn lemma_ws_run_start(s: Seq<char>, k: int)
    requires
        0 <= k <= s.len(),
    ensures
        0 <= ws_run_start(s, k) <= k,
        ws_run_start(s, k) > 0 ==> !is_ws(s[ws_run_start(s, k) - 1]),
        forall|m: int| ws_run_start(s, k) <= m < k ==> is_ws(s[m]),
    decreases k,
{
    if k > 0 && is_ws(s[k - 1]) {
        lemma_ws_run_start(s, k - 1);
    }
}

/// Step one from position `i` on: timing tags and `</c>` markers removed,
/// scanning left to right.
pub open spec fn strip_timing_from(s: Seq<char>, i: int) -> Seq<char>
    decreases s.len() - i,
{
    if i < 0 || i >= s.len() {
        Seq::empty()
    } else if timing_tag_at(s, i) {
        strip_timing_from(s, i + 17)
    } else if close_tag_at(s, i) {
        strip_timing_from(s, i + 4)
    } else {
        seq![s[i]] + strip_timing_from(s, i + 1)
    }
}

/// Step two from position `i` on: each `&nbsp;` becomes a space.
pub open spec fn decode_nbsp_from(s: Seq<char>, i: int) -> Seq<char>
    decreases s.len() - i,
{
    if i < 0 || i >= s.len() {
        Seq::empty()
    } else if nbsp_at(s, i) {
        seq![' '] + decode_nbsp_from(s, i + 6)
    } else {
        seq![s[i]] + decode_nbsp_from(s, i + 1)
    }
}

/// Step three from position `i` on: every remaining `<...>` tag removed.
pub open spec fn strip_tags_from(s: Seq<char>, i: int) -> Seq<char>
    decreases s.len() - i,
    via strip_tags_from_decreases
{
    if i < 0 || i >= s.len() {
        Seq::empty()
    } else if tag_at(s, i) {
        strip_tags_from(s, first_gt(s, i + 1) + 1)
    } else {
        seq![s[i]] + strip_tags_from(s, i + 1)
    }
}

/// Step four from position `i` on: each run of whitespace becomes one space.
pub open spec fn collapse_ws_from(s: Seq<char>, i: int) -> Seq<char>
    decreases s.len() - i,
    via collapse_ws_from_decreases
{
    if i < 0 || i >= s.len() {
        Seq::empty()
    } else if is_ws(s[i]) {
        seq![' '] + collapse_ws_from(s, ws_run_end(s, i))
    } else {
        seq![s[i]] + collapse_ws_from(s, i + 1)
    }
}

#[via_fn]
proof fn strip_tags_from_decreases(s: Seq<char>, i: int) {
    if 0 <= i < s.len() {
        lemma_first_gt(s, i + 1);
    }
}

#[via_fn]
proof fn collapse_ws_from_decreases(s: Seq<char>, i: int) {
    if 0 <= i < s.len() {
        lemma_ws_run_end(s, i);
    }
}

/// Leading and trailing whitespace removed.
pub open spec fn trim(s: Seq<char>) -> Seq<char> {
    let a = ws_run_end(s, 0);
    if a >= s.len() {
        Seq::empty()
    } else {
        s.subrange(a, ws_run_start(s, s.len() as int))
    }
}

/// One caption line after the cleanup steps.
pub open spec fn clean(line: Seq<char>) -> Seq<char> {
    trim(
        collapse_ws_from(
            strip_tags_from(decode_nbsp_from(strip_timing_from(line, 0), 0), 0),
            0,
        ),
    )
}

fn is_digit_char(c: char) -> (r: bool)
    ensures
        r == is_digit(c),
{
    48 <= (c as u32) && (c as u32) <= 57
}

fn timestamp_here(s: &Vec<char>, p: usize) -> (r: bool)
    ensures
        r == timestamp_at(s@, p as int),
{
    if p > s.len() || s.len() - p < 12 {
        return false;
    }
    is_digit_char(s[p]) && is_digit_char(s[p + 1]) && s[p + 2] == ':' && is_digit_char(s[p + 3])
        && is_digit_char(s[p + 4]) && s[p + 5] == ':' && is_digit_char(s[p + 6])
        && is_digit_char(s[p + 7]) && s[p + 8] == '.' && is_digit_char(s[p + 9])
        && is_digit_char(s[p + 10]) && is_digit_char(s[p + 11])
}

/// Whether the line is a cue-timing line.
pub fn is_cue_timing_line(s: &Vec<char>) -> (r: bool)
    ensures
        r == is_cue_timing(s@),
{
    if s.len() < 29 {
        return false;
    }
    timestamp_here(s, 0) && s[12] == ' ' && s[13] == '-' && s[14] == '-' && s[15] == '>' && s[16]
        == ' ' && timestamp_here(s, 17)
}

fn timing_tag_here(s: &Vec<char>, i: usize) -> (r: bool)
    ensures
        r == timing_tag_at(s@, i as int),
{
    if i > s.len() || s.len() - i < 17 {
        return false;
    }
    s[i] == '<' && timestamp_here(s, i + 1) && s[i + 13] == '>' && s[i + 14] == '<' && s[i + 15]
        == 'c' && s[i + 16] == '>'
}

fn close_tag_here(s: &Vec<char>, i: usize) -> (r: bool)
    ensures
        r == close_tag_at(s@, i as int),
{
    if i > s.len() || s.len() - i < 4 {
        return false;
    }
    s[i] == '<' && s[i + 1] == '/' && s[i + 2] == 'c' && s[i + 3] == '>'
}

fn nbsp_here(s: &Vec<char>, i: usize) -> (r: bool)
    ensures
        r == nbsp_at(s@, i as int),
{
    if i > s.len() || s.len() - i < 6 {
        return false;
    }
    s[i] == '&' && s[i + 1] == 'n' && s[i + 2] == 'b' && s[i + 3] == 's' && s[i + 4] == 'p' && s[i
        + 5] == ';'
}

/// Removes embedded timing tags `<hh:mm:ss.mmm><c>` and `</c>` markers.
pub fn strip_timing_tags(s: &Vec<char>) -> (r: Vec<char>)
    ensures
        r@ == strip_timing_from(s@, 0),
{
    let mut out: Vec<char> = Vec::new();
    let mut i: usize = 0;
    while i < s.len()
        invariant
            i <= s.len(),
            out@ + strip_timing_from(s@, i as int) == strip_timing_from(s@, 0),
        decreases s.len() - i,
    {
        if timing_tag_here(s, i) {
            i = i + 17;
        } else if close_tag_here(s, i) {
            i = i + 4;
        } else {
            let ghost before = out@;
            out.push(s[i]);
            assert(before + strip_timing_from(s@, i as int) =~= out@ + strip_timing_from(
                s@,
                i + 1,
            ));
            i = i + 1;
        }
    }
    assert(out@ + strip_timing_from(s@, i as int) =~= out@);
    out
}

/// Turns each `&nbsp;` entity into a space.
pub fn decode_nbsp(s: &Vec<char>) -> (r: Vec<char>)
    ensures
        r@ == decode_nbsp_from(s@, 0),
{
    let mut out: Vec<char> = Vec::new();
    let mut i: usize = 0;
    while i < s.len()
        invariant
            i <= s.len(),
            out@ + decode_nbsp_from(s@, i as int) == decode_nbsp_from(s@, 0),
        decreases s.len() - i,
    {
        let ghost before = out@;
        if nbsp_here(s, i) {
            out.push(' ');
            assert(before + decode_nbsp_from(s@, i as int) =~= out@ + decode_nbsp_from(
                s@,
                i + 6,
            ));
            i = i + 6;
        } else {
            out.push(s[i]);
            assert(before + decode_nbsp_from(s@, i as int) =~= out@ + decode_nbsp_from(
                s@,
                i + 1,
            ));
            i = i + 1;
        }
    }
    assert(out@ + decode_nbsp_from(s@, i as int) =~= out@);
    out
}

/// The first position at or after `k` holding `>`, or the length.
fn find_gt(s: &Vec<char>, k: usize) -> (r: usize)
    requires
        k <= s.len(),
    ensures
        r == first_gt(s@, k as int),
{
    proof {
        lemma_first_gt(s@, k as int);
    }
    let mut j = k;
    while j < s.len() && s[j] != '>'
        invariant
            k <= j <= s.len(),
            first_gt(s@, j as int) == first_gt(s@, k as int),
        decreases s.len() - j,
    {
        j = j + 1;
    }
    j
}

/// Removes every `<...>` tag.
pub fn strip_tags(s: &Vec<char>) -> (r: Vec<char>)
    ensures
        r@ == strip_tags_from(s@, 0),
{
    let mut out: Vec<char> = Vec::new();
    let mut i: usize = 0;
    while i < s.len()
        invariant
            i <= s.len(),
            out@ + strip_tags_from(s@, i as int) == strip_tags_from(s@, 0),
        decreases s.len() - i,
    {
        let ghost before = out@;
        if s[i] == '<' {
            let j = find_gt(s, i + 1);
            proof {
                lemma_first_gt(s@, i + 1);
            }
            if j < s.len() {
                i = j + 1;
                continue;
            }
        }
        out.push(s[i]);
        assert(before + strip_tags_from(s@, i as int) =~= out@ + strip_tags_from(s@, i + 1));
        i = i + 1;
    }
    assert(out@ + strip_tags_from(s@, i as int) =~= out@);
    out
}

/// Replaces each run of whitespace by one space.
pub fn collapse_whitespace(s: &Vec<char>) -> (r: Vec<char>)
    ensures
        r@ == collapse_ws_from(s@, 0),
{
    let mut out: Vec<char> = Vec::new();
    let mut i: usize = 0;
    while i < s.len()
        invariant
            i <= s.len(),
            out@ + collapse_ws_from(s@, i as int) == collapse_ws_from(s@, 0),
        decreases s.len() - i,
    {
        let ghost before = out@;
        let ghost start = i as int;
        if is_whitespace_char(s[i]) {
            out.push(' ');
            proof {
                lemma_ws_run_end(s@, start);
            }
            while i < s.len() && is_whitespace_char(s[i])
                invariant
                    start <= i <= s.len(),
                    ws_run_end(s@, i as int) == ws_run_end(s@, start),
                decreases s.len() - i,
            {
                i = i + 1;
            }
            assert(before + collapse_ws_from(s@, start) =~= out@ + collapse_ws_from(s@, i as int));
        } else {
            out.push(s[i]);
            assert(before + collapse_ws_from(s@, i as int) =~= out@ + collapse_ws_from(
                s@,
                i + 1,
            ));
            i = i + 1;
        }
    }
    assert(out@ + collapse_ws_from(s@, i as int) =~= out@);
    out
}

/// Removes leading and trailing whitespace.
pub fn trim_whitespace(s: &Vec<char>) -> (r: Vec<char>)
    ensures
        r@ == trim(s@),
{
    let mut a: usize = 0;
    while a < s.len() && is_whitespace_char(s[a])
        invariant
            a <= s.len(),
            ws_run_end(s@, a as int) == ws_run_end(s@, 0),
        decreases s.len() - a,
    {
        a = a + 1;
    }
    let mut out: Vec<char> = Vec::new();
    if a >= s.len() {
        return out;
    }
    let mut b: usize = s.len();
    while b > 0 && is_whitespace_char(s[b - 1])
        invariant
            b <= s.len(),
            ws_run_start(s@, b as int) == ws_run_start(s@, s.len() as int),
        decreases b,
    {
        b = b - 1;
    }
    proof {
        lemma_ws_run_start(s@, s.len() as int);
    }
    let mut k: usize = a;
    while k < b
        invariant
            a <= k <= b <= s.len(),
            out@ == s@.subrange(a as int, k as int),
        decreases b - k,
    {
        out.push(s[k]);
        k = k + 1;
    }
    out
}

pub open spec fn starts_with(s: Seq<char>, p: Seq<char>) -> bool {
    p.len() <= s.len() && s.subrange(0, p.len() as int) == p
}

pub open spec fn webvtt_marker() -> Seq<char> {
    seq!['W', 'E', 'B', 'V', 'T', 'T']
}

pub open spec fn kind_marker() -> Seq<char> {
    seq!['K', 'i', 'n', 'd', ':']
}

pub open spec fn language_marker() -> Seq<char> {
    seq!['L', 'a', 'n', 'g', 'u', 'a', 'g', 'e', ':']
}

/// A header line of the caption file.
pub open spec fn is_header(s: Seq<char>) -> bool {
    starts_with(s, webvtt_marker()) || starts_with(s, kind_marker()) || starts_with(
        s,
        language_marker(),
    )
}

/// A cleaned line that carries caption text: not empty, not a header, not a
/// cue-timing line.
pub open spec fn is_content(s: Seq<char>) -> bool {
    s.len() > 0 && !is_header(s) && !is_cue_timing(s)
}

/// The lines of `s`, split at each `\n` (the last one may be empty).
pub open spec fn split_lines(s: Seq<char>) -> Seq<Seq<char>>
    decreases s.len(),
{
    if s.len() == 0 {
        seq![Seq::empty()]
    } else {
        let prev = split_lines(s.drop_last());
        if s.last() == '\n' {
            prev.push(Seq::empty())
        } else {
            prev.update(prev.len() - 1, prev.last().push(s.last()))
        }
    }
}

/// What the kept lines become after one more raw line is read.
pub open spec fn keep_step(kept: Seq<Seq<char>>, raw_line: Seq<char>) -> Seq<Seq<char>> {
    let c = clean(raw_line);
    if is_content(c) && !kept.contains(c) {
        kept.push(c)
    } else {
        kept
    }
}

/// The cleaned content lines of `lines`, each kept at its first occurrence.
pub open spec fn kept_lines(lines: Seq<Seq<char>>) -> Seq<Seq<char>>
    decreases lines.len(),
{
    if lines.len() == 0 {
        Seq::empty()
    } else {
        keep_step(kept_lines(lines.drop_last()), lines.last())
    }
}

/// The lines joined with single spaces.
pub open spec fn join_words(ls: Seq<Seq<char>>) -> Seq<char>
    decreases ls.len(),
{
    if ls.len() == 0 {
        Seq::empty()
    } else if ls.len() == 1 {
        ls[0]
    } else {
        join_words(ls.drop_last()) + seq![' '] + ls.last()
    }
}

/// The normalized transcript of a raw caption text.
pub open spec fn normalized(raw: Seq<char>) -> Seq<char> {
    join_words(kept_lines(split_lines(raw)))
}

pub open spec fn views(v: Seq<Vec<char>>) -> Seq<Seq<char>> {
    v.map_values(|x: Vec<char>| x@)
}

/// One caption line after all cleanup steps.
pub fn clean_line(line: &Vec<char>) -> (r: Vec<char>)
    ensures
        r@ == clean(line@),
{
    let a = strip_timing_tags(line);
    let b = decode_nbsp(&a);
    let c = strip_tags(&b);
    let d = collapse_whitespace(&c);
    trim_whitespace(&d)
}

/// One caption line after all cleanup steps.
pub fn cleanup_buffer(text: &str) -> (r: String)
    ensures
        r@ == clean(text@),
{
    let v = chars_of(text);
    let c = clean_line(&v);
    string_of(&c)
}

/// Whether the cleaned line is a header line.
pub fn is_header_line(s: &Vec<char>) -> (r: bool)
    ensures
        r == is_header(s@),
{
    let w = s.len() >= 6 && s[0] == 'W' && s[1] == 'E' && s[2] == 'B' && s[3] == 'V' && s[4] == 'T'
        && s[5] == 'T';
    let k = s.len() >= 5 && s[0] == 'K' && s[1] == 'i' && s[2] == 'n' && s[3] == 'd' && s[4] == ':';
    let l = s.len() >= 9 && s[0] == 'L' && s[1] == 'a' && s[2] == 'n' && s[3] == 'g' && s[4] == 'u'
        && s[5] == 'a' && s[6] == 'g' && s[7] == 'e' && s[8] == ':';
    assert(w == starts_with(s@, webvtt_marker())) by {
        if s@.len() >= 6 && starts_with(s@, webvtt_marker()) {
            assert(s@.subrange(0, 6)[0] == s@[0]);
            assert(s@.subrange(0, 6)[1] == s@[1]);
            assert(s@.subrange(0, 6)[2] == s@[2]);
            assert(s@.subrange(0, 6)[3] == s@[3]);
            assert(s@.subrange(0, 6)[4] == s@[4]);
            assert(s@.subrange(0, 6)[5] == s@[5]);
        }
        if w {
            assert(s@.subrange(0, 6) =~= webvtt_marker());
        }
    }
    assert(k == starts_with(s@, kind_marker())) by {
        if s@.len() >= 5 && starts_with(s@, kind_marker()) {
            assert(s@.subrange(0, 5)[0] == s@[0]);
            assert(s@.subrange(0, 5)[1] == s@[1]);
            assert(s@.subrange(0, 5)[2] == s@[2]);
            assert(s@.subrange(0, 5)[3] == s@[3]);
            assert(s@.subrange(0, 5)[4] == s@[4]);
        }
        if k {
            assert(s@.subrange(0, 5) =~= kind_marker());
        }
    }
    assert(l == starts_with(s@, language_marker())) by {
        if s@.len() >= 9 && starts_with(s@, language_marker()) {
            assert(s@.subrange(0, 9)[0] == s@[0]);
            assert(s@.subrange(0, 9)[1] == s@[1]);
            assert(s@.subrange(0, 9)[2] == s@[2]);
            assert(s@.subrange(0, 9)[3] == s@[3]);
            assert(s@.subrange(0, 9)[4] == s@[4]);
            assert(s@.subrange(0, 9)[5] == s@[5]);
            assert(s@.subrange(0, 9)[6] == s@[6]);
            assert(s@.subrange(0, 9)[7] == s@[7]);
            assert(s@.subrange(0, 9)[8] == s@[8]);
        }
        if l {
            assert(s@.subrange(0, 9) =~= language_marker());
        }
    }
    w || k || l
}

fn same_chars(a: &Vec<char>, b: &Vec<char>) -> (r: bool)
    ensures
        r == (a@ == b@),
{
    if a.len() != b.len() {
        return false;
    }
    let mut i: usize = 0;
    while i < a.len()
        invariant
            a.len() == b.len(),
            i <= a.len(),
            a@.subrange(0, i as int) == b@.subrange(0, i as int),
        decreases a.len() - i,
    {
        if a[i] != b[i] {
            assert(a@[i as int] != b@[i as int]);
            return false;
        }
        assert(a@.subrange(0, i + 1) =~= a@.subrange(0, i as int).push(a@[i as int]));
        assert(b@.subrange(0, i + 1) =~= b@.subrange(0, i as int).push(b@[i as int]));
        i = i + 1;
    }
    assert(a@ =~= a@.subrange(0, i as int));
    assert(b@ =~= b@.subrange(0, i as int));
    true
}

fn contains_line(kept: &Vec<Vec<char>>, c: &Vec<char>) -> (r: bool)
    ensures
        r == views(kept@).contains(c@),
{
    let mut j: usize = 0;
    while j < kept.len()
        invariant
            j <= kept.len(),
            forall|k: int| 0 <= k < j ==> views(kept@)[k] != c@,
        decreases kept.len() - j,
    {
        if same_chars(&kept[j], c) {
            assert(views(kept@)[j as int] == c@);
            return true;
        }
        j = j + 1;
    }
    false
}

/// Reads one more raw line: keeps its cleaned form if it is content not seen before.
fn keep_line(kept: &mut Vec<Vec<char>>, raw_line: &Vec<char>)
    ensures
        views(final(kept)@) == keep_step(views(old(kept)@), raw_line@),
{
    let c = clean_line(raw_line);
    if c.len() > 0 && !is_header_line(&c) && !is_cue_timing_line(&c) && !contains_line(kept, &c) {
        let ghost before = kept@;
        kept.push(c);
        assert(views(kept@) =~= views(before).push(c@));
    }
}

fn join_lines(kept: &Vec<Vec<char>>) -> (r: Vec<char>)
    ensures
        r@ == join_words(views(kept@)),
{
    let mut out: Vec<char> = Vec::new();
    let mut j: usize = 0;
    while j < kept.len()
        invariant
            j <= kept.len(),
            out@ == join_words(views(kept@).subrange(0, j as int)),
        decreases kept.len() - j,
    {
        let ghost before = out@;
        let ghost vs = views(kept@);
        assert(vs.subrange(0, j + 1).drop_last() =~= vs.subrange(0, j as int));
        if j > 0 {
            out.push(' ');
        }
        let line = &kept[j];
        let mut k: usize = 0;
        let ghost mid = out@;
        while k < line.len()
            invariant
                k <= line.len(),
                out@ == mid + line@.subrange(0, k as int),
            decreases line.len() - k,
        {
            out.push(line[k]);
            assert(out@ =~= mid + line@.subrange(0, k + 1));
            k = k + 1;
        }
        assert(line@.subrange(0, k as int) =~= line@);
        if j == 0 {
            assert(out@ =~= join_words(vs.subrange(0, 1)));
        } else {
            assert(out@ =~= before + seq![' '] + vs[j as int]);
        }
        j = j + 1;
    }
    assert(views(kept@).subrange(0, j as int) =~= views(kept@));
    out
}

/// Normalizes raw caption text into one line of prose: each line is cleaned,
/// empty, header and cue-timing lines are dropped, each remaining line is kept
/// at its first occurrence only, and the kept lines are joined with spaces.
pub fn normalize(raw: &str) -> (r: String)
    ensures
        r@ == normalized(raw@),
{
    let s = chars_of(raw);
    let mut kept: Vec<Vec<char>> = Vec::new();
    let mut line: Vec<char> = Vec::new();
    let ghost mut done: Seq<Seq<char>> = Seq::empty();
    let mut i: usize = 0;
    assert(s@.subrange(0, 0) =~= Seq::<char>::empty());
    while i < s.len()
        invariant
            i <= s.len(),
            split_lines(s@.subrange(0, i as int)) == done.push(line@),
            views(kept@) == kept_lines(done),
        decreases s.len() - i,
    {
        let c = s[i];
        assert(s@.subrange(0, i + 1).drop_last() =~= s@.subrange(0, i as int));
        if c == '\n' {
            keep_line(&mut kept, &line);
            proof {
                assert(done.push(line@).drop_last() =~= done);
                done = done.push(line@);
            }
            line = Vec::new();
            assert(split_lines(s@.subrange(0, i + 1)) =~= done.push(line@));
        } else {
            let ghost before = line@;
            line.push(c);
            assert(split_lines(s@.subrange(0, i + 1)) =~= done.push(line@));
        }
        i = i + 1;
    }
    keep_line(&mut kept, &line);
    proof {
        assert(done.push(line@).drop_last() =~= done);
        done = done.push(line@);
        assert(s@.subrange(0, i as int) =~= s@);
    }
    let out = join_lines(&kept);
    string_of(&out)
}

/// The caption bytes are not valid UTF-8 text.
#[derive(Debug, Clone, Copy, PartialEq, Eq, Structural)]
pub struct FormatError;

/// Relies on `std::str::from_utf8`: it succeeds exactly on valid UTF-8, and
/// the text it gives encodes back to the input bytes.
#[verifier::external_body]
fn utf8_text(bytes: &[u8]) -> (r: Option<String>)
    ensures
        r is Some <==> valid_utf8(bytes@),
        r matches Some(t) ==> encode_utf8(t@) == bytes@,
{
    match std::str::from_utf8(bytes) {
        Ok(t) => Some(t.to_string()),
        Err(_) => None,
    }
}

/// Decodes raw caption bytes as UTF-8 and normalizes the text.
pub fn normalize_bytes(raw: &[u8]) -> (r: Result<String, FormatError>)
    ensures
        r is Ok <==> valid_utf8(raw@),
        r matches Ok(t) ==> t@ == normalized(decode_utf8(raw@)),
{
    match utf8_text(raw) {
        Some(text) => {
            proof {
                encode_utf8_decode_utf8(text@);
            }
            Ok(normalize(text.as_str()))
        },
        None => Err(FormatError),
    }
}

} // verus!
