//! Reading the caption downloader's report: the path of the caption file it
//! wrote is announced on a line of its standard output or standard error.
use vstd::prelude::*;
use crate::caption::{split_lines, trim, trim_whitespace};
use crate::summary::{occurs_at, occurs_in};
use crate::text::{chars_of, string_of};

verus! {

/// Marks the line that announces the caption file.
pub const ANNOUNCEMENT: &'static str = "Writing video subtitles to:";

/// Precedes the path on the announcing line.
pub const PATH_PREFIX: &'static str = "Writing video subtitles to: ";

/// Where the downloader's report says the caption file is.
#[derive(Debug, Clone, PartialEq, Eq)]
pub enum SubtitleReport {
    /// The announced path, trimmed.
    Path(String),
    /// A line announces the file, but no path follows the prefix.
    Unparsable,
    /// No line announces the file.
    NotAnnounced,
}

/// The first position at or after `i` where `p` occurs in `s`, or -1.
pub open spec fn first_occurrence_from(s: Seq<char>, p: Seq<char>, i: int) -> int
    decreases s.len() + 1 - i,
{
    if i < 0 || i + p.len() > s.len() {
        -1
    } else if occurs_at(s, p, i) {
        i
    } else {
        first_occurrence_from(s, p, i + 1)
    }
}

/// The first line of `lines` that holds the announcement.
pub open spec fn announcing_line(lines: Seq<Seq<char>>) -> Option<Seq<char>>
    decreases lines.len(),
{
    if lines.len() == 0 {
        None
    } else if occurs_in(lines[0], ANNOUNCEMENT@) {
        Some(lines[0])
    } else {
        announcing_line(lines.drop_first())
    }
}

/// What the report of `stdout` and `stderr` (read in that order) says.
pub open spec fn report_of(stdout: Seq<char>, stderr: Seq<char>) -> Option<Option<Seq<char>>> {
    match announcing_line(split_lines(stdout) + split_lines(stderr)) {
        None => None,
        Some(line) => {
            let i = first_occurrence_from(line, PATH_PREFIX@, 0);
            if i < 0 {
                Some(None)
            } else {
                Some(Some(trim(line.skip(i + PATH_PREFIX@.len()))))
            }
        },
    }
}

proof fn lemma_first_occurrence(s: Seq<char>, p: Seq<char>, i: int)
    requires
        0 <= i,
    ensures
        first_occurrence_from(s, p, i) == -1 || (i <= first_occurrence_from(s, p, i) && occurs_at(
            s,
            p,
            first_occurrence_from(s, p, i),
        )),
    decreases s.len() + 1 - i,
{
    if i + p.len() <= s.len() && !occurs_at(s, p, i) {
        lemma_first_occurrence(s, p, i + 1);
    }
}

/// The first position at which `p` occurs in `s`.
fn find_first(s: &Vec<char>, p: &Vec<char>) -> (r: Option<usize>)
    ensures
        r is None ==> first_occurrence_from(s@, p@, 0) == -1,
        r matches Some(i) ==> first_occurrence_from(s@, p@, 0) == i,
{
    if p.len() > s.len() {
        return None;
    }
    let mut i: usize = 0;
    while i <= s.len() - p.len()
        invariant
            p.len() <= s.len(),
            i <= s.len() - p.len() + 1,
            first_occurrence_from(s@, p@, i as int) == first_occurrence_from(s@, p@, 0),
        decreases s.len() - p.len() + 1 - i,
    {
        let mut k: usize = 0;
        let mut same = true;
        while k < p.len()
            invariant
                i + p.len() <= s.len(),
                k <= p.len(),
                same ==> s@.subrange(i as int, i + k) == p@.subrange(0, k as int),
                !same ==> !occurs_at(s@, p@, i as int),
            decreases p.len() - k,
        {
            if same && s[i + k] != p[k] {
                assert(s@.subrange(i as int, i + p.len())[k as int] != p@[k as int]);
                same = false;
            }
            if same {
                assert(s@.subrange(i as int, i + k + 1) =~= s@.subrange(i as int, i + k).push(
                    s@[i + k],
                ));
                assert(p@.subrange(0, k + 1) =~= p@.subrange(0, k as int).push(p@[k as int]));
            }
            k = k + 1;
        }
        if same {
            assert(p@.subrange(0, k as int) =~= p@);
            return Some(i);
        }
        if i == s.len() - p.len() {
            assert(first_occurrence_from(s@, p@, i + 1) == -1);
            return None;
        }
        i = i + 1;
    }
    None
}

/// The lines of `s`, split at each `\n`.
fn lines_of(s: &Vec<char>) -> (r: Vec<Vec<char>>)
    ensures
        r@.map_values(|l: Vec<char>| l@) == split_lines(s@),
{
    let mut out: Vec<Vec<char>> = Vec::new();
    let mut line: Vec<char> = Vec::new();
    let mut i: usize = 0;
    assert(s@.subrange(0, 0) =~= Seq::<char>::empty());
    assert(out@.map_values(|l: Vec<char>| l@).push(line@) =~= split_lines(s@.subrange(0, 0)));
    while i < s.len()
        invariant
            i <= s.len(),
            out@.map_values(|l: Vec<char>| l@).push(line@) == split_lines(
                s@.subrange(0, i as int),
            ),
        decreases s.len() - i,
    {
        let ghost before = out@.map_values(|l: Vec<char>| l@);
        assert(s@.subrange(0, i + 1).drop_last() =~= s@.subrange(0, i as int));
        if s[i] == '\n' {
            let done = line;
            out.push(done);
            line = Vec::new();
            assert(out@.map_values(|l: Vec<char>| l@) =~= before.push(done@));
            assert(out@.map_values(|l: Vec<char>| l@).push(line@) =~= split_lines(
                s@.subrange(0, i + 1),
            ));
        } else {
            line.push(s[i]);
            assert(out@.map_values(|l: Vec<char>| l@).push(line@) =~= split_lines(
                s@.subrange(0, i + 1),
            ));
        }
        i = i + 1;
    }
    assert(s@.subrange(0, i as int) =~= s@);
    let ghost before = out@.map_values(|l: Vec<char>| l@);
    out.push(line);
    assert(out@.map_values(|l: Vec<char>| l@) =~= before.push(line@));
    out
}

/// Finds the caption file path in the downloader's report: the first line of
/// `stdout`, then of `stderr`, that holds the announcement gives the path,
/// trimmed, after the prefix.
pub fn subtitle_path_in(stdout: &str, stderr: &str) -> (r: SubtitleReport)
    ensures
        report_of(stdout@, stderr@) is None ==> r == SubtitleReport::NotAnnounced,
        report_of(stdout@, stderr@) == Some(None::<Seq<char>>) ==> r == SubtitleReport::Unparsable,
        report_of(stdout@, stderr@) matches Some(Some(p)) ==> (r matches SubtitleReport::Path(
            path,
        ) && path@ == p),
{
    let mut lines = lines_of(&chars_of(stdout));
    let mut more = lines_of(&chars_of(stderr));
    let ghost all = split_lines(stdout@) + split_lines(stderr@);
    let ghost a = lines@;
    let ghost b = more@;
    lines.append(&mut more);
    assert(lines@.map_values(|l: Vec<char>| l@) =~= all) by {
        assert(lines@ =~= a + b);
    }
    let announcement = chars_of(ANNOUNCEMENT);
    let prefix = chars_of(PATH_PREFIX);
    let mut j: usize = 0;
    assert(all.skip(0) =~= all);
    while j < lines.len()
        invariant
            j <= lines.len(),
            lines@.map_values(|l: Vec<char>| l@) == all,
            all == split_lines(stdout@) + split_lines(stderr@),
            announcement@ == ANNOUNCEMENT@,
            prefix@ == PATH_PREFIX@,
            announcing_line(all) == announcing_line(all.skip(j as int)),
        decreases lines.len() - j,
    {
        let ghost rest = all.skip(j as int);
        assert(rest[0] == lines@[j as int]@);
        assert(rest.drop_first() =~= all.skip(j + 1));
        let found = match find_first(&lines[j], &announcement) {
            Some(_) => true,
            None => false,
        };
        proof {
            lemma_first_occurrence(lines@[j as int]@, ANNOUNCEMENT@, 0);
            if occurs_in(lines@[j as int]@, ANNOUNCEMENT@) {
                let w = choose|w: int| occurs_at(lines@[j as int]@, ANNOUNCEMENT@, w);
                lemma_first_occurrence_none(lines@[j as int]@, ANNOUNCEMENT@, 0, w);
            }
        }
        assert(found <==> occurs_in(lines@[j as int]@, ANNOUNCEMENT@));
        if found {
            assert(announcing_line(all) == Some(lines@[j as int]@));
            let line = &lines[j];
            return match find_first(line, &prefix) {
                None => SubtitleReport::Unparsable,
                Some(i) => {
                    proof {
                        lemma_first_occurrence(line@, PATH_PREFIX@, 0);
                    }
                    let mut tail: Vec<char> = Vec::new();
                    let mut k: usize = i + prefix.len();
                    let start = k;
                    while k < line.len()
                        invariant
                            start <= k <= line.len(),
                            tail@ == line@.subrange(start as int, k as int),
                        decreases line.len() - k,
                    {
                        tail.push(line[k]);
                        assert(tail@ =~= line@.subrange(start as int, k + 1));
                        k = k + 1;
                    }
                    assert(tail@ =~= line@.skip(start as int));
                    SubtitleReport::Path(string_of(&trim_whitespace(&tail)))
                },
            };
        }
        j = j + 1;
    }
    assert(all.skip(j as int) =~= Seq::<Seq<char>>::empty());
    SubtitleReport::NotAnnounced
}

proof fn lemma_first_occurrence_none(s: Seq<char>, p: Seq<char>, i: int, w: int)
    requires
        0 <= i <= w,
        occurs_at(s, p, w),
    ensures
        first_occurrence_from(s, p, i) != -1,
    decreases w - i,
{
    if !occurs_at(s, p, i) {
        lemma_first_occurrence_none(s, p, i + 1, w);
    }
}

} // verus!
