//! A reader for WebVTT subtitle text.
//!
//! After the header line, every line with exactly one `-->` starts a cue: the
//! times are the trimmed text on either side of the arrow, and the cue text is
//! the lines that follow up to the next empty line, trimmed.

use crate::cleaner::line_end;
use crate::text::{chars_of, find_from, find_from_exec, lemma_find_from, slice_of, string_of, trim, trim_chars};
use vstd::prelude::*;

verus! {

/// One cue of a subtitle file.
#[derive(Debug, Clone)]
pub struct SubtitleEntry {
    pub start_time: String,
    pub end_time: String,
    pub text: String,
}

/// A line without the `\r` of a `\r\n` ending.
pub open spec fn strip_cr(l: Seq<char>) -> Seq<char> {
    if l.len() > 0 && l.last() == '\r' {
        l.drop_last()
    } else {
        l
    }
}

/// The lines of `s` from index `p`, as `str::lines` gives them.
pub open spec fn lines_from(s: Seq<char>, p: int) -> Seq<Seq<char>>
    decreases s.len() - p,
{
    if p < 0 || p >= s.len() {
        Seq::empty()
    } else {
        let e = line_end(s, p);
        if p <= e < s.len() {
            seq![strip_cr(s.subrange(p, e))] + lines_from(s, e + 1)
        } else {
            seq![s.subrange(p, s.len() as int)]
        }
    }
}

/// `-->`
pub open spec fn arrow() -> Seq<char> {
    seq!['-', '-', '>']
}

/// The index of the arrow in `line` when it holds exactly one.
pub open spec fn single_arrow(line: Seq<char>) -> Option<int> {
    match find_from(line, arrow(), 0) {
        Some(k) => if find_from(line, arrow(), k + 3) is None {
            Some(k)
        } else {
            None
        },
        None => None,
    }
}

/// The index of the first empty line at or after `i`, or the number of lines.
pub open spec fn block_end(ls: Seq<Seq<char>>, i: int) -> int
    decreases ls.len() - i,
{
    if 0 <= i < ls.len() && ls[i].len() > 0 {
        block_end(ls, i + 1)
    } else {
        i
    }
}

/// The lines `ls[i..j]`, each followed by a newline.
pub open spec fn block_text(ls: Seq<Seq<char>>, i: int, j: int) -> Seq<char>
    decreases j - i,
{
    if j <= i {
        Seq::empty()
    } else {
        block_text(ls, i, j - 1) + ls[j - 1] + seq!['\n']
    }
}

/// A cue as its start, end and text.
pub type CueView = (Seq<char>, Seq<char>, Seq<char>);

/// The cues that start at or after line `i`.
pub open spec fn cues_from(ls: Seq<Seq<char>>, i: int) -> Seq<CueView>
    decreases ls.len() - i,
{
    if i < 0 || i >= ls.len() {
        Seq::empty()
    } else {
        match single_arrow(ls[i]) {
            Some(k) => if 0 <= k && k + 3 <= ls[i].len() {
                let j = block_end(ls, i + 1);
                let next = if j < ls.len() {
                    j + 1
                } else {
                    j
                };
                let cue = (
                    trim(ls[i].subrange(0, k)),
                    trim(ls[i].subrange(k + 3, ls[i].len() as int)),
                    trim(block_text(ls, i + 1, j)),
                );
                if i < next <= ls.len() {
                    seq![cue] + cues_from(ls, next)
                } else {
                    Seq::empty()
                }
            } else {
                Seq::empty()
            },
            None => cues_from(ls, i + 1),
        }
    }
}

/// The cues of a subtitle text: those after its first line.
pub open spec fn vtt_cues(s: Seq<char>) -> Seq<CueView> {
    cues_from(lines_from(s, 0), 1)
}

/// A cue's view.
pub open spec fn cue_view(e: SubtitleEntry) -> CueView {
    (e.start_time@, e.end_time@, e.text@)
}

/// The texts of a list of character vectors.
pub open spec fn line_texts(v: Seq<Vec<char>>) -> Seq<Seq<char>> {
    v.map_values(|l: Vec<char>| l@)
}

fn lines_exec(s: &Vec<char>) -> (r: Vec<Vec<char>>)
    ensures
        line_texts(r@) == lines_from(s@, 0),
{
    let mut out: Vec<Vec<char>> = Vec::new();
    let mut p: usize = 0;
    while p < s.len()
        invariant
            p <= s.len(),
            line_texts(out@) + lines_from(s@, p as int) == lines_from(s@, 0),
        decreases s.len() - p,
    {
        let mut e = p;
        while e < s.len() && s[e] != '\n'
            invariant
                p <= e <= s.len(),
                line_end(s@, p as int) == line_end(s@, e as int),
            decreases s.len() - e,
        {
            e = e + 1;
        }
        let ghost before = line_texts(out@);
        if e < s.len() {
            let stop = if e > p && s[e - 1] == '\r' {
                e - 1
            } else {
                e
            };
            let line = slice_of(s, p, stop);
            assert(line@ =~= strip_cr(s@.subrange(p as int, e as int)));
            out.push(line);
            assert(line_texts(out@) =~= before.push(line@));
            assert(line_texts(out@) + lines_from(s@, e + 1) =~= before + lines_from(s@, p as int));
            p = e + 1;
        } else {
            let line = slice_of(s, p, s.len());
            out.push(line);
            assert(line_texts(out@) =~= before.push(line@));
            assert(line_texts(out@) =~= before + lines_from(s@, p as int));
            return out;
        }
    }
    assert(line_texts(out@) + lines_from(s@, p as int) =~= line_texts(out@));
    out
}

proof fn lemma_block_end_bounds(ls: Seq<Seq<char>>, i: int)
    requires
        0 <= i <= ls.len(),
    ensures
        i <= block_end(ls, i) <= ls.len(),
    decreases ls.len() - i,
{
    if i < ls.len() && ls[i].len() > 0 {
        lemma_block_end_bounds(ls, i + 1);
    }
}

/// The cues of a subtitle text, see [`vtt_cues`].
pub fn parse_vtt_content(content: &str) -> (r: Vec<SubtitleEntry>)
    ensures
        r@.map_values(|e: SubtitleEntry| cue_view(e)) == vtt_cues(content@),
{
    let s = chars_of(content);
    let ls = lines_exec(&s);
    let ghost lv = line_texts(ls@);
    let arrow_chars = vec!['-', '-', '>'];
    assert(arrow_chars@ =~= arrow());
    let mut out: Vec<SubtitleEntry> = Vec::new();
    let mut i: usize = 1;
    if ls.len() == 0 {
        assert(out@.map_values(|e: SubtitleEntry| cue_view(e)) =~= vtt_cues(content@));
        return out;
    }
    while i < ls.len()
        invariant
            1 <= i <= ls.len(),
            lv == line_texts(ls@),
            lv == lines_from(content@, 0),
            arrow_chars@ == arrow(),
            out@.map_values(|e: SubtitleEntry| cue_view(e)) + cues_from(lv, i as int) == vtt_cues(
                content@,
            ),
        decreases ls.len() - i,
    {
        let line = &ls[i];
        assert(line@ == lv[i as int]);
        let found = find_from_exec(line, &arrow_chars, 0);
        let k = match found {
            Some(k) => k,
            None => {
                i = i + 1;
                continue;
            },
        };
        proof {
            lemma_find_from(line@, arrow_chars@, 0);
        }
        assert(k + 3 <= line@.len());
        assert(line@.len() == line.len());
        if find_from_exec(line, &arrow_chars, k + 3).is_some() {
            i = i + 1;
            continue;
        }
        let start_time = trim_chars(&slice_of(line, 0, k));
        let end_time = trim_chars(&slice_of(line, k + 3, line.len()));
        let mut text: Vec<char> = Vec::new();
        let mut j = i + 1;
        proof {
            lemma_block_end_bounds(lv, i + 1);
        }
        while j < ls.len() && ls[j].len() > 0
            invariant
                i + 1 <= j <= ls.len(),
                lv == line_texts(ls@),
                block_end(lv, i + 1) == block_end(lv, j as int),
                text@ == block_text(lv, i + 1, j as int),
            decreases ls.len() - j,
        {
            let l = &ls[j];
            assert(l@ == lv[j as int]);
            let mut m: usize = 0;
            let ghost base = text@;
            while m < l.len()
                invariant
                    m <= l.len(),
                    text@ == base + l@.take(m as int),
                decreases l.len() - m,
            {
                text.push(l[m]);
                assert(text@ =~= base + l@.take(m + 1));
                m = m + 1;
            }
            text.push('\n');
            assert(l@.take(l.len() as int) =~= l@);
            assert(text@ =~= block_text(lv, i + 1, j + 1));
            j = j + 1;
        }
        let body = trim_chars(&text);
        let ghost before = out@.map_values(|e: SubtitleEntry| cue_view(e));
        out.push(
            SubtitleEntry {
                start_time: string_of(&start_time),
                end_time: string_of(&end_time),
                text: string_of(&body),
            },
        );
        assert(out@.map_values(|e: SubtitleEntry| cue_view(e)) =~= before.push(
            (start_time@, end_time@, body@),
        ));
        assert(line@.subrange(0, k as int) =~= line@.take(k as int));
        let next = if j < ls.len() {
            j + 1
        } else {
            j
        };
        assert(out@.map_values(|e: SubtitleEntry| cue_view(e)) + cues_from(lv, next as int)
            =~= before + cues_from(lv, i as int));
        i = next;
    }
    assert(out@.map_values(|e: SubtitleEntry| cue_view(e)) + cues_from(lv, i as int)
        =~= out@.map_values(|e: SubtitleEntry| cue_view(e)));
    out
}

impl SubtitleEntry {
    /// The cues of a subtitle text, see [`vtt_cues`].
    pub fn entries_from_vtt_str(content: &str) -> (r: Vec<SubtitleEntry>)
        ensures
            r@.map_values(|e: SubtitleEntry| cue_view(e)) == vtt_cues(content@),
    {
        parse_vtt_content(content)
    }
}

} // verus!
