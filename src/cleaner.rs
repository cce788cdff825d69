//! The transcript cleaner: removes speech-recognition noise and normalizes
//! whitespace.
//!
//! The passes run in this order:
//! 1. numeric chains go: a run of digits followed by five or more groups of a
//!    `.` or `-` and digits (`1.0-2-1.0-1-1-1`), scanning from the left;
//! 2. lines of ten or more characters, all digits, `.`, `-`, `,` or spaces,
//!    are emptied (their line break stays);
//! 3. `\r\n` becomes `\n`, and each tab a space;
//! 4. runs of two or more spaces become one space;
//! 5. leading and trailing whitespace goes.

use crate::relative_time::{digit_run_end, is_digit};
use crate::text::{chars_of, string_of, trim, trim_chars};
use vstd::prelude::*;

verus! {

/// A separator inside a numeric chain.
pub open spec fn is_chain_sep(c: char) -> bool {
    c == '.' || c == '-'
}

/// The end of the separator-and-digits groups that follow index `j`, and how
/// many there are.
pub open spec fn groups_end(s: Seq<char>, j: int) -> (int, nat)
    decreases s.len() - j,
{
    if 0 <= j && j + 1 < s.len() && is_chain_sep(s[j]) && is_digit(s[j + 1]) {
        let k = digit_run_end(s, j + 1);
        if j < k <= s.len() {
            let (e, c) = groups_end(s, k);
            (e, c + 1)
        } else {
            (j, 0)
        }
    } else {
        (j, 0)
    }
}

/// The end of the numeric chain that starts at `p`, if one does.
pub open spec fn chain_at(s: Seq<char>, p: int) -> Option<int> {
    if 0 <= p < s.len() && is_digit(s[p]) {
        let (e, c) = groups_end(s, digit_run_end(s, p));
        if c >= 5 {
            Some(e)
        } else {
            None
        }
    } else {
        None
    }
}

/// `s[p..]` with its numeric chains removed, scanning from the left.
pub open spec fn strip_chains_from(s: Seq<char>, p: int) -> Seq<char>
    decreases s.len() - p,
{
    if p < 0 || p >= s.len() {
        Seq::empty()
    } else {
        match chain_at(s, p) {
            Some(e) => if p < e <= s.len() {
                strip_chains_from(s, e)
            } else {
                Seq::empty()
            },
            None => seq![s[p]] + strip_chains_from(s, p + 1),
        }
    }
}

/// A character that a numeric line may hold.
pub open spec fn is_numeric_line_char(c: char) -> bool {
    is_digit(c) || c == '.' || c == '-' || c == ',' || c == ' '
}

/// A line of ten or more characters, each one a digit, `.`, `-`, `,` or space.
pub open spec fn is_numeric_line(line: Seq<char>) -> bool {
    line.len() >= 10 && forall|k: int| 0 <= k < line.len() ==> is_numeric_line_char(#[trigger] line[k])
}

/// The index of the first line break at or after `p`, or the length.
pub open spec fn line_end(s: Seq<char>, p: int) -> int
    decreases s.len() - p,
{
    if 0 <= p < s.len() && s[p] != '\n' {
        line_end(s, p + 1)
    } else {
        p
    }
}

/// The lines of `s` from the line that starts at `p`, numeric lines emptied.
pub open spec fn strip_lines_from(s: Seq<char>, p: int) -> Seq<char>
    decreases s.len() + 1 - p,
{
    if p < 0 || p > s.len() {
        Seq::empty()
    } else {
        let e = line_end(s, p);
        let line = s.subrange(p, e);
        let kept = if is_numeric_line(line) {
            Seq::empty()
        } else {
            line
        };
        if p <= e < s.len() {
            kept + seq!['\n'] + strip_lines_from(s, e + 1)
        } else {
            kept
        }
    }
}

/// `s[p..]` with each `\r\n` turned into `\n` and each tab into a space.
pub open spec fn normalize_breaks_from(s: Seq<char>, p: int) -> Seq<char>
    decreases s.len() - p,
{
    if p < 0 || p >= s.len() {
        Seq::empty()
    } else if s[p] == '\r' && p + 1 < s.len() && s[p + 1] == '\n' {
        seq!['\n'] + normalize_breaks_from(s, p + 2)
    } else if s[p] == '\t' {
        seq![' '] + normalize_breaks_from(s, p + 1)
    } else {
        seq![s[p]] + normalize_breaks_from(s, p + 1)
    }
}

/// The end of the run of spaces that starts at `p`.
pub open spec fn blank_run_end(s: Seq<char>, p: int) -> int
    decreases s.len() - p,
{
    if 0 <= p < s.len() && s[p] == ' ' {
        blank_run_end(s, p + 1)
    } else {
        p
    }
}

/// `s[p..]` with each run of spaces made a single space.
pub open spec fn collapse_spaces_from(s: Seq<char>, p: int) -> Seq<char>
    decreases s.len() - p,
{
    if p < 0 || p >= s.len() {
        Seq::empty()
    } else if s[p] == ' ' {
        let e = blank_run_end(s, p);
        if p < e <= s.len() {
            seq![' '] + collapse_spaces_from(s, e)
        } else {
            Seq::empty()
        }
    } else {
        seq![s[p]] + collapse_spaces_from(s, p + 1)
    }
}

/// The cleaned transcript.
pub open spec fn cleaned(s: Seq<char>) -> Seq<char> {
    let a = strip_chains_from(s, 0);
    let b = strip_lines_from(a, 0);
    let c = normalize_breaks_from(b, 0);
    let d = collapse_spaces_from(c, 0);
    trim(d)
}

proof fn lemma_digit_run_bounds(s: Seq<char>, i: int)
    requires
        0 <= i <= s.len(),
    ensures
        i <= digit_run_end(s, i) <= s.len(),
    decreases s.len() - i,
{
    if i < s.len() && is_digit(s[i]) {
        lemma_digit_run_bounds(s, i + 1);
    }
}

fn is_digit_c(c: char) -> (r: bool)
    ensures
        r == is_digit(c),
{
    '0' <= c && c <= '9'
}

fn digit_end(s: &Vec<char>, i: usize) -> (r: usize)
    requires
        i <= s.len(),
    ensures
        r == digit_run_end(s@, i as int),
        i <= r <= s.len(),
{
    let mut j = i;
    while j < s.len() && is_digit_c(s[j])
        invariant
            i <= j <= s.len(),
            digit_run_end(s@, i as int) == digit_run_end(s@, j as int),
        decreases s.len() - j,
    {
        j = j + 1;
    }
    j
}

fn chain_at_exec(s: &Vec<char>, p: usize) -> (r: Option<usize>)
    requires
        p < s.len(),
    ensures
        r matches Some(e) ==> chain_at(s@, p as int) == Some(e as int) && p < e <= s.len(),
        r is None ==> chain_at(s@, p as int) is None,
{
    if !is_digit_c(s[p]) {
        return None;
    }
    let j = digit_end(s, p);
    proof {
        lemma_digit_run_bounds(s@, p + 1);
    }
    let mut e = j;
    let mut c: usize = 0;
    while e < s.len() - 1 && (s[e] == '.' || s[e] == '-') && is_digit_c(s[e + 1])
        invariant
            p < j <= e <= s.len(),
            c <= e,
            groups_end(s@, j as int) == ((groups_end(s@, e as int).0), (groups_end(s@, e as int).1
                + c) as nat),
        decreases s.len() - e,
    {
        let k = digit_end(s, e + 1);
        e = k;
        c = c + 1;
    }
    if c >= 5 {
        Some(e)
    } else {
        None
    }
}

/// `s` with its numeric chains removed.
fn strip_chains(s: &Vec<char>) -> (r: Vec<char>)
    ensures
        r@ == strip_chains_from(s@, 0),
{
    let mut out: Vec<char> = Vec::new();
    let mut p: usize = 0;
    while p < s.len()
        invariant
            p <= s.len(),
            out@ + strip_chains_from(s@, p as int) == strip_chains_from(s@, 0),
        decreases s.len() - p,
    {
        match chain_at_exec(s, p) {
            Some(e) => {
                p = e;
            },
            None => {
                let ghost before = out@;
                out.push(s[p]);
                assert(out@ + strip_chains_from(s@, p + 1) =~= before + strip_chains_from(
                    s@,
                    p as int,
                ));
                p = p + 1;
            },
        }
    }
    assert(out@ + strip_chains_from(s@, p as int) =~= out@);
    out
}

fn is_numeric_line_char_exec(c: char) -> (r: bool)
    ensures
        r == is_numeric_line_char(c),
{
    is_digit_c(c) || c == '.' || c == '-' || c == ',' || c == ' '
}

/// Empties the numeric lines of `s`.
fn strip_numeric_lines(s: &Vec<char>) -> (r: Vec<char>)
    ensures
        r@ == strip_lines_from(s@, 0),
{
    let mut out: Vec<char> = Vec::new();
    let mut p: usize = 0;
    loop
        invariant
            p <= s.len(),
            out@ + strip_lines_from(s@, p as int) == strip_lines_from(s@, 0),
        decreases s.len() + 1 - p,
    {
        let mut e = p;
        let mut numeric = true;
        while e < s.len() && s[e] != '\n'
            invariant
                p <= e <= s.len(),
                line_end(s@, p as int) == line_end(s@, e as int),
                numeric == forall|k: int| p <= k < e ==> is_numeric_line_char(#[trigger] s@[k]),
            decreases s.len() - e,
        {
            numeric = numeric && is_numeric_line_char_exec(s[e]);
            e = e + 1;
        }
        let ghost line = s@.subrange(p as int, e as int);
        assert(numeric == forall|k: int| 0 <= k < line.len() ==> is_numeric_line_char(
            #[trigger] line[k],
        )) by {
            if !numeric {
                let k0 = choose|k: int| p <= k < e && !is_numeric_line_char(#[trigger] s@[k]);
                assert(line[k0 - p] == s@[k0]);
            }
        }
        let ghost before = out@;
        if !(numeric && e - p >= 10) {
            let mut k = p;
            while k < e
                invariant
                    p <= k <= e <= s.len(),
                    out@ == before + s@.subrange(p as int, k as int),
                decreases e - k,
            {
                out.push(s[k]);
                assert(out@ =~= before + s@.subrange(p as int, k + 1));
                k = k + 1;
            }
        }
        assert(out@ == before + (if is_numeric_line(line) {
            Seq::empty()
        } else {
            line
        })) by {
            if is_numeric_line(line) {
                assert(out@ =~= before);
            }
        }
        if e == s.len() {
            assert(out@ =~= strip_lines_from(s@, 0));
            return out;
        }
        out.push('\n');
        assert(out@ + strip_lines_from(s@, e + 1) =~= before + strip_lines_from(s@, p as int));
        p = e + 1;
    }
}

/// Turns each `\r\n` of `s` into `\n` and each tab into a space.
fn normalize_breaks(s: &Vec<char>) -> (r: Vec<char>)
    ensures
        r@ == normalize_breaks_from(s@, 0),
{
    let mut out: Vec<char> = Vec::new();
    let mut p: usize = 0;
    while p < s.len()
        invariant
            p <= s.len(),
            out@ + normalize_breaks_from(s@, p as int) == normalize_breaks_from(s@, 0),
        decreases s.len() - p,
    {
        let ghost before = out@;
        if s[p] == '\r' && p + 1 < s.len() && s[p + 1] == '\n' {
            out.push('\n');
            assert(out@ + normalize_breaks_from(s@, p + 2) =~= before + normalize_breaks_from(
                s@,
                p as int,
            ));
            p = p + 2;
        } else {
            if s[p] == '\t' {
                out.push(' ');
            } else {
                out.push(s[p]);
            }
            assert(out@ + normalize_breaks_from(s@, p + 1) =~= before + normalize_breaks_from(
                s@,
                p as int,
            ));
            p = p + 1;
        }
    }
    assert(out@ + normalize_breaks_from(s@, p as int) =~= out@);
    out
}

/// Makes each run of spaces of `s` a single space.
fn collapse_spaces(s: &Vec<char>) -> (r: Vec<char>)
    ensures
        r@ == collapse_spaces_from(s@, 0),
{
    let mut out: Vec<char> = Vec::new();
    let mut p: usize = 0;
    while p < s.len()
        invariant
            p <= s.len(),
            out@ + collapse_spaces_from(s@, p as int) == collapse_spaces_from(s@, 0),
        decreases s.len() - p,
    {
        let ghost before = out@;
        if s[p] == ' ' {
            let mut e = p;
            while e < s.len() && s[e] == ' '
                invariant
                    p <= e <= s.len(),
                    blank_run_end(s@, p as int) == blank_run_end(s@, e as int),
                    e > p || s@[p as int] == ' ',
                decreases s.len() - e,
            {
                e = e + 1;
            }
            out.push(' ');
            assert(out@ + collapse_spaces_from(s@, e as int) =~= before + collapse_spaces_from(
                s@,
                p as int,
            ));
            p = e;
        } else {
            out.push(s[p]);
            assert(out@ + collapse_spaces_from(s@, p + 1) =~= before + collapse_spaces_from(
                s@,
                p as int,
            ));
            p = p + 1;
        }
    }
    assert(out@ + collapse_spaces_from(s@, p as int) =~= out@);
    out
}

/// Cleans a raw transcript, see [`cleaned`].
pub fn clean_transcript(text: String) -> (r: String)
    ensures
        r@ == cleaned(text@),
{
    let s = chars_of(text.as_str());
    let a = strip_chains(&s);
    let b = strip_numeric_lines(&a);
    let c = normalize_breaks(&b);
    let d = collapse_spaces(&c);
    let e = trim_chars(&d);
    string_of(&e)
}

} // verus!
