//! The prompts of the summarization requests.
//!
//! The instruction texts are the caller's; the library fills their
//! placeholders and frames the transcript, chunk, context and summaries.

use crate::relative_time::{age_seconds, now_in_range, timestamp_at};
use crate::stream::{current_time, Stream, MAX_TIMESTAMP, MIN_TIMESTAMP};
use crate::text::{chars_of, find_from, find_from_exec, lemma_find_from, string_of};
use vstd::prelude::*;

verus! {

/// The placeholder for the stream's title.
pub const TITLE_PLACEHOLDER: &'static str = "${{TITLE}}";

/// The placeholder for the stream's date.
pub const DATE_PLACEHOLDER: &'static str = "${{DATE}}";

/// What stands for the date when the stream's date cannot be inferred.
pub const DATE_FALLBACK: &'static str = "${{DATE: inferred from summary}}";

/// The start of a chunk prompt.
pub const CHUNK_PROMPT_HEAD: &'static str = "\nYou are summarizing a *portion* of a single full sitting of the Kenyan National Assembly.\n\nThis is **not** the complete transcript. Your task is to extract relevant information that will later be combined with summaries from other chunks to produce a full, structured summary. You must follow these exact instructions and **not attempt to format the final output** yourself.\n\n---\n\n";

/// What introduces the context in a chunk prompt.
pub const CONTEXT_INTRO: &'static str = "Optional Context (may help interpret this chunk):\n\n";

/// What follows the context in a chunk prompt.
pub const CONTEXT_OUTRO: &'static str = "\n\nUse it only to improve understanding of ambiguous or partial content in the chunk. Do not hallucinate based on context alone.\n\n---\n\n";

/// What introduces the chunk in a chunk prompt.
pub const CHUNK_INTRO: &'static str = "Transcript Chunk:\n";

/// What introduces the transcript in a whole-transcript prompt.
pub const TRANSCRIPT_INTRO: &'static str = "The full transcript:\n\n";

/// What introduces the summaries in a combine prompt.
pub const SUMMARIES_INTRO: &'static str = "\n\nSummaries:\n";

/// `s[start..]` with every occurrence of `p` replaced by `rep`, from the left.
pub open spec fn replace_from(s: Seq<char>, p: Seq<char>, rep: Seq<char>, start: int) -> Seq<char>
    decreases s.len() + 1 - start,
{
    if start < 0 || start > s.len() || p.len() == 0 {
        Seq::empty()
    } else {
        match find_from(s, p, start) {
            Some(i) => if start <= i && i + p.len() <= s.len() {
                s.subrange(start, i) + rep + replace_from(s, p, rep, i + p.len())
            } else {
                Seq::empty()
            },
            None => s.subrange(start, s.len() as int),
        }
    }
}

/// `s` with every occurrence of the non-empty `p` replaced by `rep`, as
/// `str::replace` gives it.
pub open spec fn replace_all(s: Seq<char>, p: Seq<char>, rep: Seq<char>) -> Seq<char> {
    replace_from(s, p, rep, 0)
}

/// `s` with every occurrence of `p` replaced by `rep`.
pub fn replace_str(s: &str, p: &str, rep: &str) -> (r: String)
    requires
        p@.len() > 0,
    ensures
        r@ == replace_all(s@, p@, rep@),
{
    let sv = chars_of(s);
    let pv = chars_of(p);
    let rv = chars_of(rep);
    let mut out: Vec<char> = Vec::new();
    let mut start: usize = 0;
    loop
        invariant
            start <= sv.len(),
            sv@ == s@,
            pv@ == p@,
            rv@ == rep@,
            pv@.len() > 0,
            out@ + replace_from(sv@, pv@, rv@, start as int) == replace_all(sv@, pv@, rv@),
        decreases sv.len() + 1 - start,
    {
        match find_from_exec(&sv, &pv, start) {
            Some(i) => {
                proof {
                    lemma_find_from(sv@, pv@, start as int);
                }
                assert(i + pv@.len() <= sv@.len());
                let ghost before = out@;
                let mut k = start;
                while k < i
                    invariant
                        start <= k <= i <= sv.len(),
                        out@ == before + sv@.subrange(start as int, k as int),
                    decreases i - k,
                {
                    out.push(sv[k]);
                    assert(out@ =~= before + sv@.subrange(start as int, k + 1));
                    k = k + 1;
                }
                let ghost mid = out@;
                let mut m: usize = 0;
                while m < rv.len()
                    invariant
                        m <= rv.len(),
                        out@ == mid + rv@.take(m as int),
                    decreases rv.len() - m,
                {
                    out.push(rv[m]);
                    assert(out@ =~= mid + rv@.take(m + 1));
                    m = m + 1;
                }
                assert(rv@.take(rv.len() as int) =~= rv@);
                assert(out@ + replace_from(sv@, pv@, rv@, (i + pv.len()) as int) =~= before
                    + replace_from(sv@, pv@, rv@, start as int));
                start = i + pv.len();
            },
            None => {
                let ghost before = out@;
                let mut k = start;
                while k < sv.len()
                    invariant
                        start <= k <= sv.len(),
                        out@ == before + sv@.subrange(start as int, k as int),
                    decreases sv.len() - k,
                {
                    out.push(sv[k]);
                    assert(out@ =~= before + sv@.subrange(start as int, k + 1));
                    k = k + 1;
                }
                return string_of(&out);
            },
        }
    }
}

/// `template` with its title and date placeholders filled in.
pub fn fill_template(template: &str, title: &str, date: &str) -> (r: String)
    ensures
        r@ == replace_all(
            replace_all(template@, TITLE_PLACEHOLDER@, title@),
            DATE_PLACEHOLDER@,
            date@,
        ),
{
    proof {
        reveal_strlit("${{TITLE}}");
        reveal_strlit("${{DATE}}");
    }
    let with_title = replace_str(template, TITLE_PLACEHOLDER, title);
    replace_str(with_title.as_str(), DATE_PLACEHOLDER, date)
}

/// How chrono displays the UTC time `t` seconds after the Unix epoch
/// (`YYYY-MM-DD hh:mm:ss UTC`).
pub uninterp spec fn utc_display_of(t: int) -> Seq<char>;

/// Relies on `chrono::DateTime::from_timestamp` and the `Display` of
/// `DateTime<Utc>`: `None` exactly outside chrono's range of dates, else the
/// displayed time.
#[verifier::external_body]
fn utc_display(t: i64) -> (r: Option<String>)
    ensures
        r is Some <==> MIN_TIMESTAMP <= t <= MAX_TIMESTAMP,
        r matches Some(s) ==> s@ == utc_display_of(t as int),
{
    match chrono::DateTime::<chrono::Utc>::from_timestamp(t, 0) {
        Some(d) => Some(d.to_string()),
        None => None,
    }
}

/// The date that a prompt names for `stream` when read at time `now`: the
/// displayed publication time, or [`DATE_FALLBACK`] when there is none or it
/// lies outside chrono's range.
pub fn prompt_date_at(stream: &Stream, now: i64) -> (r: String)
    requires
        now_in_range(now),
    ensures
        match timestamp_at(stream.streamed_date@, now as int) {
            Some(t) => if MIN_TIMESTAMP <= t <= MAX_TIMESTAMP {
                r@ == utc_display_of(t)
            } else {
                r@ == DATE_FALLBACK@
            },
            None => r@ == DATE_FALLBACK@,
        },
{
    match stream.timestamp_at(now) {
        Some(t) => match utc_display(t) {
            Some(s) => s,
            None => DATE_FALLBACK.to_owned(),
        },
        None => DATE_FALLBACK.to_owned(),
    }
}

/// The date that a prompt names for `stream`, read at the current time;
/// [`DATE_FALLBACK`] also when the clock cannot be read.
pub fn prompt_date(stream: &Stream) -> (r: String)
    ensures
        age_seconds(stream.streamed_date@) is None ==> r@ == DATE_FALLBACK@,
        age_seconds(stream.streamed_date@) matches Some(a) ==> r@ == DATE_FALLBACK@ || exists|
            t: int,
        | 0 <= t + a <= MAX_TIMESTAMP && r@ == #[trigger] utc_display_of(t),
{
    match current_time() {
        Some(now) => {
            let r = prompt_date_at(stream, now);
            assert(age_seconds(stream.streamed_date@) matches Some(a) ==> r@ == utc_display_of(
                now - a,
            ) && 0 <= (now - a) + a <= MAX_TIMESTAMP);
            r
        },
        None => DATE_FALLBACK.to_owned(),
    }
}

/// The user prompt that carries a whole transcript.
pub fn whole_transcript_prompt(transcript: &str) -> (r: String)
    ensures
        r@ == TRANSCRIPT_INTRO@ + transcript@,
{
    let mut r = TRANSCRIPT_INTRO.to_owned();
    r.append(transcript);
    r
}

/// The prompt for one chunk, with the context when there is one, followed by
/// the `instructions`.
pub fn chunk_prompt(chunk: &str, context: Option<&str>, instructions: &str) -> (r: String)
    ensures
        r@ == CHUNK_PROMPT_HEAD@ + match context {
            Some(c) => CONTEXT_INTRO@ + c@ + CONTEXT_OUTRO@,
            None => Seq::empty(),
        } + CHUNK_INTRO@ + chunk@ + "\n\n"@ + instructions@ + "\n"@,
{
    let mut r = CHUNK_PROMPT_HEAD.to_owned();
    let ghost head = r@;
    if let Some(c) = context {
        r.append(CONTEXT_INTRO);
        r.append(c);
        r.append(CONTEXT_OUTRO);
    } else {
        assert(r@ =~= head + Seq::<char>::empty());
    }
    r.append(CHUNK_INTRO);
    r.append(chunk);
    r.append("\n\n");
    r.append(instructions);
    r.append("\n");
    r
}

/// The prompt that combines chunk summaries: the filled instructions, then the
/// summaries joined with newlines.
pub fn combine_prompt(filled_instructions: &str, summaries: &Vec<String>) -> (r: String)
    ensures
        r@ == "\n"@ + filled_instructions@ + SUMMARIES_INTRO@ + crate::summary::join_lines(
            crate::text::texts(summaries@),
        ) + "\n"@,
{
    let joined = crate::summary::join_with_newlines(summaries);
    let mut r = "\n".to_owned();
    r.append(filled_instructions);
    r.append(SUMMARIES_INTRO);
    r.append(joined.as_str());
    r.append("\n");
    r
}

} // verus!
