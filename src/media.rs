//! Per-stream media acquisition and transcription decisions.
//!
//! Each stream's audio is downloaded once to a deterministic path and split
//! once into fixed-length segments; both steps are skipped when their output
//! already exists, so a run can resume after a crash. The caller looks at the
//! file system, runs the commands and reports back.

use crate::retry::{pow2, pow2_exec, MAX_ATTEMPTS};
use crate::summary::TRANSCRIPT_CHUNK_DELIMITER;
use crate::text::{chars_of, texts, trim_start};
use crate::ytdlp::{CommandLine, YtDlp, YtDlpError};
use vstd::prelude::*;

verus! {

/// Where all artifacts of a run are kept.
pub const WORKDIR: &'static str = "/var/tmp/bunge-bits";

/// The length of an audio segment in seconds.
pub const SEGMENT_SECONDS: u16 = 900;

/// The paths and URL that the acquisition of one stream uses.
#[derive(Debug)]
pub struct MediaPaths {
    /// The page that yt-dlp downloads from.
    pub watch_url: String,
    /// The output template handed to yt-dlp.
    pub audio_output_template: String,
    /// The audio file that the download produces.
    pub audio_mp3_path: String,
    /// The directory of the stream's segments.
    pub chunk_dir: String,
    /// The output template of the segments, numbered with three digits so that
    /// lexicographic and chronological order agree.
    pub chunk_template: String,
    /// The file that the stream's transcript is appended to.
    pub transcript_path: String,
}

/// The paths of stream `id` under `workdir`.
pub fn media_paths(workdir: &str, id: &str) -> (r: MediaPaths)
    ensures
        r.watch_url@ == "https://youtube.com/watch?v="@ + id@,
        r.audio_output_template@ == workdir@ + "/audio/"@ + id@ + ".%(ext)s"@,
        r.audio_mp3_path@ == workdir@ + "/audio/"@ + id@ + ".mp3"@,
        r.chunk_dir@ == workdir@ + "/audio/"@ + id@,
        r.chunk_template@ == workdir@ + "/audio/"@ + id@ + "/"@ + id@ + "_%03d.mp3"@,
        r.transcript_path@ == workdir@ + "/"@ + id@ + ".txt"@,
{
    let mut watch_url = "https://youtube.com/watch?v=".to_owned();
    watch_url.append(id);
    let mut chunk_dir = workdir.to_owned();
    chunk_dir.append("/audio/");
    chunk_dir.append(id);
    let mut audio_output_template = chunk_dir.clone();
    audio_output_template.append(".%(ext)s");
    let mut audio_mp3_path = chunk_dir.clone();
    audio_mp3_path.append(".mp3");
    let mut chunk_template = chunk_dir.clone();
    chunk_template.append("/");
    chunk_template.append(id);
    chunk_template.append("_%03d.mp3");
    let mut transcript_path = workdir.to_owned();
    transcript_path.append("/");
    transcript_path.append(id);
    transcript_path.append(".txt");
    MediaPaths {
        watch_url,
        audio_output_template,
        audio_mp3_path,
        chunk_dir,
        chunk_template,
        transcript_path,
    }
}

/// How far the acquisition of a stream has come in this run.
#[derive(Clone, Copy, Debug, PartialEq, Eq, Structural)]
pub enum AcquisitionStage {
    Start,
    Downloaded,
    Split,
}

/// What the caller does next for a stream.
#[derive(Clone, Copy, Debug, PartialEq, Eq, Structural)]
pub enum AcquisitionAction {
    /// Run the download command, then report the stage `Downloaded`.
    DownloadAudio,
    /// Create the segment directory and run the split command, then report `Split`.
    SplitAudio,
    /// The stream's segments are in place.
    Done,
    /// The download ran but the audio file is missing.
    MissingAudio,
}

/// The next action, given the stage and whether the audio file and at least one
/// segment exist now.
pub open spec fn acquisition_action(
    stage: AcquisitionStage,
    audio_present: bool,
    chunks_present: bool,
) -> AcquisitionAction {
    match stage {
        AcquisitionStage::Start => if !audio_present {
            AcquisitionAction::DownloadAudio
        } else if !chunks_present {
            AcquisitionAction::SplitAudio
        } else {
            AcquisitionAction::Done
        },
        AcquisitionStage::Downloaded => if !audio_present {
            AcquisitionAction::MissingAudio
        } else if !chunks_present {
            AcquisitionAction::SplitAudio
        } else {
            AcquisitionAction::Done
        },
        AcquisitionStage::Split => AcquisitionAction::Done,
    }
}

/// The next action of a stream's acquisition, see [`acquisition_action`].
pub fn next_acquisition_action(
    stage: AcquisitionStage,
    audio_present: bool,
    chunks_present: bool,
) -> (r: AcquisitionAction)
    ensures
        r == acquisition_action(stage, audio_present, chunks_present),
{
    match stage {
        AcquisitionStage::Start => if !audio_present {
            AcquisitionAction::DownloadAudio
        } else if !chunks_present {
            AcquisitionAction::SplitAudio
        } else {
            AcquisitionAction::Done
        },
        AcquisitionStage::Downloaded => if !audio_present {
            AcquisitionAction::MissingAudio
        } else if !chunks_present {
            AcquisitionAction::SplitAudio
        } else {
            AcquisitionAction::Done
        },
        AcquisitionStage::Split => AcquisitionAction::Done,
    }
}

/// The command that downloads a stream's audio as mp3.
pub fn download_command(ytdlp: &YtDlp, paths: &MediaPaths) -> (r: CommandLine)
    ensures
        r.program@ == ytdlp.binary_path@,
        crate::text::texts(r.args@) == ytdlp.cookie_args() + seq![
            "-f"@,
            "bestaudio"@,
            "-x"@,
            "--audio-format"@,
            "mp3"@,
            "--output"@,
            paths.audio_output_template@,
            paths.watch_url@,
        ],
{
    ytdlp.download_audio(paths.watch_url.as_str(), "mp3", paths.audio_output_template.as_str())
}

/// The command that splits a stream's audio into segments of [`SEGMENT_SECONDS`].
pub fn split_command(ytdlp: &YtDlp, paths: &MediaPaths) -> (r: Result<CommandLine, YtDlpError>)
    ensures
        crate::ytdlp::ffmpeg_outcome(
            r,
            paths.chunk_template@,
            |codec: Seq<char>|
                seq![
                    "-i"@,
                    paths.audio_mp3_path@,
                    "-f"@,
                    "segment"@,
                    "-segment_time"@,
                    crate::text::decimal_digits(SEGMENT_SECONDS as nat),
                    "-ac"@,
                    "1"@,
                    "-ar"@,
                    "16000"@,
                    "-c:a"@,
                    codec,
                    paths.chunk_template@,
                ],
        ),
{
    ytdlp.split_audio_to_chunks(
        paths.audio_mp3_path.as_str(),
        SEGMENT_SECONDS,
        paths.chunk_template.as_str(),
    )
}

/// A transcription reply that starts, after whitespace, with `{`: an error
/// payload returned in place of text.
pub open spec fn is_json_payload(text: Seq<char>) -> bool {
    trim_start(text).len() > 0 && trim_start(text)[0] == '{'
}

/// Whether a transcription reply is an error payload, see [`is_json_payload`].
pub fn looks_like_json_error(text: &str) -> (r: bool)
    ensures
        r == is_json_payload(text@),
{
    let v = chars_of(text);
    let mut i: usize = 0;
    assert(v@.subrange(0, v.len() as int) =~= v@);
    while i < v.len() && crate::text::is_space_char(v[i])
        invariant
            i <= v.len(),
            trim_start(v@) == trim_start(v@.subrange(i as int, v.len() as int)),
        decreases v.len() - i,
    {
        assert(v@.subrange(i as int, v.len() as int).drop_first() =~= v@.subrange(
            i + 1,
            v.len() as int,
        ));
        i = i + 1;
    }
    let ghost rest = v@.subrange(i as int, v.len() as int);
    assert(trim_start(rest) == rest);
    i < v.len() && v[i] == '{'
}

/// The wait in seconds before transcription attempt `attempt + 1`, none once
/// [`MAX_ATTEMPTS`] attempts have failed.
pub fn transcription_retry_seconds(attempt: u32) -> (r: Option<u64>)
    ensures
        attempt >= MAX_ATTEMPTS ==> r is None,
        attempt < MAX_ATTEMPTS ==> r == Some(pow2(attempt as nat) as u64),
{
    if attempt >= MAX_ATTEMPTS {
        None
    } else {
        Some(pow2_exec(attempt))
    }
}

/// What is appended to a stream's transcript file for one transcribed segment.
pub fn transcript_entry(text: &str) -> (r: String)
    ensures
        r@ == text@ + TRANSCRIPT_CHUNK_DELIMITER@ + "\n"@,
{
    let mut r = text.to_owned();
    r.append(TRANSCRIPT_CHUNK_DELIMITER);
    r.append("\n");
    r
}

/// `a` comes strictly before `b` in character order.
pub open spec fn lex_lt(a: Seq<char>, b: Seq<char>) -> bool
    decreases a.len(),
{
    if a.len() == 0 {
        b.len() > 0
    } else if b.len() == 0 {
        false
    } else if (a[0] as u32) != (b[0] as u32) {
        (a[0] as u32) < (b[0] as u32)
    } else {
        lex_lt(a.drop_first(), b.drop_first())
    }
}

/// `b` does not come strictly before `a`.
pub open spec fn lex_le(a: Seq<char>, b: Seq<char>) -> bool {
    !lex_lt(b, a)
}

/// Every name comes before or equals every later one.
pub open spec fn lex_sorted(s: Seq<Seq<char>>) -> bool {
    forall|i: int, j: int| 0 <= i < j < s.len() ==> lex_le(#[trigger] s[i], #[trigger] s[j])
}

proof fn lemma_lex_split(c: Seq<char>, a: Seq<char>, b: Seq<char>)
    requires
        lex_lt(c, a),
    ensures
        lex_lt(c, b) || lex_lt(b, a),
    decreases c.len(),
{
    if c.len() > 0 && a.len() > 0 && b.len() > 0 {
        let (c0, a0, b0) = (c[0] as u32, a[0] as u32, b[0] as u32);
        if c0 == a0 && a0 == b0 {
            lemma_lex_split(c.drop_first(), a.drop_first(), b.drop_first());
        }
    }
}

proof fn lemma_lex_asym(a: Seq<char>, b: Seq<char>)
    requires
        lex_lt(a, b),
    ensures
        !lex_lt(b, a),
    decreases a.len(),
{
    if a.len() > 0 && b.len() > 0 && (a[0] as u32) == (b[0] as u32) {
        lemma_lex_asym(a.drop_first(), b.drop_first());
    }
}

proof fn lemma_lex_trans(a: Seq<char>, b: Seq<char>, c: Seq<char>)
    requires
        lex_le(a, b),
        lex_le(b, c),
    ensures
        lex_le(a, c),
{
    if lex_lt(c, a) {
        lemma_lex_split(c, a, b);
    }
}

fn lex_lt_exec(a: &String, b: &String) -> (r: bool)
    ensures
        r == lex_lt(a@, b@),
{
    let x = chars_of(a.as_str());
    let y = chars_of(b.as_str());
    let mut i: usize = 0;
    assert(x@.skip(0) =~= x@);
    assert(y@.skip(0) =~= y@);
    while i < x.len() && i < y.len() && (x[i] as u32) == (y[i] as u32)
        invariant
            i <= x.len(),
            i <= y.len(),
            x@ == a@,
            y@ == b@,
            lex_lt(a@, b@) == lex_lt(x@.skip(i as int), y@.skip(i as int)),
        decreases x.len() - i,
    {
        assert(x@.skip(i as int).drop_first() =~= x@.skip(i + 1));
        assert(y@.skip(i as int).drop_first() =~= y@.skip(i + 1));
        i = i + 1;
    }
    if i == x.len() {
        assert(x@.skip(i as int).len() == 0);
        i < y.len()
    } else if i == y.len() {
        assert(y@.skip(i as int).len() == 0);
        false
    } else {
        assert(x@.skip(i as int)[0] == x@[i as int]);
        assert(y@.skip(i as int)[0] == y@[i as int]);
        (x[i] as u32) < (y[i] as u32)
    }
}

/// The segment paths of one stream in character order, which the zero-padded
/// sequence numbers make the chronological order.
pub fn order_segments(paths: Vec<String>) -> (r: Vec<String>)
    ensures
        lex_sorted(texts(r@)),
        texts(r@).to_multiset() == texts(paths@).to_multiset(),
{
    let mut out: Vec<String> = Vec::new();
    let mut i: usize = 0;
    assert(texts(paths@.take(0)) =~= texts(out@));
    while i < paths.len()
        invariant
            i <= paths.len(),
            lex_sorted(texts(out@)),
            texts(out@).to_multiset() == texts(paths@.take(i as int)).to_multiset(),
        decreases paths.len() - i,
    {
        let x = paths[i].clone();
        let mut p: usize = 0;
        while p < out.len() && !lex_lt_exec(&x, &out[p])
            invariant
                p <= out.len(),
                forall|k: int| 0 <= k < p ==> lex_le(#[trigger] texts(out@)[k], x@),
            decreases out.len() - p,
        {
            p = p + 1;
        }
        let ghost before = texts(out@);
        proof {
            if p < before.len() {
                lemma_lex_asym(x@, before[p as int]);
            }
            assert forall|k: int| p <= k < before.len() implies lex_le(x@, #[trigger] before[k]) by {
                if k > p {
                    lemma_lex_trans(x@, before[p as int], before[k]);
                }
            }
        }
        out.insert(p, x);
        let ghost after = texts(out@);
        assert(after =~= before.insert(p as int, x@));
        assert forall|a: int, b: int| 0 <= a < b < after.len() implies lex_le(
            #[trigger] after[a],
            #[trigger] after[b],
        ) by {
            if b < p {
                assert(after[a] == before[a] && after[b] == before[b]);
            } else if b == p {
                assert(after[a] == before[a]);
            } else if a > p {
                assert(after[a] == before[a - 1] && after[b] == before[b - 1]);
            } else if a == p {
                assert(after[b] == before[b - 1]);
                assert(lex_le(x@, before[b - 1]));
            } else {
                assert(after[a] == before[a] && after[b] == before[b - 1]);
                assert(lex_le(before[a], x@));
                assert(lex_le(x@, before[b - 1]));
                lemma_lex_trans(before[a], x@, before[b - 1]);
            }
        }
        proof {
            vstd::seq_lib::to_multiset_insert(before, p as int, x@);
            assert(texts(paths@.take(i + 1)) =~= texts(paths@.take(i as int)).push(x@));
            vstd::seq_lib::to_multiset_build(texts(paths@.take(i as int)), x@);
        }
        i = i + 1;
    }
    assert(paths@.take(paths.len() as int) =~= paths@);
    out
}

} // verus!
