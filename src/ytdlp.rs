//! Command lines for the yt-dlp downloader and the ffmpeg audio tools.
//!
//! The library decides what to run; the caller spawns the process.

use crate::text::{chars_of, decimal_digits, decimal_string, push_str, string_of, texts};
use vstd::prelude::*;

verus! {

/// Errors of the media tools.
#[derive(Debug)]
pub enum YtDlpError {
    /// The process could not be started.
    ExecutionError(String),
    /// The process exited with a failure status.
    NonZeroExit { command: String, status: i32, output: String },
    InvalidPath(String),
    BinaryNotFound(String),
    VttReadError(String),
    JsonParseError(String),
    InvalidInputPath(String),
    /// The output file's extension names no supported audio format.
    UnsupportedFormat(String),
}

/// A program and its arguments.
#[derive(Debug)]
pub struct CommandLine {
    pub program: String,
    pub args: Vec<String>,
}

/// How to run yt-dlp: the binary, and the cookies file passed to every call.
#[derive(Debug)]
pub struct YtDlp {
    pub binary_path: String,
    pub cookies_path: Option<String>,
}

/// How many times a yt-dlp call that exits with a failure status is tried.
pub const YT_DLP_MAX_ATTEMPTS: u32 = 3;

/// Whether a yt-dlp call is tried again after its attempt number `attempt`
/// (counted from one) failed with `err`.
pub fn yt_dlp_should_retry(err: &YtDlpError, attempt: u32) -> (r: bool)
    ensures
        r == (err is NonZeroExit && attempt < YT_DLP_MAX_ATTEMPTS),
{
    match err {
        YtDlpError::NonZeroExit { .. } => attempt < YT_DLP_MAX_ATTEMPTS,
        _ => false,
    }
}

/// `s` without its trailing slashes.
pub open spec fn strip_trailing_slashes(s: Seq<char>) -> Seq<char>
    decreases s.len(),
{
    if s.len() > 0 && s.last() == '/' {
        strip_trailing_slashes(s.drop_last())
    } else {
        s
    }
}

/// The index of the last `c` in `s`, or -1.
pub open spec fn last_index_of(s: Seq<char>, c: char) -> int
    decreases s.len(),
{
    if s.len() == 0 {
        -1
    } else if s.last() == c {
        s.len() - 1
    } else {
        last_index_of(s.drop_last(), c)
    }
}

/// The last component of a path.
pub open spec fn file_name_of(path: Seq<char>) -> Seq<char> {
    let t = strip_trailing_slashes(path);
    t.skip(last_index_of(t, '/') + 1)
}

/// The extension of a path: what follows the last `.` of its file name, empty
/// when the name has no `.` after its first character.
pub open spec fn extension_of(path: Seq<char>) -> Seq<char> {
    let name = file_name_of(path);
    let k = last_index_of(name, '.');
    if k > 0 {
        name.skip(k + 1)
    } else {
        Seq::empty()
    }
}

/// `c` with ASCII capitals made small.
pub open spec fn ascii_lower(c: char) -> char {
    if 'A' <= c && c <= 'Z' {
        ((c as u32) + 32) as char
    } else {
        c
    }
}

/// The codec that ffmpeg uses for an audio extension (already lowercased).
pub open spec fn codec_for(ext: Seq<char>) -> Option<Seq<char>> {
    if ext == "wav"@ {
        Some("pcm_s16le"@)
    } else if ext == "mp3"@ {
        Some("libmp3lame"@)
    } else if ext == "flac"@ {
        Some("flac"@)
    } else if ext == "aac"@ {
        Some("aac"@)
    } else {
        None
    }
}

proof fn lemma_last_index_bounds(s: Seq<char>, c: char)
    ensures
        -1 <= last_index_of(s, c) < s.len(),
        last_index_of(s, c) >= 0 ==> s[last_index_of(s, c)] == c,
        forall|k: int| last_index_of(s, c) < k < s.len() ==> s[k] != c,
    decreases s.len(),
{
    if s.len() > 0 && s.last() != c {
        lemma_last_index_bounds(s.drop_last(), c);
        assert forall|k: int| last_index_of(s, c) < k < s.len() implies s[k] != c by {
            if k < s.len() - 1 {
                assert(s.drop_last()[k] == s[k]);
            }
        }
    }
}

fn last_index_exec(s: &Vec<char>, len: usize, c: char) -> (r: Option<usize>)
    requires
        len <= s.len(),
    ensures
        r matches Some(k) ==> k < len,
        match r {
            Some(k) => last_index_of(s@.take(len as int), c) == k,
            None => last_index_of(s@.take(len as int), c) == -1,
        },
{
    let mut i = len;
    while i > 0
        invariant
            i <= len <= s.len(),
            last_index_of(s@.take(len as int), c) == last_index_of(s@.take(i as int), c),
        decreases i,
    {
        assert(s@.take(i as int).drop_last() =~= s@.take(i - 1));
        if s[i - 1] == c {
            return Some(i - 1);
        }
        i = i - 1;
    }
    None
}

/// The lowercased extension of `path`, see [`extension_of`].
pub fn extension_lowercase(path: &str) -> (r: String)
    ensures
        r@ == extension_of(path@).map_values(|c: char| ascii_lower(c)),
{
    let s = chars_of(path);
    let mut end = s.len();
    assert(s@.take(s.len() as int) =~= s@);
    while end > 0 && s[end - 1] == '/'
        invariant
            end <= s.len(),
            strip_trailing_slashes(s@) == strip_trailing_slashes(s@.take(end as int)),
        decreases end,
    {
        assert(s@.take(end as int).drop_last() =~= s@.take(end - 1));
        end = end - 1;
    }
    assert(s@.take(s.len() as int) =~= s@);
    let ghost t = s@.take(end as int);
    assert(strip_trailing_slashes(t) == t);
    let name_start = match last_index_exec(&s, end, '/') {
        Some(k) => k + 1,
        None => 0,
    };
    let name = crate::text::slice_of(&s, name_start, end);
    assert(name@ =~= file_name_of(path@));
    let mut out: Vec<char> = Vec::new();
    match last_index_exec(&name, name.len(), '.') {
        Some(k) => {
            assert(name@.take(name.len() as int) =~= name@);
            proof {
                lemma_last_index_bounds(name@, '.');
            }
            if k > 0 {
                let mut i = k + 1;
                while i < name.len()
                    invariant
                        k + 1 <= i <= name.len(),
                        out@ == name@.subrange(k + 1, i as int).map_values(|c: char| ascii_lower(c)),
                    decreases name.len() - i,
                {
                    let c = name[i];
                    let l = if 'A' <= c && c <= 'Z' {
                        ((c as u8) + 32) as char
                    } else {
                        c
                    };
                    out.push(l);
                    assert(out@ =~= name@.subrange(k + 1, i + 1).map_values(|c: char| ascii_lower(c)));
                    i = i + 1;
                }
                assert(name@.subrange(k + 1, name.len() as int) =~= name@.skip(k + 1));
            } else {
                assert(out@ =~= Seq::<char>::empty().map_values(|c: char| ascii_lower(c)));
            }
        },
        None => {
            assert(name@.take(name.len() as int) =~= name@);
            assert(out@ =~= Seq::<char>::empty().map_values(|c: char| ascii_lower(c)));
        },
    }
    string_of(&out)
}

/// The ffmpeg codec for the audio format that `path`'s extension names.
pub fn infer_codec(path: &str) -> (r: Result<&'static str, YtDlpError>)
    ensures
        match codec_for(extension_of(path@).map_values(|c: char| ascii_lower(c))) {
            Some(codec) => r matches Ok(k) && k@ == codec,
            None => r matches Err(YtDlpError::UnsupportedFormat(e)) && e@ == extension_of(
                path@,
            ).map_values(|c: char| ascii_lower(c)),
        },
{
    let ext = extension_lowercase(path);
    if ext == "wav".to_owned() {
        Ok("pcm_s16le")
    } else if ext == "mp3".to_owned() {
        Ok("libmp3lame")
    } else if ext == "flac".to_owned() {
        Ok("flac")
    } else if ext == "aac".to_owned() {
        Ok("aac")
    } else {
        Err(YtDlpError::UnsupportedFormat(ext))
    }
}

/// The ffmpeg command that applies the audio filter `filter` to `input` and
/// writes mono 16 kHz audio to `output`, in the codec of `output`'s extension.
pub open spec fn filter_args(input: Seq<char>, filter: Seq<char>, codec: Seq<char>, output: Seq<char>) -> Seq<Seq<char>> {
    seq!["-i"@, input, "-af"@, filter, "-ar"@, "16000"@, "-ac"@, "1"@, "-c:a"@, codec, output]
}

/// The outcome of an ffmpeg command for `output`: the command with `args(codec)`
/// when its extension names a supported format, else the unsupported extension.
pub open spec fn ffmpeg_outcome(
    r: Result<CommandLine, YtDlpError>,
    output: Seq<char>,
    args: spec_fn(Seq<char>) -> Seq<Seq<char>>,
) -> bool {
    let ext = extension_of(output).map_values(|c: char| ascii_lower(c));
    match codec_for(ext) {
        Some(codec) => r matches Ok(cmd) && cmd.program@ == "ffmpeg"@ && texts(cmd.args@) == args(
            codec,
        ),
        None => r matches Err(YtDlpError::UnsupportedFormat(e)) && e@ == ext,
    }
}

impl YtDlp {
    /// The arguments that pass the cookies file, if any.
    pub open spec fn cookie_args(&self) -> Seq<Seq<char>> {
        match self.cookies_path {
            Some(c) => seq!["--cookies"@, c@],
            None => Seq::empty(),
        }
    }

    /// yt-dlp as found on the search path, without cookies.
    pub fn new() -> (r: Result<YtDlp, YtDlpError>)
        ensures
            r matches Ok(y) && y.binary_path@ == "yt-dlp"@ && y.cookies_path is None,
    {
        Ok(YtDlp { binary_path: "yt-dlp".to_owned(), cookies_path: None })
    }

    /// The binary at `binary_path`, with an optional cookies file.
    pub fn new_with_cookies(binary_path: String, cookies_path: Option<String>) -> (r: YtDlp)
        ensures
            r.binary_path == binary_path,
            r.cookies_path == cookies_path,
    {
        YtDlp { binary_path, cookies_path }
    }

    /// The yt-dlp command with the given arguments, after the cookies.
    pub fn command(&self, args: &Vec<String>) -> (r: CommandLine)
        ensures
            r.program@ == self.binary_path@,
            texts(r.args@) == self.cookie_args() + texts(args@),
    {
        let mut all: Vec<String> = Vec::new();
        if let Some(c) = &self.cookies_path {
            push_str(&mut all, "--cookies");
            push_str(&mut all, c.as_str());
        }
        let mut i: usize = 0;
        assert(texts(all@) =~= self.cookie_args());
        while i < args.len()
            invariant
                i <= args.len(),
                texts(all@) == self.cookie_args() + texts(args@.take(i as int)),
            decreases args.len() - i,
        {
            push_str(&mut all, args[i].as_str());
            assert(texts(args@.take(i + 1)) =~= texts(args@.take(i as int)).push(args@[i as int]@));
            i = i + 1;
        }
        assert(args@.take(args.len() as int) =~= args@);
        assert(texts(all@) =~= self.cookie_args() + texts(args@));
        CommandLine { program: self.binary_path.clone(), args: all }
    }

    /// Downloads one video in `format` to `output_template`.
    pub fn download_video(&self, url: &str, format: &str, output_template: &str) -> (r: CommandLine)
        ensures
            r.program@ == self.binary_path@,
            texts(r.args@) == self.cookie_args() + seq!["-f"@, format@, "--output"@, output_template@, url@],
    {
        let mut a: Vec<String> = Vec::new();
        push_str(&mut a, "-f");
        push_str(&mut a, format);
        push_str(&mut a, "--output");
        push_str(&mut a, output_template);
        push_str(&mut a, url);
        assert(texts(a@) =~= seq!["-f"@, format@, "--output"@, output_template@, url@]);
        self.command(&a)
    }

    /// Downloads the best audio of one video, converted to `format`.
    pub fn download_audio(&self, url: &str, format: &str, output_template: &str) -> (r: CommandLine)
        ensures
            r.program@ == self.binary_path@,
            texts(r.args@) == self.cookie_args() + seq![
                "-f"@,
                "bestaudio"@,
                "-x"@,
                "--audio-format"@,
                format@,
                "--output"@,
                output_template@,
                url@,
            ],
    {
        let mut a: Vec<String> = Vec::new();
        push_str(&mut a, "-f");
        push_str(&mut a, "bestaudio");
        push_str(&mut a, "-x");
        push_str(&mut a, "--audio-format");
        push_str(&mut a, format);
        push_str(&mut a, "--output");
        push_str(&mut a, output_template);
        push_str(&mut a, url);
        assert(texts(a@) =~= seq![
            "-f"@,
            "bestaudio"@,
            "-x"@,
            "--audio-format"@,
            format@,
            "--output"@,
            output_template@,
            url@,
        ]);
        self.command(&a)
    }

    /// Downloads every video of a playlist in `format`.
    pub fn download_playlist(&self, playlist_url: &str, format: &str, output_template: &str) -> (r: CommandLine)
        ensures
            r.program@ == self.binary_path@,
            texts(r.args@) == self.cookie_args() + seq![
                "-f"@,
                format@,
                "--output"@,
                output_template@,
                "--yes-playlist"@,
                playlist_url@,
            ],
    {
        let mut a: Vec<String> = Vec::new();
        push_str(&mut a, "-f");
        push_str(&mut a, format);
        push_str(&mut a, "--output");
        push_str(&mut a, output_template);
        push_str(&mut a, "--yes-playlist");
        push_str(&mut a, playlist_url);
        assert(texts(a@) =~= seq![
            "-f"@,
            format@,
            "--output"@,
            output_template@,
            "--yes-playlist"@,
            playlist_url@,
        ]);
        self.command(&a)
    }

    /// Downloads the best audio of every video of a playlist, converted to `format`.
    pub fn download_audio_playlist(
        &self,
        playlist_url: &str,
        format: &str,
        output_template: &str,
    ) -> (r: CommandLine)
        ensures
            r.program@ == self.binary_path@,
            texts(r.args@) == self.cookie_args() + seq![
                "-f"@,
                "bestaudio"@,
                "-x"@,
                "--audio-format"@,
                format@,
                "--output"@,
                output_template@,
                "--yes-playlist"@,
                playlist_url@,
            ],
    {
        let mut a: Vec<String> = Vec::new();
        push_str(&mut a, "-f");
        push_str(&mut a, "bestaudio");
        push_str(&mut a, "-x");
        push_str(&mut a, "--audio-format");
        push_str(&mut a, format);
        push_str(&mut a, "--output");
        push_str(&mut a, output_template);
        push_str(&mut a, "--yes-playlist");
        push_str(&mut a, playlist_url);
        assert(texts(a@) =~= seq![
            "-f"@,
            "bestaudio"@,
            "-x"@,
            "--audio-format"@,
            format@,
            "--output"@,
            output_template@,
            "--yes-playlist"@,
            playlist_url@,
        ]);
        self.command(&a)
    }

    /// Downloads `url` with the caller's own options.
    pub fn download_with_options(&self, url: &str, options: &Vec<String>) -> (r: CommandLine)
        ensures
            r.program@ == self.binary_path@,
            texts(r.args@) == self.cookie_args() + texts(options@).push(url@),
    {
        let mut a: Vec<String> = Vec::new();
        let mut i: usize = 0;
        while i < options.len()
            invariant
                i <= options.len(),
                texts(a@) == texts(options@.take(i as int)),
            decreases options.len() - i,
        {
            push_str(&mut a, options[i].as_str());
            assert(texts(options@.take(i + 1)) =~= texts(options@.take(i as int)).push(options@[i as int]@));
            i = i + 1;
        }
        assert(options@.take(options.len() as int) =~= options@);
        push_str(&mut a, url);
        self.command(&a)
    }

    /// Downloads the automatic subtitles of `url`, not the video.
    pub fn download_auto_sub(&self, url: &str, output_template: &str) -> (r: CommandLine)
        ensures
            r.program@ == self.binary_path@,
            texts(r.args@) == self.cookie_args() + seq![
                "--write-auto-sub"@,
                "--skip-download"@,
                "--output"@,
                output_template@,
                url@,
            ],
    {
        let mut a: Vec<String> = Vec::new();
        push_str(&mut a, "--write-auto-sub");
        push_str(&mut a, "--skip-download");
        push_str(&mut a, "--output");
        push_str(&mut a, output_template);
        push_str(&mut a, url);
        assert(texts(a@) =~= seq![
            "--write-auto-sub"@,
            "--skip-download"@,
            "--output"@,
            output_template@,
            url@,
        ]);
        self.command(&a)
    }

    /// Downloads the uploaded subtitles of `url`, not the video.
    pub fn download_sub(&self, url: &str, output_path: &str) -> (r: CommandLine)
        ensures
            r.program@ == self.binary_path@,
            texts(r.args@) == self.cookie_args() + seq![
                "--write-sub"@,
                "--skip-download"@,
                "--output"@,
                output_path@,
                url@,
            ],
    {
        let mut a: Vec<String> = Vec::new();
        push_str(&mut a, "--write-sub");
        push_str(&mut a, "--skip-download");
        push_str(&mut a, "--output");
        push_str(&mut a, output_path);
        push_str(&mut a, url);
        assert(texts(a@) =~= seq![
            "--write-sub"@,
            "--skip-download"@,
            "--output"@,
            output_path@,
            url@,
        ]);
        self.command(&a)
    }

    /// Converts a video into the format of `output_path`'s extension.
    pub fn convert_video(&self, input_path: &str, output_path: &str) -> (r: CommandLine)
        ensures
            r.program@ == "ffmpeg"@,
            texts(r.args@) == seq!["-i"@, input_path@, output_path@],
    {
        let mut a: Vec<String> = Vec::new();
        push_str(&mut a, "-i");
        push_str(&mut a, input_path);
        push_str(&mut a, output_path);
        assert(texts(a@) =~= seq!["-i"@, input_path@, output_path@]);
        CommandLine { program: "ffmpeg".to_owned(), args: a }
    }

    /// Extracts frames from a video at the rate `fps`; the extra arguments are
    /// passed as one argument, joined with spaces (empty when there are none).
    pub fn extract_frames(
        &self,
        input_path: &str,
        fps: &str,
        output_template: &str,
        extra_args: Option<&Vec<String>>,
    ) -> (r: CommandLine)
        ensures
            r.program@ == "ffmpeg"@,
            texts(r.args@) == seq![
                "-i"@,
                input_path@,
                "-vf"@,
                "fps="@ + fps@,
                match extra_args {
                    Some(v) => join_spaced(texts(v@)),
                    None => Seq::empty(),
                },
                output_template@,
            ],
    {
        let mut rate = "fps=".to_owned();
        rate.append(fps);
        let extra = match extra_args {
            Some(v) => join_with_spaces(v),
            None => String::new(),
        };
        let mut a: Vec<String> = Vec::new();
        push_str(&mut a, "-i");
        push_str(&mut a, input_path);
        push_str(&mut a, "-vf");
        push_str(&mut a, rate.as_str());
        push_str(&mut a, extra.as_str());
        push_str(&mut a, output_template);
        assert(texts(a@) =~= seq![
            "-i"@,
            input_path@,
            "-vf"@,
            "fps="@ + fps@,
            match extra_args {
                Some(v) => join_spaced(texts(v@)),
                None => Seq::empty(),
            },
            output_template@,
        ]);
        CommandLine { program: "ffmpeg".to_owned(), args: a }
    }

    /// Splits an audio file into mono 16 kHz segments of `segment_time_s` seconds.
    pub fn split_audio_to_chunks(
        &self,
        file_input_path: &str,
        segment_time_s: u16,
        output_template: &str,
    ) -> (r: Result<CommandLine, YtDlpError>)
        ensures
            ffmpeg_outcome(
                r,
                output_template@,
                |codec: Seq<char>|
                    seq![
                        "-i"@,
                        file_input_path@,
                        "-f"@,
                        "segment"@,
                        "-segment_time"@,
                        decimal_digits(segment_time_s as nat),
                        "-ac"@,
                        "1"@,
                        "-ar"@,
                        "16000"@,
                        "-c:a"@,
                        codec,
                        output_template@,
                    ],
            ),
    {
        let codec = infer_codec(output_template)?;
        let seconds = decimal_string(segment_time_s as u64);
        let mut a: Vec<String> = Vec::new();
        push_str(&mut a, "-i");
        push_str(&mut a, file_input_path);
        push_str(&mut a, "-f");
        push_str(&mut a, "segment");
        push_str(&mut a, "-segment_time");
        push_str(&mut a, seconds.as_str());
        push_str(&mut a, "-ac");
        push_str(&mut a, "1");
        push_str(&mut a, "-ar");
        push_str(&mut a, "16000");
        push_str(&mut a, "-c:a");
        push_str(&mut a, codec);
        push_str(&mut a, output_template);
        let r = CommandLine { program: "ffmpeg".to_owned(), args: a };
        assert(texts(r.args@) =~= seq![
            "-i"@,
            file_input_path@,
            "-f"@,
            "segment"@,
            "-segment_time"@,
            decimal_digits(segment_time_s as nat),
            "-ac"@,
            "1"@,
            "-ar"@,
            "16000"@,
            "-c:a"@,
            codec@,
            output_template@,
        ]);
        Ok(r)
    }

    /// Normalizes loudness with the EBU R128 filter.
    pub fn normalize_volume(&self, input_path: &str, output_path: &str) -> (r: Result<CommandLine, YtDlpError>)
        ensures
            ffmpeg_outcome(r, output_path@, |codec: Seq<char>| filter_args(input_path@, "loudnorm"@, codec, output_path@)),
    {
        filter_command(input_path, "loudnorm", output_path)
    }

    /// Applies the FFT-based denoising filter.
    pub fn denoise_audio(&self, input_path: &str, output_path: &str) -> (r: Result<CommandLine, YtDlpError>)
        ensures
            ffmpeg_outcome(r, output_path@, |codec: Seq<char>| filter_args(input_path@, "afftdn"@, codec, output_path@)),
    {
        filter_command(input_path, "afftdn", output_path)
    }

    /// Removes the leading silence.
    pub fn trim_silence(&self, input_path: &str, output_path: &str) -> (r: Result<CommandLine, YtDlpError>)
        ensures
            ffmpeg_outcome(
                r,
                output_path@,
                |codec: Seq<char>|
                    filter_args(
                        input_path@,
                        "silenceremove=start_periods=1:start_threshold=-50dB:start_silence=0.1"@,
                        codec,
                        output_path@,
                    ),
            ),
    {
        filter_command(
            input_path,
            "silenceremove=start_periods=1:start_threshold=-50dB:start_silence=0.1",
            output_path,
        )
    }
}

/// `xs` joined with single spaces.
pub open spec fn join_spaced(xs: Seq<Seq<char>>) -> Seq<char>
    decreases xs.len(),
{
    if xs.len() == 0 {
        Seq::empty()
    } else if xs.len() == 1 {
        xs[0]
    } else {
        join_spaced(xs.drop_last()) + seq![' '] + xs.last()
    }
}

fn join_with_spaces(xs: &Vec<String>) -> (r: String)
    ensures
        r@ == join_spaced(texts(xs@)),
{
    if xs.len() == 0 {
        return String::new();
    }
    let mut r = xs[0].clone();
    let mut i: usize = 1;
    assert(texts(xs@).take(1).drop_last().len() == 0);
    while i < xs.len()
        invariant
            1 <= i <= xs.len(),
            r@ == join_spaced(texts(xs@).take(i as int)),
        decreases xs.len() - i,
    {
        assert(texts(xs@).take(i + 1).drop_last() =~= texts(xs@).take(i as int));
        r.append(" ");
        r.append(xs[i].as_str());
        proof {
            reveal_strlit(" ");
        }
        assert(r@ =~= join_spaced(texts(xs@).take(i + 1)));
        i = i + 1;
    }
    assert(texts(xs@).take(i as int) =~= texts(xs@));
    r
}

fn filter_command(input: &str, filter: &str, output: &str) -> (r: Result<CommandLine, YtDlpError>)
    ensures
        ffmpeg_outcome(r, output@, |codec: Seq<char>| filter_args(input@, filter@, codec, output@)),
{
    let codec = infer_codec(output)?;
    let mut a: Vec<String> = Vec::new();
    push_str(&mut a, "-i");
    push_str(&mut a, input);
    push_str(&mut a, "-af");
    push_str(&mut a, filter);
    push_str(&mut a, "-ar");
    push_str(&mut a, "16000");
    push_str(&mut a, "-ac");
    push_str(&mut a, "1");
    push_str(&mut a, "-c:a");
    push_str(&mut a, codec);
    push_str(&mut a, output);
    let r = CommandLine { program: "ffmpeg".to_owned(), args: a };
    assert(texts(r.args@) =~= filter_args(input@, filter@, codec@, output@));
    Ok(r)
}

} // verus!
