use bunge_bits::ytdlp::{infer_codec, yt_dlp_should_retry, YtDlp, YtDlpError};

#[test]
fn ytldp_test_new() {
    let result = YtDlp::new();
    assert!(result.is_ok());
}

#[test]
fn lib_test_new() {
    let result = YtDlp::new();
    assert!(result.is_ok());
}

#[test]
fn download_audio_arguments_follow_the_cookies() {
    let y = YtDlp::new_with_cookies("/bin/yt-dlp".to_string(), Some("/c.txt".to_string()));
    let cmd = y.download_audio("https://u", "mp3", "/w/%(ext)s");
    assert_eq!(cmd.program, "/bin/yt-dlp");
    assert_eq!(
        cmd.args,
        vec!["--cookies", "/c.txt", "-f", "bestaudio", "-x", "--audio-format", "mp3", "--output", "/w/%(ext)s", "https://u"]
    );
}

#[test]
fn download_commands_without_cookies() {
    let y = YtDlp::new().unwrap();
    assert_eq!(y.download_video("u", "best", "o").args, vec!["-f", "best", "--output", "o", "u"]);
    assert_eq!(
        y.download_playlist("p", "best", "o").args,
        vec!["-f", "best", "--output", "o", "--yes-playlist", "p"]
    );
    assert_eq!(
        y.download_audio_playlist("p", "wav", "o").args,
        vec!["-f", "bestaudio", "-x", "--audio-format", "wav", "--output", "o", "--yes-playlist", "p"]
    );
    assert_eq!(
        y.download_auto_sub("u", "o").args,
        vec!["--write-auto-sub", "--skip-download", "--output", "o", "u"]
    );
    assert_eq!(y.download_sub("u", "o").args, vec!["--write-sub", "--skip-download", "--output", "o", "u"]);
    let opts = vec!["--format".to_string(), "bestaudio[ext=m4a]".to_string()];
    assert_eq!(y.download_with_options("u", &opts).args, vec!["--format", "bestaudio[ext=m4a]", "u"]);
}

#[test]
fn codec_follows_the_extension() {
    assert_eq!(infer_codec("/a/b/out.WAV").unwrap(), "pcm_s16le");
    assert_eq!(infer_codec("x_%03d.mp3").unwrap(), "libmp3lame");
    assert_eq!(infer_codec("x.flac").unwrap(), "flac");
    assert_eq!(infer_codec("dir.v1/x.aac").unwrap(), "aac");
    match infer_codec("movie.Mp4") {
        Err(YtDlpError::UnsupportedFormat(e)) => assert_eq!(e, "mp4"),
        other => panic!("unexpected {:?}", other),
    }
    match infer_codec(".mp3") {
        Err(YtDlpError::UnsupportedFormat(e)) => assert_eq!(e, ""),
        other => panic!("unexpected {:?}", other),
    }
}

#[test]
fn split_command_segments_audio() {
    let y = YtDlp::new().unwrap();
    let cmd = y.split_audio_to_chunks("in.mp3", 900, "out/x_%03d.mp3").unwrap();
    assert_eq!(cmd.program, "ffmpeg");
    assert_eq!(
        cmd.args,
        vec!["-i", "in.mp3", "-f", "segment", "-segment_time", "900", "-ac", "1", "-ar", "16000", "-c:a", "libmp3lame", "out/x_%03d.mp3"]
    );
    assert!(matches!(y.split_audio_to_chunks("in.mp3", 900, "out/x.ogg"), Err(YtDlpError::UnsupportedFormat(_))));
}

#[test]
fn filter_commands() {
    let y = YtDlp::new().unwrap();
    let cmd = y.normalize_volume("a.mp3", "b.wav").unwrap();
    assert_eq!(cmd.args, vec!["-i", "a.mp3", "-af", "loudnorm", "-ar", "16000", "-ac", "1", "-c:a", "pcm_s16le", "b.wav"]);
    assert_eq!(y.denoise_audio("a.mp3", "b.flac").unwrap().args[3], "afftdn");
    assert!(y.trim_silence("a.mp3", "b.aac").unwrap().args[3].starts_with("silenceremove="));
}

#[test]
fn only_failed_exits_are_retried() {
    let exit = YtDlpError::NonZeroExit { command: "yt-dlp".to_string(), status: 1, output: String::new() };
    assert!(yt_dlp_should_retry(&exit, 1));
    assert!(yt_dlp_should_retry(&exit, 2));
    assert!(!yt_dlp_should_retry(&exit, 3));
    assert!(!yt_dlp_should_retry(&YtDlpError::InvalidPath("x".to_string()), 1));
}

#[test]
fn video_commands() {
    let y = YtDlp::new().unwrap();
    let c = y.convert_video("in.mp4", "out.webm");
    assert_eq!(c.program, "ffmpeg");
    assert_eq!(c.args, vec!["-i", "in.mp4", "out.webm"]);
    let extra = vec!["-q:v".to_string(), "2".to_string()];
    let f = y.extract_frames("in.mp4", "1/10", "f_%04d.png", Some(&extra));
    assert_eq!(f.args, vec!["-i", "in.mp4", "-vf", "fps=1/10", "-q:v 2", "f_%04d.png"]);
    let g = y.extract_frames("in.mp4", "1", "f_%04d.png", None);
    assert_eq!(g.args[4], "");
}
