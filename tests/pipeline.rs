use bunge_bits::media::{
    looks_like_json_error, media_paths, next_acquisition_action, transcript_entry,
    transcription_retry_seconds, AcquisitionAction, AcquisitionStage, WORKDIR,
};
use bunge_bits::retry::{extract_wait_time_ms_from_error, next_retry, retry_wait_ms, RetryDecision};
use bunge_bits::selector::sort_and_filter_existing_streams;
use bunge_bits::store::{plan_bulk_insert, InsertFailReason};
use bunge_bits::stream::Stream;
use bunge_bits::summary::{
    chat_completions_text_from_response, count_tokens, split_transcript, ChatContent,
    ChatReplyMessage, SummaryError, SummaryRequest, SummaryRun, TOKEN_BUDGET,
    TRANSCRIPT_CHUNK_DELIMITER,
};

fn stream(id: &str, date: &str) -> Stream {
    Stream {
        video_id: id.to_string(),
        title: format!("Sitting {}", id),
        view_count: "10 views".to_string(),
        streamed_date: date.to_string(),
        duration: "1:00:00".to_string(),
        ..Default::default()
    }
}

fn ids(v: &[Stream]) -> Vec<String> {
    v.iter().map(|s| s.video_id.clone()).collect()
}

#[test]
fn selector_drops_persisted_and_sorts_oldest_first() {
    let cands = vec![
        stream("a", "1 day ago"),
        stream("b", "2 days ago"),
        stream("c", "3 weeks ago"),
        stream("d", "not a date"),
        stream("e", "5 hours ago"),
        stream("f", "2 days ago"),
    ];
    let existing = vec!["a".to_string()];
    let r = sort_and_filter_existing_streams(10, &existing, cands);
    assert_eq!(ids(&r), vec!["c", "b", "f", "e", "d"]);
}

#[test]
fn selector_caps_the_count() {
    let cands = vec![stream("a", "1 day ago"), stream("b", "2 days ago"), stream("c", "3 days ago")];
    let r = sort_and_filter_existing_streams(2, &Vec::new(), cands);
    assert_eq!(ids(&r), vec!["c", "b"]);
    let r = sort_and_filter_existing_streams(0, &Vec::new(), vec![stream("a", "1 day ago")]);
    assert!(r.is_empty());
    let r = sort_and_filter_existing_streams(3, &Vec::new(), Vec::new());
    assert!(r.is_empty());
}

#[test]
fn selector_returns_min_of_max_and_unpersisted() {
    let cands: Vec<Stream> = (1..=6).map(|i| stream(&format!("s{}", i), &format!("{} hours ago", i))).collect();
    let existing = vec!["s2".to_string(), "s5".to_string()];
    let r = sort_and_filter_existing_streams(3, &existing, cands.iter().map(|s| s.copy()).collect());
    assert_eq!(r.len(), 3);
    let r = sort_and_filter_existing_streams(9, &existing, cands);
    assert_eq!(r.len(), 4);
    let ts: Vec<i64> = r.iter().map(|s| s.timestamp_at(10_000_000).unwrap()).collect();
    assert!(ts.windows(2).all(|w| w[0] <= w[1]));
}

#[test]
fn wait_hint_is_read_exactly() {
    let err = "Rate limit reached for gpt-4o. Please try again in 1500ms. Visit the docs.";
    assert_eq!(extract_wait_time_ms_from_error(err), Some(1500));
    assert_eq!(retry_wait_ms(err, 3), 1500);
    assert_eq!(extract_wait_time_ms_from_error("Please try again in  +42 ms"), Some(42));
    assert_eq!(extract_wait_time_ms_from_error("Please try again in 1.5s"), None);
    assert_eq!(extract_wait_time_ms_from_error("Please try again in abcms"), None);
    assert_eq!(extract_wait_time_ms_from_error("Please try again in 99999999999999999999ms"), None);
}

#[test]
fn wait_falls_back_to_powers_of_two() {
    assert_eq!(retry_wait_ms("connection reset", 1), 2000);
    assert_eq!(retry_wait_ms("connection reset", 4), 16000);
    assert_eq!(retry_wait_ms("connection reset", 53), 9_007_199_254_740_992_000);
    assert_eq!(next_retry("boom", 2), RetryDecision::WaitMs(4000));
    assert_eq!(next_retry("Please try again in 10ms", 4), RetryDecision::WaitMs(10));
    assert_eq!(next_retry("boom", 5), RetryDecision::GiveUp);
}

#[test]
fn transcript_splits_on_the_delimiter() {
    let t = format!(" one {d}\n{d}two\n{d}  \n three{d}\n", d = TRANSCRIPT_CHUNK_DELIMITER);
    assert_eq!(split_transcript(&t), vec!["one", "two", "three"]);
    assert!(split_transcript("").is_empty());
}

#[test]
fn small_transcript_takes_one_request() {
    let mut run = SummaryRun::new("short text".to_string(), 100);
    assert!(run.is_direct());
    match run.next_request() {
        Some(SummaryRequest::SummarizeWhole { transcript }) => assert_eq!(transcript, "short text"),
        _ => panic!("expected a whole-transcript request"),
    }
    run.record_reply("the summary".to_string());
    assert!(run.next_request().is_none());
    assert_eq!(run.summary(), Some("the summary".to_string()));
}

#[test]
fn large_transcript_is_summarized_chunk_by_chunk() {
    let t = format!("c1{d}\nc2{d}\nc3{d}\n", d = TRANSCRIPT_CHUNK_DELIMITER);
    let mut run = SummaryRun::new(t, TOKEN_BUDGET + 1);
    assert!(!run.is_direct());
    let mut chunk_calls = 0;
    let mut combine_calls = 0;
    let mut step = 0;
    while let Some(req) = run.next_request() {
        step += 1;
        match req {
            SummaryRequest::SummarizeChunk { chunk, context } => {
                chunk_calls += 1;
                assert_eq!(chunk, format!("c{}", chunk_calls));
                let expected = match chunk_calls {
                    1 => None,
                    2 => Some("s1".to_string()),
                    _ => Some("s1\ns2".to_string()),
                };
                assert_eq!(context, expected);
                run.record_reply(format!("s{}", chunk_calls));
            }
            SummaryRequest::Combine { summaries } => {
                combine_calls += 1;
                assert_eq!(summaries, vec!["s1", "s2", "s3"]);
                run.record_reply("final".to_string());
            }
            SummaryRequest::SummarizeWhole { .. } => panic!("unexpected whole request"),
        }
        assert!(step < 10);
    }
    assert_eq!((chunk_calls, combine_calls), (3, 1));
    assert_eq!(run.summary(), Some("final".to_string()));
}

#[test]
fn selector_picks_the_three_oldest_remaining() {
    let cands = vec![
        stream("a", "5 days ago"),
        stream("b", "4 days ago"),
        stream("c", "3 days ago"),
        stream("d", "2 days ago"),
        stream("e", "1 day ago"),
    ];
    let persisted = vec!["a".to_string(), "c".to_string()];
    let r = sort_and_filter_existing_streams(3, &persisted, cands);
    assert_eq!(ids(&r), vec!["b", "d", "e"]);
}

#[test]
fn token_count_refuses_overlong_whitespace_runs() {
    let long = format!("a{}b", " ".repeat(999_000));
    assert_eq!(count_tokens(&long), Err(SummaryError::WhitespaceRun));
    assert!(SummaryRun::for_transcript(long).is_err());
    let tabs = format!("a{}b", "\t".repeat(100));
    assert!(count_tokens(&tabs).unwrap() > 0);
}

#[test]
fn token_count_uses_the_real_tokenizer() {
    assert_eq!(count_tokens("").unwrap(), 0);
    let n = count_tokens("hello world").unwrap();
    assert_eq!(n, 2);
    let run = SummaryRun::for_transcript("hello world".to_string()).unwrap();
    assert!(run.is_direct());
}

#[test]
fn chat_reply_text_and_errors() {
    let ok = vec![ChatReplyMessage::Assistant { content: Some(ChatContent::Text("hi".to_string())) }];
    assert_eq!(chat_completions_text_from_response(ok).unwrap(), "hi");
    assert_eq!(chat_completions_text_from_response(vec![]).unwrap_err(), SummaryError::EmptyChoices);
    assert_eq!(
        chat_completions_text_from_response(vec![ChatReplyMessage::Assistant { content: None }]).unwrap_err(),
        SummaryError::MissingContent
    );
    assert_eq!(
        chat_completions_text_from_response(vec![ChatReplyMessage::Assistant { content: Some(ChatContent::Other) }])
            .unwrap_err(),
        SummaryError::UnexpectedContent
    );
    assert_eq!(
        chat_completions_text_from_response(vec![ChatReplyMessage::Other]).unwrap_err(),
        SummaryError::UnexpectedMessage
    );
}

#[test]
fn bulk_insert_reports_only_the_unparseable_stream() {
    let streams = vec![
        stream("v1", "1 hour ago"),
        stream("v2", "2 days ago"),
        stream("v3", "4 weeks ago"),
        stream("v1", "3 hours ago"),
        stream("bad", "invalid date format"),
    ];
    let plan = plan_bulk_insert(&streams, 1_700_000_000);
    assert_eq!(plan.rows.len(), 4);
    assert_eq!(plan.rows[0].stream_timestamp, 1_700_000_000 - 3600);
    assert_eq!(plan.failed_inserts.len(), 1);
    assert_eq!(plan.failed_inserts[0].video_id, "bad");
    match &plan.failed_inserts[0].reason {
        InsertFailReason::InvalidStreamedDate { malformed_date } => assert_eq!(malformed_date, "invalid date format"),
    }
    // The store skips the second row with id v1 and reports three rows written.
    let result = plan.into_result(3);
    assert_eq!(result.successful_inserts, 3);
    assert_eq!(result.failed_inserts.len(), 1);
}

#[test]
fn acquisition_steps_are_skipped_when_done() {
    type A = AcquisitionAction;
    type S = AcquisitionStage;
    assert_eq!(next_acquisition_action(S::Start, false, false), A::DownloadAudio);
    assert_eq!(next_acquisition_action(S::Start, true, false), A::SplitAudio);
    assert_eq!(next_acquisition_action(S::Start, true, true), A::Done);
    assert_eq!(next_acquisition_action(S::Downloaded, false, false), A::MissingAudio);
    assert_eq!(next_acquisition_action(S::Downloaded, true, false), A::SplitAudio);
    assert_eq!(next_acquisition_action(S::Split, true, true), A::Done);
}

#[test]
fn media_paths_are_deterministic() {
    let p = media_paths(WORKDIR, "abc");
    assert_eq!(p.watch_url, "https://youtube.com/watch?v=abc");
    assert_eq!(p.audio_output_template, "/var/tmp/bunge-bits/audio/abc.%(ext)s");
    assert_eq!(p.audio_mp3_path, "/var/tmp/bunge-bits/audio/abc.mp3");
    assert_eq!(p.chunk_dir, "/var/tmp/bunge-bits/audio/abc");
    assert_eq!(p.chunk_template, "/var/tmp/bunge-bits/audio/abc/abc_%03d.mp3");
    assert_eq!(p.transcript_path, "/var/tmp/bunge-bits/abc.txt");
}

#[test]
fn transcription_decisions() {
    assert!(looks_like_json_error("  {\"error\": 1}"));
    assert!(!looks_like_json_error("Hello {x}"));
    assert!(!looks_like_json_error("   "));
    assert_eq!(transcription_retry_seconds(1), Some(2));
    assert_eq!(transcription_retry_seconds(4), Some(16));
    assert_eq!(transcription_retry_seconds(5), None);
    assert_eq!(transcript_entry("text"), format!("text{}\n", TRANSCRIPT_CHUNK_DELIMITER));
}

#[test]
fn end_to_end_three_streams_are_persisted() {
    let cands = vec![
        stream("a", "1 day ago"),
        stream("b", "2 days ago"),
        stream("c", "3 days ago"),
        stream("d", "4 days ago"),
        stream("e", "5 days ago"),
    ];
    let persisted = vec!["b".to_string(), "d".to_string()];
    let mut selected = sort_and_filter_existing_streams(3, &persisted, cands);
    assert_eq!(ids(&selected), vec!["e", "c", "a"]);
    for s in selected.iter_mut() {
        let paths = media_paths(WORKDIR, &s.video_id);
        assert_eq!(next_acquisition_action(AcquisitionStage::Start, false, false), AcquisitionAction::DownloadAudio);
        assert_eq!(next_acquisition_action(AcquisitionStage::Downloaded, true, false), AcquisitionAction::SplitAudio);
        assert_eq!(next_acquisition_action(AcquisitionStage::Split, true, true), AcquisitionAction::Done);
        assert!(paths.chunk_template.ends_with("_%03d.mp3"));
        let transcript = transcript_entry(&format!("Speaker on {}.", s.video_id));
        let cleaned = bunge_bits::cleaner::clean_transcript(transcript);
        let mut run = SummaryRun::new(cleaned, 50);
        let mut calls = 0;
        while let Some(req) = run.next_request() {
            calls += 1;
            assert!(matches!(req, SummaryRequest::SummarizeWhole { .. }));
            run.record_reply(format!("Summary of {}", s.video_id));
        }
        assert_eq!(calls, 1);
        s.summary_md = run.summary();
    }
    let plan = plan_bulk_insert(&selected, 1_700_000_000);
    assert_eq!(plan.rows.len(), 3);
    let result = plan.into_result(3);
    assert_eq!(result.successful_inserts, 3);
    assert!(result.failed_inserts.is_empty());
}

#[test]
fn segments_are_ordered_by_name() {
    let names = vec![
        "/w/audio/x/x_010.mp3".to_string(),
        "/w/audio/x/x_002.mp3".to_string(),
        "/w/audio/x/x_000.mp3".to_string(),
        "/w/audio/x/x_001.mp3".to_string(),
    ];
    let ordered = bunge_bits::media::order_segments(names);
    assert_eq!(ordered, vec!["/w/audio/x/x_000.mp3", "/w/audio/x/x_001.mp3", "/w/audio/x/x_002.mp3", "/w/audio/x/x_010.mp3"]);
    let mixed = bunge_bits::media::order_segments(vec!["b".to_string(), "ab".to_string(), "a".to_string(), "".to_string()]);
    assert_eq!(mixed, vec!["", "a", "ab", "b"]);
}
