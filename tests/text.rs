use bunge_bits::prompt::{
    chunk_prompt, combine_prompt, fill_template, prompt_date, replace_str, whole_transcript_prompt,
    DATE_FALLBACK,
};
use bunge_bits::sliding_window::{SlidingRun, SlidingWindow};
use bunge_bits::summary::SummaryRequest;
use bunge_bits::stream::Stream;
use bunge_bits::vtt::{parse_vtt_content, SubtitleEntry};

#[test]
fn vtt_cues_are_read() {
    let content = "WEBVTT\n\n00:00:01.000 --> 00:00:04.000\nHello, world!\n\n00:00:05.000 --> 00:00:06.000\r\nLine one\r\nLine two\n";
    let entries = parse_vtt_content(content);
    assert_eq!(entries.len(), 2);
    assert_eq!(entries[0].start_time, "00:00:01.000");
    assert_eq!(entries[0].end_time, "00:00:04.000");
    assert_eq!(entries[0].text, "Hello, world!");
    assert_eq!(entries[1].text, "Line one\nLine two");
    let again = SubtitleEntry::entries_from_vtt_str(content);
    assert_eq!(again.len(), 2);
}

#[test]
fn vtt_skips_lines_with_two_arrows() {
    let entries = parse_vtt_content("WEBVTT\na --> b --> c\ntext\n\n1 --> 2\nok");
    assert_eq!(entries.len(), 1);
    assert_eq!(entries[0].start_time, "1");
    assert_eq!(entries[0].text, "ok");
    assert!(parse_vtt_content("00:01 --> 00:02\nheader only").is_empty());
}

#[test]
fn sliding_window_moves_by_half_a_window() {
    let text: String = "ab".repeat(2500);
    let mut w = SlidingWindow::new(&text);
    assert_eq!(w.current_window().chars().count(), 2000);
    assert!(w.get_context().is_none());
    w.update_context("s1");
    w.update_context("s2");
    assert_eq!(w.get_context(), Some("s1\ns2".to_string()));
    assert!(w.slide());
    assert_eq!((w.start, w.end), (1000, 3000));
    assert!(w.slide());
    assert!(w.slide());
    assert_eq!((w.start, w.end), (3000, 5000));
    assert!(!w.slide());
    assert_eq!(w.start, 3000);
    let short = SlidingWindow::new("héllo");
    assert_eq!(short.current_window(), "héllo");
}

#[test]
fn templates_are_filled() {
    assert_eq!(replace_str("a-b-a", "a", "xy"), "xy-b-xy");
    assert_eq!(
        fill_template("Title: ${{TITLE}} on ${{DATE}} (${{TITLE}})", "Sitting", "2024-01-02"),
        "Title: Sitting on 2024-01-02 (Sitting)"
    );
    assert_eq!(whole_transcript_prompt("T"), "The full transcript:\n\nT");
}

#[test]
fn chunk_prompt_carries_the_context() {
    let with = chunk_prompt("CHUNK", Some("CTX"), "RULES");
    assert!(with.contains("Optional Context (may help interpret this chunk):\n\nCTX\n\nUse it only"));
    assert!(with.ends_with("Transcript Chunk:\nCHUNK\n\nRULES\n"));
    let without = chunk_prompt("CHUNK", None, "RULES");
    assert!(!without.contains("Optional Context"));
    let combined = combine_prompt("DO IT", &vec!["s1".to_string(), "s2".to_string()]);
    assert_eq!(combined, "\nDO IT\n\nSummaries:\ns1\ns2\n");
}

#[test]
fn prompt_date_uses_the_clock_or_the_fallback() {
    let mut s = Stream { streamed_date: "garbage".to_string(), ..Default::default() };
    assert_eq!(prompt_date(&s), DATE_FALLBACK);
    s.streamed_date = "1 day ago".to_string();
    let d = prompt_date(&s);
    assert!(d.ends_with(" UTC"));
    assert_eq!(d.len(), "2024-01-01 00:00:00 UTC".len());
}

#[test]
fn prompt_date_at_displays_the_utc_time() {
    let s = Stream { streamed_date: "1 day ago".to_string(), ..Default::default() };
    assert_eq!(bunge_bits::prompt::prompt_date_at(&s, 1_700_000_000), "2023-11-13 22:13:20 UTC");
    let bad = Stream { streamed_date: "yesterday".to_string(), ..Default::default() };
    assert_eq!(bunge_bits::prompt::prompt_date_at(&bad, 1_700_000_000), DATE_FALLBACK);
}

#[test]
fn sliding_run_summarizes_overlapping_windows() {
    let text: String = "x".repeat(2500);
    let mut run = SlidingRun::new(&text);
    let mut contexts = Vec::new();
    let mut lengths = Vec::new();
    let mut combined = None;
    while let Some(req) = run.next_request() {
        match req {
            SummaryRequest::SummarizeChunk { chunk, context } => {
                lengths.push(chunk.len());
                contexts.push(context);
                run.record_reply(format!("s{}", lengths.len()));
            }
            SummaryRequest::Combine { summaries } => {
                combined = Some(summaries.clone());
                run.record_reply(summaries.join(" "));
            }
            SummaryRequest::SummarizeWhole { .. } => panic!("unexpected request"),
        }
    }
    assert_eq!(lengths, vec![2000, 1500]);
    assert_eq!(contexts, vec![None, Some("s1".to_string())]);
    assert_eq!(combined, Some(vec!["s1".to_string(), "s2".to_string()]));
    assert_eq!(run.result, Some("s1 s2".to_string()));
}
