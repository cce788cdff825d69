use bunge_bits::relative_time::MAX_AGE_SECONDS;
use bunge_bits::stream::{current_time, Stream, StreamCategory};
use chrono::Utc;

fn create_stream(streamed_date: &str) -> Stream {
    Stream {
        video_id: "test_id".to_string(),
        title: "Test Stream".to_string(),
        view_count: "1000".to_string(),
        streamed_date: streamed_date.to_string(),
        duration: "1:00:00".to_string(),
        ..Default::default()
    }
}

#[test]
fn test_url_generation() {
    let stream = create_stream("1 hour ago");
    assert_eq!(stream.url(), "https://www.youtube.com/watch?v=test_id");
}

#[test]
fn test_timestamp_seconds_ago() {
    let stream = create_stream("30 seconds ago");
    let timestamp = stream.timestamp_from_time_ago().unwrap();
    let expected = Utc::now().timestamp() - 30;
    assert!((timestamp - expected).abs() < 2);
}

#[test]
fn test_timestamp_minutes_ago() {
    let stream = create_stream("15 minutes ago");
    let timestamp = stream.timestamp_from_time_ago().unwrap();
    let expected = Utc::now().timestamp() - 15 * 60;
    assert!((timestamp - expected).abs() < 2);
}

#[test]
fn test_timestamp_hours_ago() {
    let stream = create_stream("2 hours ago");
    let timestamp = stream.timestamp_from_time_ago().unwrap();
    let expected = Utc::now().timestamp() - 2 * 3600;
    assert!((timestamp - expected).abs() < 2);
}

#[test]
fn test_timestamp_days_ago() {
    let stream = create_stream("3 days ago");
    let timestamp = stream.timestamp_from_time_ago().unwrap();
    let expected = Utc::now().timestamp() - 3 * 86400;
    assert!((timestamp - expected).abs() < 2);
}

#[test]
fn test_timestamp_weeks_ago() {
    let stream = create_stream("2 weeks ago");
    let timestamp = stream.timestamp_from_time_ago().unwrap();
    let expected = Utc::now().timestamp() - 2 * 7 * 86400;
    assert!((timestamp - expected).abs() < 2);
}

#[test]
fn test_timestamp_months_ago() {
    let stream = create_stream("3 months ago");
    let timestamp = stream.timestamp_from_time_ago().unwrap();
    let expected = Utc::now().timestamp() - 3 * 30 * 86400;
    assert!((timestamp - expected).abs() < 2);
}

#[test]
fn test_timestamp_years_ago() {
    let stream = create_stream("2 years ago");
    let timestamp = stream.timestamp_from_time_ago().unwrap();
    let expected = Utc::now().timestamp() - 2 * 365 * 86400;
    assert!((timestamp - expected).abs() < 2);
}

#[test]
fn test_timestamp_singular_unit() {
    let stream = create_stream("1 year ago");
    let timestamp = stream.timestamp_from_time_ago().unwrap();
    let expected = Utc::now().timestamp() - 365 * 86400;
    assert!((timestamp - expected).abs() < 2);
}

#[test]
fn test_timestamp_invalid_format() {
    let stream = create_stream("invalid time ago");
    assert!(stream.timestamp_from_time_ago().is_none());
}

#[test]
fn test_timestamp_empty_string() {
    let stream = create_stream("");
    assert!(stream.timestamp_from_time_ago().is_none());
}

#[test]
fn test_timestamp_future_time() {
    let stream = create_stream("2 hours from now");
    assert!(stream.timestamp_from_time_ago().is_none());
}

#[test]
fn timestamp_at_is_exact_for_each_unit() {
    let now = 1_700_000_000;
    let cases = [
        ("7 seconds ago", 7),
        ("7 minutes ago", 7 * 60),
        ("7 hours ago", 7 * 3600),
        ("7 days ago", 7 * 86400),
        ("7 weeks ago", 7 * 604800),
        ("7 months ago", 7 * 2592000),
        ("7 years ago", 7 * 31536000),
    ];
    for (text, age) in cases {
        assert_eq!(create_stream(text).timestamp_at(now), Some(now - age));
    }
}

#[test]
fn relative_time_is_found_inside_longer_text() {
    let now = 1_000_000;
    assert_eq!(create_stream("Streamed 12 hours ago").timestamp_at(now), Some(now - 12 * 3600));
    assert_eq!(create_stream("1 2 days ago").timestamp_at(now), Some(now - 2 * 86400));
    assert_eq!(create_stream("3 day ago").timestamp_at(now), Some(now - 3 * 86400));
    assert_eq!(create_stream("3  days\tago").timestamp_at(now), Some(now - 3 * 86400));
    assert_eq!(create_stream("3days ago").timestamp_at(now), None);
    assert_eq!(create_stream("3 fortnights ago").timestamp_at(now), None);
}

#[test]
fn ages_beyond_the_limit_give_no_timestamp() {
    let now = 1_000_000;
    let at_limit = format!("{} seconds ago", MAX_AGE_SECONDS);
    assert_eq!(create_stream(&at_limit).timestamp_at(now), Some(now - MAX_AGE_SECONDS as i64));
    let beyond = format!("{} seconds ago", MAX_AGE_SECONDS + 1);
    assert_eq!(create_stream(&beyond).timestamp_at(now), None);
    assert_eq!(create_stream("300000 years ago").timestamp_at(now), None);
    assert_eq!(create_stream("264000 years ago").timestamp_at(now), Some(now - 264000 * 31536000));
    assert_eq!(create_stream("100000 years ago").timestamp_at(now), Some(now - 100000 * 31536000));
    assert_eq!(create_stream("99999999999999999999999 years ago").age_seconds(), None);
}

#[test]
fn category_reads_the_lowercased_title() {
    let mut s = create_stream("1 day ago");
    s.title = "NATIONAL ASSEMBLY | Afternoon Sitting".to_string();
    assert_eq!(s.category(), StreamCategory::NationalAssembly);
    s.title = "The Senate, Thursday".to_string();
    assert_eq!(s.category(), StreamCategory::Senate);
    s.title = "Committee hearing".to_string();
    assert_eq!(s.category(), StreamCategory::Other);
    assert_eq!(StreamCategory::NationalAssembly.label(), "National Assembly");
    assert_eq!(StreamCategory::Senate.label(), "Senate");
    assert_eq!(StreamCategory::Other.label(), "Other");
}

#[test]
fn copy_keeps_every_field() {
    let mut s = create_stream("4 days ago");
    s.summary_md = Some("summary".to_string());
    let c = s.copy();
    assert_eq!(c.video_id, s.video_id);
    assert_eq!(c.streamed_date, s.streamed_date);
    assert_eq!(c.summary_md, s.summary_md);
    assert_eq!(c.timestamp_md, None);
}

#[test]
fn current_time_reads_the_system_clock() {
    let t = current_time().unwrap();
    assert!((t - Utc::now().timestamp()).abs() < 2);
}
