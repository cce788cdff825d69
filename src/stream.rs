//! The stream record and what can be read off it.

use crate::relative_time::{age_seconds, age_seconds_of, now_in_range, timestamp_at};
use crate::text::{chars_of, contains, contains_exec};
use vstd::prelude::*;

verus! {

/// One candidate or processed video stream.
#[derive(Debug, Clone, Default)]
pub struct Stream {
    /// Opaque external identifier; the unique key of persisted streams.
    pub video_id: String,
    pub title: String,
    /// Display string, not a parsed number.
    pub view_count: String,
    /// The publication time as first discovered, in `"<N> <unit>(s) ago"` form.
    pub streamed_date: String,
    /// Display string.
    pub duration: String,
    /// Set once the stream has been summarized.
    pub summary_md: Option<String>,
    /// Reserved for navigation timestamps.
    pub timestamp_md: Option<String>,
}

/// The kind of sitting a stream shows.
#[derive(Clone, Copy, Debug, PartialEq, Eq, Structural)]
pub enum StreamCategory {
    NationalAssembly,
    Senate,
    Other,
}

/// `national assembly`
pub open spec fn national_assembly_word() -> Seq<char> {
    seq!['n', 'a', 't', 'i', 'o', 'n', 'a', 'l', ' ', 'a', 's', 's', 'e', 'm', 'b', 'l', 'y']
}

/// `senate`
pub open spec fn senate_word() -> Seq<char> {
    seq!['s', 'e', 'n', 'a', 't', 'e']
}

/// The category of a stream whose title, lowercased, is `lowered`.
pub open spec fn category_of(lowered: Seq<char>) -> StreamCategory {
    if contains(lowered, national_assembly_word()) {
        StreamCategory::NationalAssembly
    } else if contains(lowered, senate_word()) {
        StreamCategory::Senate
    } else {
        StreamCategory::Other
    }
}

/// What `str::to_lowercase` gives for a string (Unicode lowercase mapping).
pub uninterp spec fn lowercase_of(s: Seq<char>) -> Seq<char>;

/// Relies on `str::to_lowercase`: the result is a function of the characters alone.
#[verifier::external_body]
fn to_lowercase(s: &str) -> (r: String)
    ensures
        r@ == lowercase_of(s@),
{
    s.to_lowercase()
}

/// The start of every watch URL.
pub open spec fn watch_url_prefix() -> Seq<char> {
    "https://www.youtube.com/watch?v="@
}

/// The earliest time chrono represents (year -262143), in seconds since the Unix epoch.
pub const MIN_TIMESTAMP: i64 = -8_334_601_315_200;

/// The latest time chrono represents (the end of year 262142), in seconds since
/// the Unix epoch.
pub const MAX_TIMESTAMP: i64 = 8_210_266_876_799;

/// Relies on `std::time::SystemTime::now` and `SystemTime::duration_since`:
/// the whole seconds since the Unix epoch, `None` when the clock reads before
/// the epoch or the seconds do not fit in an `i64`.
#[verifier::external_body]
fn read_clock() -> (r: Option<i64>)
    ensures
        r matches Some(t) ==> 0 <= t,
{
    match std::time::SystemTime::now().duration_since(std::time::UNIX_EPOCH) {
        Ok(d) => i64::try_from(d.as_secs()).ok(),
        Err(_) => None,
    }
}

/// The current time in whole seconds since the Unix epoch; `None` when the
/// clock reads before the epoch or beyond [`MAX_TIMESTAMP`].
pub fn current_time() -> (r: Option<i64>)
    ensures
        r matches Some(t) ==> 0 <= t <= MAX_TIMESTAMP,
{
    match read_clock() {
        Some(t) => if t <= MAX_TIMESTAMP {
            Some(t)
        } else {
            None
        },
        None => None,
    }
}

impl StreamCategory {
    /// The category's display name.
    pub fn label(&self) -> (r: String)
        ensures
            r@ == match self {
                StreamCategory::NationalAssembly => "National Assembly"@,
                StreamCategory::Senate => "Senate"@,
                StreamCategory::Other => "Other"@,
            },
    {
        match self {
            StreamCategory::NationalAssembly => "National Assembly".to_owned(),
            StreamCategory::Senate => "Senate".to_owned(),
            StreamCategory::Other => "Other".to_owned(),
        }
    }
}

/// The category for a title that is already lowercased.
pub fn category_of_lowercased(lowered: &str) -> (r: StreamCategory)
    ensures
        r == category_of(lowered@),
{
    let t = chars_of(lowered);
    let na = vec!['n', 'a', 't', 'i', 'o', 'n', 'a', 'l', ' ', 'a', 's', 's', 'e', 'm', 'b', 'l', 'y'];
    assert(na@ =~= national_assembly_word());
    let se = vec!['s', 'e', 'n', 'a', 't', 'e'];
    assert(se@ =~= senate_word());
    if contains_exec(&t, &na) {
        StreamCategory::NationalAssembly
    } else if contains_exec(&t, &se) {
        StreamCategory::Senate
    } else {
        StreamCategory::Other
    }
}

impl Stream {
    /// A field-by-field copy.
    pub fn copy(&self) -> (r: Stream)
        ensures
            r == *self,
    {
        Stream {
            video_id: self.video_id.clone(),
            title: self.title.clone(),
            view_count: self.view_count.clone(),
            streamed_date: self.streamed_date.clone(),
            duration: self.duration.clone(),
            summary_md: match &self.summary_md {
                Some(s) => Some(s.clone()),
                None => None,
            },
            timestamp_md: match &self.timestamp_md {
                Some(s) => Some(s.clone()),
                None => None,
            },
        }
    }

    /// The watch URL of the stream.
    pub fn url(&self) -> (r: String)
        ensures
            r@ == watch_url_prefix() + self.video_id@,
    {
        let mut r = "https://www.youtube.com/watch?v=".to_owned();
        r.append(self.video_id.as_str());
        r
    }

    /// The category that the title names.
    pub fn category(&self) -> (r: StreamCategory)
        ensures
            r == category_of(lowercase_of(self.title@)),
    {
        let lowered = to_lowercase(self.title.as_str());
        category_of_lowercased(lowered.as_str())
    }

    /// The age in seconds that the publication string describes.
    pub fn age_seconds(&self) -> (r: Option<u64>)
        ensures
            r matches Some(a) ==> age_seconds(self.streamed_date@) == Some(a as nat),
            r is None ==> age_seconds(self.streamed_date@) is None,
    {
        let s = chars_of(self.streamed_date.as_str());
        age_seconds_of(&s)
    }

    /// The publication time, in seconds since the Unix epoch, read at time `now`.
    pub fn timestamp_at(&self, now: i64) -> (r: Option<i64>)
        requires
            now_in_range(now),
        ensures
            r matches Some(t) ==> timestamp_at(self.streamed_date@, now as int) == Some(t as int),
            r is None ==> timestamp_at(self.streamed_date@, now as int) is None,
    {
        match self.age_seconds() {
            Some(a) => Some(now - a as i64),
            None => None,
        }
    }

    /// The publication time, in seconds since the Unix epoch, read at the current
    /// time; `None` when the date does not parse or the clock cannot be read.
    pub fn timestamp_from_time_ago(&self) -> (r: Option<i64>)
        ensures
            age_seconds(self.streamed_date@) is None ==> r is None,
            r matches Some(t) ==> exists|now: int|
                0 <= now <= MAX_TIMESTAMP && timestamp_at(self.streamed_date@, now) == Some(
                    t as int,
                ),
    {
        match current_time() {
            Some(now) => {
                let r = self.timestamp_at(now);
                assert(r matches Some(t) ==> timestamp_at(self.streamed_date@, now as int) == Some(
                    t as int,
                ));
                r
            },
            None => None,
        }
    }
}

} // verus!
