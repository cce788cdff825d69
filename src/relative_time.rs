//! Relative-time strings of the form `"<N> <unit>(s) ago"`.
//!
//! A string is searched from the left for the first place where a run of
//! ASCII digits, whitespace, one of the unit words, an optional `s`,
//! whitespace and the word `ago` follow each other. Its age in seconds is
//! the number times the unit's length (a month counts 30 days, a year 365).

use crate::text::{is_space, is_space_char, occurs_at, occurs_at_exec};
use vstd::prelude::*;

verus! {

/// The largest age, in seconds, that a relative-time string may describe: the
/// distance from 1970 back to the start of chrono's range of dates (year
/// -262143), so that an age up to it, read at any time after 1970, still names a
/// representable date. Older dates cannot be turned into a timestamp.
pub const MAX_AGE_SECONDS: u64 = 8_334_601_315_200;

/// The units that a relative-time string may name.
#[derive(Clone, Copy, Debug, PartialEq, Eq, Structural)]
pub enum TimeUnit {
    Second,
    Minute,
    Hour,
    Day,
    Week,
    Month,
    Year,
}

impl TimeUnit {
    /// The length of the unit in seconds.
    pub open spec fn spec_seconds(self) -> nat {
        match self {
            TimeUnit::Second => 1,
            TimeUnit::Minute => 60,
            TimeUnit::Hour => 3600,
            TimeUnit::Day => 86400,
            TimeUnit::Week => 604800,
            TimeUnit::Month => 2592000,
            TimeUnit::Year => 31536000,
        }
    }

    /// The word that names the unit.
    pub open spec fn word(self) -> Seq<char> {
        match self {
            TimeUnit::Second => seq!['s', 'e', 'c', 'o', 'n', 'd'],
            TimeUnit::Minute => seq!['m', 'i', 'n', 'u', 't', 'e'],
            TimeUnit::Hour => seq!['h', 'o', 'u', 'r'],
            TimeUnit::Day => seq!['d', 'a', 'y'],
            TimeUnit::Week => seq!['w', 'e', 'e', 'k'],
            TimeUnit::Month => seq!['m', 'o', 'n', 't', 'h'],
            TimeUnit::Year => seq!['y', 'e', 'a', 'r'],
        }
    }

    /// The length of the unit in seconds.
    pub fn seconds(&self) -> (r: u64)
        ensures
            r == self.spec_seconds(),
    {
        match self {
            TimeUnit::Second => 1,
            TimeUnit::Minute => 60,
            TimeUnit::Hour => 3600,
            TimeUnit::Day => 86400,
            TimeUnit::Week => 604800,
            TimeUnit::Month => 2592000,
            TimeUnit::Year => 31536000,
        }
    }

    /// The word that names the unit.
    pub fn word_chars(&self) -> (r: Vec<char>)
        ensures
            r@ == self.word(),
    {
        let r = match self {
            TimeUnit::Second => vec!['s', 'e', 'c', 'o', 'n', 'd'],
            TimeUnit::Minute => vec!['m', 'i', 'n', 'u', 't', 'e'],
            TimeUnit::Hour => vec!['h', 'o', 'u', 'r'],
            TimeUnit::Day => vec!['d', 'a', 'y'],
            TimeUnit::Week => vec!['w', 'e', 'e', 'k'],
            TimeUnit::Month => vec!['m', 'o', 'n', 't', 'h'],
            TimeUnit::Year => vec!['y', 'e', 'a', 'r'],
        };
        assert(r@ =~= self.word());
        r
    }
}

/// An ASCII decimal digit.
pub open spec fn is_digit(c: char) -> bool {
    '0' <= c && c <= '9'
}

/// The value of a digit character.
pub open spec fn digit_value(c: char) -> nat {
    (c as u32 - '0' as u32) as nat
}

/// The number that a string of decimal digits writes.
pub open spec fn decimal_value(ds: Seq<char>) -> nat
    decreases ds.len(),
{
    if ds.len() == 0 {
        0
    } else {
        10 * decimal_value(ds.drop_last()) + digit_value(ds.last())
    }
}

/// The end of the run of digits that starts at `i`.
pub open spec fn digit_run_end(s: Seq<char>, i: int) -> int
    decreases s.len() - i,
{
    if 0 <= i < s.len() && is_digit(s[i]) {
        digit_run_end(s, i + 1)
    } else {
        i
    }
}

/// The end of the run of whitespace that starts at `i`.
pub open spec fn space_run_end(s: Seq<char>, i: int) -> int
    decreases s.len() - i,
{
    if 0 <= i < s.len() && is_space(s[i]) {
        space_run_end(s, i + 1)
    } else {
        i
    }
}

/// The unit whose word starts at `k`, if any.
pub open spec fn unit_at(s: Seq<char>, k: int) -> Option<TimeUnit> {
    if occurs_at(s, TimeUnit::Second.word(), k) {
        Some(TimeUnit::Second)
    } else if occurs_at(s, TimeUnit::Minute.word(), k) {
        Some(TimeUnit::Minute)
    } else if occurs_at(s, TimeUnit::Hour.word(), k) {
        Some(TimeUnit::Hour)
    } else if occurs_at(s, TimeUnit::Day.word(), k) {
        Some(TimeUnit::Day)
    } else if occurs_at(s, TimeUnit::Week.word(), k) {
        Some(TimeUnit::Week)
    } else if occurs_at(s, TimeUnit::Month.word(), k) {
        Some(TimeUnit::Month)
    } else if occurs_at(s, TimeUnit::Year.word(), k) {
        Some(TimeUnit::Year)
    } else {
        None
    }
}

/// The word `ago`.
pub open spec fn ago_word() -> Seq<char> {
    seq!['a', 'g', 'o']
}

/// The amount and unit of a relative time that starts exactly at `i`.
pub open spec fn match_at(s: Seq<char>, i: int) -> Option<(nat, TimeUnit)> {
    let j = digit_run_end(s, i);
    let k = space_run_end(s, j);
    if j == i || k == j {
        None
    } else {
        match unit_at(s, k) {
            None => None,
            Some(u) => {
                let m = k + u.word().len();
                let m2 = if m < s.len() && s[m] == 's' {
                    m + 1
                } else {
                    m
                };
                let n = space_run_end(s, m2);
                if n > m2 && occurs_at(s, ago_word(), n) {
                    Some((decimal_value(s.subrange(i, j)), u))
                } else {
                    None
                }
            },
        }
    }
}

/// The first relative time in `s` that starts at or after `i`.
pub open spec fn time_ago_from(s: Seq<char>, i: int) -> Option<(nat, TimeUnit)>
    decreases s.len() - i,
{
    if i < 0 || i >= s.len() {
        None
    } else {
        match match_at(s, i) {
            Some(r) => Some(r),
            None => time_ago_from(s, i + 1),
        }
    }
}

/// The amount and unit that a relative-time string gives, if it holds one.
pub open spec fn time_ago(s: Seq<char>) -> Option<(nat, TimeUnit)> {
    time_ago_from(s, 0)
}

/// The age in seconds that `s` describes, if it holds a relative time whose
/// age does not exceed [`MAX_AGE_SECONDS`].
pub open spec fn age_seconds(s: Seq<char>) -> Option<nat> {
    match time_ago(s) {
        Some((n, u)) => if n * u.spec_seconds() <= MAX_AGE_SECONDS {
            Some(n * u.spec_seconds())
        } else {
            None
        },
        None => None,
    }
}

/// The Unix timestamp, in seconds, that `s` denotes when read at time `now`.
pub open spec fn timestamp_at(s: Seq<char>, now: int) -> Option<int> {
    match age_seconds(s) {
        Some(a) => Some(now - a),
        None => None,
    }
}

/// The range of `now` for which [`timestamp_at`] fits in an `i64`.
pub open spec fn now_in_range(now: i64) -> bool {
    now >= i64::MIN + MAX_AGE_SECONDS
}

/// `m`, or `MAX_AGE_SECONDS + 1` when `m` is larger than [`MAX_AGE_SECONDS`].
pub open spec fn capped(m: nat) -> nat {
    if m > MAX_AGE_SECONDS {
        (MAX_AGE_SECONDS + 1) as nat
    } else {
        m
    }
}

/// The text `"<ds> <unit>[s] ago"`: the digits `ds`, a space, the unit's word,
/// an `s` when `plural`, a space and `ago`.
pub open spec fn relative_time_text(ds: Seq<char>, u: TimeUnit, plural: bool) -> Seq<char> {
    ds + seq![' '] + u.word() + (if plural {
        seq!['s']
    } else {
        Seq::empty()
    }) + seq![' '] + ago_word()
}

proof fn lemma_occurs_head(s: Seq<char>, p: Seq<char>, k: int)
    requires
        occurs_at(s, p, k),
        p.len() >= 2,
    ensures
        s[k] == p[0],
        s[k + 1] == p[1],
{
    assert(s.subrange(k, k + p.len())[0] == s[k]);
    assert(s.subrange(k, k + p.len())[1] == s[k + 1]);
}

proof fn lemma_digit_run_to(s: Seq<char>, i: int, e: int)
    requires
        0 <= i <= e < s.len(),
        forall|k: int| i <= k < e ==> is_digit(s[k]),
        !is_digit(s[e]),
    ensures
        digit_run_end(s, i) == e,
    decreases e - i,
{
    if i < e {
        lemma_digit_run_to(s, i + 1, e);
    }
}

/// Every string `"<N> <unit>(s) ago"` reads as `N` of that unit. Its timestamp at
/// time `now` is `now` minus `N` times the unit's length in seconds; an age above
/// [`MAX_AGE_SECONDS`] gives no timestamp.
pub proof fn lemma_relative_time_read(ds: Seq<char>, u: TimeUnit, plural: bool, now: int)
    requires
        ds.len() > 0,
        forall|k: int| 0 <= k < ds.len() ==> is_digit(ds[k]),
    ensures
        time_ago(relative_time_text(ds, u, plural)) == Some((decimal_value(ds), u)),
        decimal_value(ds) * u.spec_seconds() <= MAX_AGE_SECONDS ==> timestamp_at(
            relative_time_text(ds, u, plural),
            now,
        ) == Some(now - decimal_value(ds) * u.spec_seconds()),
        decimal_value(ds) * u.spec_seconds() > MAX_AGE_SECONDS ==> timestamp_at(
            relative_time_text(ds, u, plural),
            now,
        ) is None,
{
    let t = relative_time_text(ds, u, plural);
    let w = u.word();
    let sfx: Seq<char> = if plural {
        seq!['s']
    } else {
        Seq::empty()
    };
    let d = ds.len() as int;
    let k = d + 1;
    let m = k + w.len();
    let m2 = m + sfx.len();
    assert(t.len() == m2 + 4);
    assert forall|i: int| 0 <= i < d implies t[i] == ds[i] by {}
    assert(t[d] == ' ');
    assert forall|i: int| 0 <= i < w.len() implies t[k + i] == w[i] by {}
    assert(plural ==> t[m] == 's');
    assert(t[m2] == ' ');
    assert(t[m2 + 1] == 'a' && t[m2 + 2] == 'g' && t[m2 + 3] == 'o');
    lemma_digit_run_to(t, 0, d);
    assert(space_run_end(t, d + 1) == d + 1);
    assert(space_run_end(t, d) == d + 1);
    assert(t.subrange(k, k + w.len()) =~= w);
    assert(occurs_at(t, w, k));
    assert forall|v: TimeUnit| occurs_at(t, v.word(), k) implies v == u by {
        lemma_occurs_head(t, v.word(), k);
    }
    assert(unit_at(t, k) == Some(u));
    assert(space_run_end(t, m2 + 1) == m2 + 1);
    assert(space_run_end(t, m2) == m2 + 1);
    assert(t.subrange(m2 + 1, m2 + 4) =~= ago_word());
    assert(t.subrange(0, d) =~= ds);
    assert(match_at(t, 0) == Some((decimal_value(ds), u)));
}

fn is_digit_char(c: char) -> (r: bool)
    ensures
        r == is_digit(c),
{
    '0' <= c && c <= '9'
}

fn digit_run_end_exec(s: &Vec<char>, i: usize) -> (r: usize)
    requires
        i <= s.len(),
    ensures
        r == digit_run_end(s@, i as int),
        i <= r <= s.len(),
{
    let mut j = i;
    while j < s.len() && is_digit_char(s[j])
        invariant
            i <= j <= s.len(),
            digit_run_end(s@, i as int) == digit_run_end(s@, j as int),
        decreases s.len() - j,
    {
        j = j + 1;
    }
    j
}

fn space_run_end_exec(s: &Vec<char>, i: usize) -> (r: usize)
    requires
        i <= s.len(),
    ensures
        r == space_run_end(s@, i as int),
        i <= r <= s.len(),
{
    let mut j = i;
    while j < s.len() && is_space_char(s[j])
        invariant
            i <= j <= s.len(),
            space_run_end(s@, i as int) == space_run_end(s@, j as int),
        decreases s.len() - j,
    {
        j = j + 1;
    }
    j
}

/// The value of the digits `s[from..to]`, or `MAX_AGE_SECONDS + 1` when larger.
fn capped_decimal(s: &Vec<char>, from: usize, to: usize) -> (r: u64)
    requires
        from <= to <= s.len(),
        forall|k: int| from <= k < to ==> is_digit(s@[k]),
    ensures
        r == capped(decimal_value(s@.subrange(from as int, to as int))),
{
    let mut r: u64 = 0;
    let mut i = from;
    assert(s@.subrange(from as int, from as int).len() == 0);
    while i < to
        invariant
            from <= i <= to <= s.len(),
            forall|k: int| from <= k < to ==> is_digit(s@[k]),
            r == capped(decimal_value(s@.subrange(from as int, i as int))),
        decreases to - i,
    {
        let ghost prev = s@.subrange(from as int, i as int);
        let ghost next = s@.subrange(from as int, i + 1);
        assert(next.drop_last() =~= prev);
        assert(next.last() == s@[i as int]);
        let d = (s[i] as u32 - '0' as u32) as u64;
        if r <= MAX_AGE_SECONDS {
            r = 10 * r + d;
            if r > MAX_AGE_SECONDS {
                r = MAX_AGE_SECONDS + 1;
            }
        }
        i = i + 1;
    }
    r
}

/// The unit whose word starts at `k`, with the index just after the word.
fn unit_at_exec(s: &Vec<char>, k: usize) -> (r: Option<(TimeUnit, usize)>)
    ensures
        r matches Some((u, e)) ==> unit_at(s@, k as int) == Some(u) && e == k + u.word().len(),
        r is None ==> unit_at(s@, k as int) is None,
{
    let units = [
        TimeUnit::Second,
        TimeUnit::Minute,
        TimeUnit::Hour,
        TimeUnit::Day,
        TimeUnit::Week,
        TimeUnit::Month,
        TimeUnit::Year,
    ];
    let mut idx: usize = 0;
    while idx < 7
        invariant
            idx <= 7,
            units@ == seq![
                TimeUnit::Second,
                TimeUnit::Minute,
                TimeUnit::Hour,
                TimeUnit::Day,
                TimeUnit::Week,
                TimeUnit::Month,
                TimeUnit::Year,
            ],
            forall|m: int| 0 <= m < idx ==> !occurs_at(s@, (#[trigger] units@[m]).word(), k as int),
        decreases 7 - idx,
    {
        let u = units[idx];
        let w = u.word_chars();
        if occurs_at_exec(s, &w, k) {
            assert(k + w@.len() <= s@.len());
            assert(s@.len() == s.len() && w@.len() == w.len());
            return Some((u, k + w.len()));
        }
        idx = idx + 1;
    }
    assert(!occurs_at(s@, units@[0].word(), k as int));
    assert(!occurs_at(s@, units@[1].word(), k as int));
    assert(!occurs_at(s@, units@[2].word(), k as int));
    assert(!occurs_at(s@, units@[3].word(), k as int));
    assert(!occurs_at(s@, units@[4].word(), k as int));
    assert(!occurs_at(s@, units@[5].word(), k as int));
    assert(!occurs_at(s@, units@[6].word(), k as int));
    None
}

/// The relative time that starts exactly at `i`, its amount capped as in
/// [`capped_decimal`].
fn match_at_exec(s: &Vec<char>, i: usize) -> (r: Option<(u64, TimeUnit)>)
    requires
        i < s.len(),
    ensures
        r matches Some((n, u)) ==> match_at(s@, i as int) matches Some((m, w)) && w == u && n == capped(m),
        r is None ==> match_at(s@, i as int) is None,
{
    let j = digit_run_end_exec(s, i);
    if j == i {
        return None;
    }
    let k = space_run_end_exec(s, j);
    if k == j {
        return None;
    }
    let (u, m) = match unit_at_exec(s, k) {
        Some(found) => found,
        None => {
            return None;
        },
    };
    let m2 = if m < s.len() && s[m] == 's' {
        m + 1
    } else {
        m
    };
    if m2 > s.len() {
        return None;
    }
    let n = space_run_end_exec(s, m2);
    let ago = vec!['a', 'g', 'o'];
    assert(ago@ =~= ago_word());
    if n > m2 && occurs_at_exec(s, &ago, n) {
        proof {
            lemma_digit_run(s@, i as int);
        }
        let amount = capped_decimal(s, i, j);
        Some((amount, u))
    } else {
        None
    }
}

/// Every character between `i` and the end of its digit run is a digit.
proof fn lemma_digit_run(s: Seq<char>, i: int)
    requires
        0 <= i <= s.len(),
    ensures
        i <= digit_run_end(s, i) <= s.len(),
        forall|k: int| i <= k < digit_run_end(s, i) ==> is_digit(s[k]),
    decreases s.len() - i,
{
    if i < s.len() && is_digit(s[i]) {
        lemma_digit_run(s, i + 1);
    }
}

/// The amount and unit of the first relative time in `s`, the amount capped
/// at `MAX_AGE_SECONDS + 1`.
fn time_ago_exec(s: &Vec<char>) -> (r: Option<(u64, TimeUnit)>)
    ensures
        r matches Some((n, u)) ==> time_ago(s@) matches Some((m, w)) && w == u && n == capped(m),
        r is None ==> time_ago(s@) is None,
{
    let mut i: usize = 0;
    while i < s.len()
        invariant
            i <= s.len(),
            time_ago(s@) == time_ago_from(s@, i as int),
        decreases s.len() - i,
    {
        let found = match_at_exec(s, i);
        if found.is_some() {
            return found;
        }
        i = i + 1;
    }
    None
}

proof fn lemma_age_bound(n: nat, secs: nat)
    requires
        secs > 0,
    ensures
        n <= (MAX_AGE_SECONDS as nat) / secs <==> n * secs <= MAX_AGE_SECONDS,
{
    let q = MAX_AGE_SECONDS as nat / secs;
    assert(q * secs <= MAX_AGE_SECONDS) by (nonlinear_arith)
        requires
            q == MAX_AGE_SECONDS as nat / secs,
            secs > 0,
    ;
    assert(MAX_AGE_SECONDS < (q + 1) * secs) by (nonlinear_arith)
        requires
            q == MAX_AGE_SECONDS as nat / secs,
            secs > 0,
    ;
    if n <= q {
        assert(n * secs <= q * secs) by (nonlinear_arith)
            requires
                n <= q,
        ;
    } else {
        assert((q + 1) * secs <= n * secs) by (nonlinear_arith)
            requires
                q + 1 <= n,
        ;
    }
}

/// The age in seconds that the relative-time string `s` describes.
pub fn age_seconds_of(s: &Vec<char>) -> (r: Option<u64>)
    ensures
        r matches Some(a) ==> age_seconds(s@) == Some(a as nat),
        r is None ==> age_seconds(s@) is None,
{
    match time_ago_exec(s) {
        None => None,
        Some((n, u)) => {
            let secs = u.seconds();
            let ghost m = match time_ago(s@) {
                Some((m, _)) => m,
                None => 0,
            };
            proof {
                lemma_age_bound(n as nat, secs as nat);
                lemma_age_bound(m, secs as nat);
                if m > MAX_AGE_SECONDS {
                    assert(m * secs >= m) by (nonlinear_arith)
                        requires
                            secs >= 1,
                    ;
                }
            }
            if n > MAX_AGE_SECONDS / secs {
                None
            } else {
                Some(n * secs)
            }
        },
    }
}

} // verus!
