//! The retry policy shared by the transcription and summarization calls, and
//! the parser for the wait time that a rate-limited provider suggests.

use crate::relative_time::{decimal_value, is_digit};
use crate::text::{
    chars_of, contains, find_from, find_from_exec, is_space, lemma_find_from, occurs_at, trim,
    trim_bounds, trim_end, trim_start,
};
use vstd::prelude::*;

verus! {

/// How many attempts a call gets before its failure is final.
pub const MAX_ATTEMPTS: u32 = 5;

/// What to do after a failed attempt.
#[derive(Clone, Copy, Debug, PartialEq, Eq, Structural)]
pub enum RetryDecision {
    /// Wait this many milliseconds, then try again.
    WaitMs(u64),
    /// The attempts are used up: the failure is final.
    GiveUp,
}

/// `Please try again in `
pub open spec fn wait_marker() -> Seq<char> {
    "Please try again in "@
}

/// `ms`
pub open spec fn ms_word() -> Seq<char> {
    seq!['m', 's']
}

/// The number that `str::parse::<u64>` reads from `t`: an optional `+` and one or
/// more ASCII digits whose value fits in a `u64`.
pub open spec fn parse_u64(t: Seq<char>) -> Option<nat> {
    let ds = unsigned_digits(t);
    if ds.len() > 0 && (forall|k: int| 0 <= k < ds.len() ==> is_digit(#[trigger] ds[k]))
        && decimal_value(ds) <= u64::MAX {
        Some(decimal_value(ds))
    } else {
        None
    }
}

/// `t` without a leading `+`.
pub open spec fn unsigned_digits(t: Seq<char>) -> Seq<char> {
    if t.len() > 0 && t[0] == '+' {
        t.drop_first()
    } else {
        t
    }
}

/// The wait in milliseconds that an error text suggests: the number between the
/// first `Please try again in ` and the next `ms`, surrounding whitespace ignored.
pub open spec fn suggested_wait(err: Seq<char>) -> Option<nat> {
    match find_from(err, wait_marker(), 0) {
        None => None,
        Some(i) => {
            let after = err.skip(i + wait_marker().len());
            match find_from(after, ms_word(), 0) {
                None => None,
                Some(e) => parse_u64(trim(after.take(e))),
            }
        },
    }
}

/// Two to the power `n`.
pub open spec fn pow2(n: nat) -> nat
    decreases n,
{
    if n == 0 {
        1
    } else {
        2 * pow2((n - 1) as nat)
    }
}

/// The wait before the next attempt, after `attempt` failed attempts: the
/// suggested wait when the error text holds one, else `2^attempt` seconds.
pub open spec fn wait_ms(err: Seq<char>, attempt: nat) -> nat {
    match suggested_wait(err) {
        Some(w) => w,
        None => pow2(attempt) * 1000,
    }
}

/// What follows the failure of attempt number `attempt` (counted from one).
pub open spec fn retry_decision(err: Seq<char>, attempt: nat) -> RetryDecision {
    if attempt >= MAX_ATTEMPTS {
        RetryDecision::GiveUp
    } else {
        RetryDecision::WaitMs(wait_ms(err, attempt) as u64)
    }
}

/// The number written in `v[from..to]`, read as `str::parse::<u64>` reads it.
fn parse_u64_exec(v: &Vec<char>, from: usize, to: usize) -> (r: Option<u64>)
    requires
        from <= to <= v.len(),
    ensures
        r matches Some(n) ==> parse_u64(v@.subrange(from as int, to as int)) == Some(n as nat),
        r is None ==> parse_u64(v@.subrange(from as int, to as int)) is None,
{
    let ghost t = v@.subrange(from as int, to as int);
    let mut i = from;
    if i < to && v[i] == '+' {
        i = i + 1;
    }
    let ghost ds = v@.subrange(i as int, to as int);
    assert(ds =~= unsigned_digits(t));
    if i == to {
        assert(ds.len() == 0);
        return None;
    }
    let start = i;
    let mut value: u64 = 0;
    while i < to
        invariant
            from <= start <= i <= to <= v.len(),
            ds == v@.subrange(start as int, to as int),
            t == v@.subrange(from as int, to as int),
            ds == unsigned_digits(t),
            forall|k: int| start <= k < i ==> is_digit(v@[k]),
            value == decimal_value(v@.subrange(start as int, i as int)),
        decreases to - i,
    {
        let c = v[i];
        if !('0' <= c && c <= '9') {
            assert(!is_digit(ds[i - start]));
            assert(!(forall|k: int| 0 <= k < ds.len() ==> is_digit(#[trigger] ds[k])));
            return None;
        }
        let d = (c as u32 - '0' as u32) as u64;
        let ghost next = v@.subrange(start as int, i + 1);
        assert(next.drop_last() =~= v@.subrange(start as int, i as int));
        if value > (u64::MAX - d) / 10 {
            proof {
                lemma_decimal_prefix_bound(v@.subrange(start as int, to as int), i - start + 1);
                assert(v@.subrange(start as int, to as int).take(i - start + 1) =~= next);
            }
            return None;
        }
        value = 10 * value + d;
        i = i + 1;
    }
    assert(v@.subrange(start as int, i as int) =~= ds);
    Some(value)
}

/// A string of digits is worth at least as much as each of its prefixes.
proof fn lemma_decimal_prefix_bound(ds: Seq<char>, n: int)
    requires
        0 <= n <= ds.len(),
    ensures
        decimal_value(ds.take(n)) <= decimal_value(ds),
    decreases ds.len(),
{
    if n < ds.len() {
        lemma_decimal_prefix_bound(ds.drop_last(), n);
        assert(ds.drop_last().take(n) =~= ds.take(n));
    } else {
        assert(ds.take(n) =~= ds);
    }
}

/// The wait that a provider's error text suggests, if it holds one.
pub fn extract_wait_time_ms_from_error(err_msg: &str) -> (r: Option<u64>)
    ensures
        r matches Some(w) ==> suggested_wait(err_msg@) == Some(w as nat),
        r is None ==> suggested_wait(err_msg@) is None,
{
    let s = chars_of(err_msg);
    let marker = chars_of("Please try again in ");
    let ms = vec!['m', 's'];
    assert(ms@ =~= ms_word());
    match find_from_exec(&s, &marker, 0) {
        None => None,
        Some(i) => {
            proof {
                lemma_find_from(s@, marker@, 0);
            }
            assert(i + marker@.len() <= s@.len());
            assert(s@.len() == s.len() && marker@.len() == marker.len());
            let start = i + marker.len();
            let after = crate::text::slice_of(&s, start, s.len());
            assert(after@ =~= s@.skip(start as int));
            match find_from_exec(&after, &ms, 0) {
                None => None,
                Some(e) => {
                    proof {
                        lemma_find_from(after@, ms@, 0);
                    }
                    let (lo, hi) = trim_bounds(&after, 0, e);
                    assert(after@.subrange(0, e as int) =~= after@.take(e as int));
                    parse_u64_exec(&after, lo, hi)
                },
            }
        },
    }
}

pub(crate) fn pow2_exec(n: u32) -> (r: u64)
    requires
        n <= 53,
    ensures
        r == pow2(n as nat),
        r <= pow2(53),
{
    let mut r: u64 = 1;
    let mut i: u32 = 0;
    proof {
        lemma_pow2_monotone(0, 53);
        lemma_pow2_53();
    }
    while i < n
        invariant
            i <= n <= 53,
            r == pow2(i as nat),
            pow2(i as nat) <= pow2(53),
            pow2(53) == 9007199254740992,
        decreases n - i,
    {
        proof {
            lemma_pow2_monotone((i + 1) as nat, 53);
        }
        r = 2 * r;
        i = i + 1;
    }
    proof {
        lemma_pow2_monotone(n as nat, 53);
    }
    r
}

proof fn lemma_pow2_53()
    ensures
        pow2(53) == 9007199254740992,
{
    reveal_with_fuel(pow2, 54);
}

proof fn lemma_pow2_monotone(a: nat, b: nat)
    requires
        a <= b,
    ensures
        pow2(a) <= pow2(b),
    decreases b,
{
    if a < b {
        lemma_pow2_monotone(a, (b - 1) as nat);
    }
}

/// The wait before the next attempt after `attempt` failed attempts.
pub fn retry_wait_ms(err_msg: &str, attempt: u32) -> (r: u64)
    requires
        attempt <= 53,
    ensures
        r == wait_ms(err_msg@, attempt as nat),
{
    match extract_wait_time_ms_from_error(err_msg) {
        Some(w) => w,
        None => {
            let p = pow2_exec(attempt);
            proof {
                lemma_pow2_53();
            }
            p * 1000
        },
    }
}

/// What to do after attempt number `attempt` (counted from one) failed with `err_msg`.
pub fn next_retry(err_msg: &str, attempt: u32) -> (r: RetryDecision)
    ensures
        r == retry_decision(err_msg@, attempt as nat),
{
    if attempt >= MAX_ATTEMPTS {
        RetryDecision::GiveUp
    } else {
        RetryDecision::WaitMs(retry_wait_ms(err_msg, attempt))
    }
}

proof fn lemma_find_in_prefix(a: Seq<char>, b: Seq<char>, m: Seq<char>, i: int)
    requires
        0 <= i,
        find_from(a, m, i) is Some,
    ensures
        find_from(a + b, m, i) == find_from(a, m, i),
    decreases a.len() + 1 - i,
{
    if i + m.len() <= a.len() {
        assert((a + b).subrange(i, i + m.len()) =~= a.subrange(i, i + m.len()));
        if !occurs_at(a, m, i) {
            lemma_find_in_prefix(a, b, m, i + 1);
        }
    }
}

proof fn lemma_find_ms_after_digits(t: Seq<char>, n: int, j: int)
    requires
        0 <= j <= n,
        n + 2 <= t.len(),
        forall|k: int| 0 <= k < n ==> is_digit(#[trigger] t[k]),
        t[n] == 'm' && t[n + 1] == 's',
    ensures
        find_from(t, ms_word(), j) == Some(n),
    decreases n - j,
{
    if j < n {
        assert(t.subrange(j, j + 2)[0] == t[j]);
        lemma_find_ms_after_digits(t, n, j + 1);
    } else {
        assert(t.subrange(n, n + 2) =~= ms_word());
    }
}

/// The retry wait. When the first `Please try again in ` of an error text is
/// followed by the digits `ds` and `ms`, the wait is the number that `ds` writes,
/// whatever the attempt; an error text without that phrase waits `2^attempt`
/// seconds.
pub proof fn lemma_retry_wait(
    p: Seq<char>,
    ds: Seq<char>,
    q: Seq<char>,
    err: Seq<char>,
    attempt: nat,
)
    requires
        find_from(p + wait_marker(), wait_marker(), 0) == Some(p.len() as int),
        ds.len() > 0,
        forall|k: int| 0 <= k < ds.len() ==> is_digit(#[trigger] ds[k]),
        decimal_value(ds) <= u64::MAX,
    ensures
        wait_ms(p + wait_marker() + ds + ms_word() + q, attempt) == decimal_value(ds),
        !contains(err, wait_marker()) ==> wait_ms(err, attempt) == pow2(attempt) * 1000,
{
    let mk = wait_marker();
    let text = p + mk + ds + ms_word() + q;
    assert(text =~= (p + mk) + (ds + ms_word() + q));
    lemma_find_in_prefix(p + mk, ds + ms_word() + q, mk, 0);
    let after = text.skip((p.len() + mk.len()) as int);
    assert(after =~= ds + ms_word() + q);
    assert forall|k: int| 0 <= k < ds.len() implies is_digit(#[trigger] after[k]) by {
        assert(after[k] == ds[k]);
    }
    lemma_find_ms_after_digits(after, ds.len() as int, 0);
    assert(after.take(ds.len() as int) =~= ds);
    assert(!is_space(ds[0]));
    assert(!is_space(ds.last()));
    assert(trim_start(ds) == ds);
    assert(trim_end(ds) == ds);
    assert(unsigned_digits(ds) == ds);
    if !contains(err, mk) {
        lemma_find_from(err, mk, 0);
    }
}

} // verus!
