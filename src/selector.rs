//! Picks the streams that one run works on: those not yet persisted, oldest
//! first, at most a given number of them.

use crate::relative_time::{age_seconds, timestamp_at};
use crate::stream::Stream;
use vstd::prelude::*;

verus! {

/// The sort key of a stream: its age in seconds, `None` when the publication
/// string does not parse.
pub open spec fn age_key(s: Stream) -> Option<nat> {
    age_seconds(s.streamed_date@)
}

/// A stream with key `a` may stand before one with key `b`: the older first,
/// and streams without a usable age after all others.
pub open spec fn key_before(a: Option<nat>, b: Option<nat>) -> bool {
    match (a, b) {
        (Some(x), Some(y)) => x >= y,
        (Some(_), None) => true,
        (None, Some(_)) => false,
        (None, None) => true,
    }
}

/// `id` is one of `ids`.
pub open spec fn id_listed(ids: Seq<String>, id: Seq<char>) -> bool {
    exists|k: int| 0 <= k < ids.len() && (#[trigger] ids[k])@ == id
}

/// The candidates whose id is not among `ids`, in their order.
pub open spec fn unpersisted(cands: Seq<Stream>, ids: Seq<String>) -> Seq<Stream>
    decreases cands.len(),
{
    if cands.len() == 0 {
        Seq::empty()
    } else {
        let rest = unpersisted(cands.drop_last(), ids);
        if id_listed(ids, cands.last().video_id@) {
            rest
        } else {
            rest.push(cands.last())
        }
    }
}

/// `x` inserted into `s` before the first element that may not stand before it.
pub open spec fn insert_by_age(s: Seq<Stream>, x: Stream) -> Seq<Stream>
    decreases s.len(),
{
    if s.len() == 0 {
        seq![x]
    } else if key_before(age_key(s[0]), age_key(x)) {
        seq![s[0]] + insert_by_age(s.drop_first(), x)
    } else {
        seq![x] + s
    }
}

/// `s` sorted oldest first; streams of equal key keep their order.
pub open spec fn sort_by_age(s: Seq<Stream>) -> Seq<Stream>
    decreases s.len(),
{
    if s.len() == 0 {
        Seq::empty()
    } else {
        insert_by_age(sort_by_age(s.drop_last()), s.last())
    }
}

/// The streams that a run selects.
pub open spec fn selection(cands: Seq<Stream>, ids: Seq<String>, max: nat) -> Seq<Stream> {
    let sorted = sort_by_age(unpersisted(cands, ids));
    sorted.take(if max < sorted.len() {
        max as int
    } else {
        sorted.len() as int
    })
}

/// Every stream may stand before every later one.
pub open spec fn sorted_by_age(s: Seq<Stream>) -> bool {
    forall|i: int, j: int|
        0 <= i < j < s.len() ==> key_before(age_key(#[trigger] s[i]), age_key(#[trigger] s[j]))
}

fn key_before_exec(a: Option<u64>, b: Option<u64>) -> (r: bool)
    ensures
        r == key_before(opt_nat(a), opt_nat(b)),
{
    match (a, b) {
        (Some(x), Some(y)) => x >= y,
        (Some(_), None) => true,
        (None, Some(_)) => false,
        (None, None) => true,
    }
}

/// An optional `u64` as an optional `nat`.
pub open spec fn opt_nat(a: Option<u64>) -> Option<nat> {
    match a {
        Some(x) => Some(x as nat),
        None => None,
    }
}

fn is_listed(ids: &Vec<String>, id: &String) -> (r: bool)
    ensures
        r == id_listed(ids@, id@),
{
    let mut k: usize = 0;
    while k < ids.len()
        invariant
            k <= ids.len(),
            forall|m: int| 0 <= m < k ==> (#[trigger] ids@[m])@ != id@,
        decreases ids.len() - k,
    {
        if ids[k] == *id {
            return true;
        }
        k = k + 1;
    }
    false
}

proof fn lemma_insert_at(s: Seq<Stream>, x: Stream, p: int)
    requires
        0 <= p <= s.len(),
        forall|k: int| 0 <= k < p ==> key_before(age_key(#[trigger] s[k]), age_key(x)),
        p < s.len() ==> !key_before(age_key(s[p]), age_key(x)),
    ensures
        insert_by_age(s, x) == s.take(p) + seq![x] + s.skip(p),
    decreases s.len(),
{
    if s.len() == 0 {
        assert(s.take(p) + seq![x] + s.skip(p) =~= seq![x]);
    } else if p == 0 {
        assert(s.take(p) + seq![x] + s.skip(p) =~= seq![x] + s);
    } else {
        let t = s.drop_first();
        assert forall|k: int| 0 <= k < p - 1 implies key_before(
            age_key(#[trigger] t[k]),
            age_key(x),
        ) by {
            assert(t[k] == s[k + 1]);
        }
        lemma_insert_at(t, x, p - 1);
        assert(s.take(p) + seq![x] + s.skip(p) =~= seq![s[0]] + (t.take(p - 1) + seq![x] + t.skip(
            p - 1,
        )));
    }
}

/// The streams not yet persisted, oldest first, at most `max_streams` of them.
///
/// `existing_ids` are the ids already persisted. Streams whose publication
/// string gives no age come after all others; streams of equal age keep their
/// order.
pub fn sort_and_filter_existing_streams(
    max_streams: usize,
    existing_ids: &Vec<String>,
    streams: Vec<Stream>,
) -> (r: Vec<Stream>)
    ensures
        r@ == selection(streams@, existing_ids@, max_streams as nat),
{
    let mut sorted: Vec<Stream> = Vec::new();
    let mut keys: Vec<Option<u64>> = Vec::new();
    let ghost mut kept: Seq<Stream> = Seq::empty();
    let mut i: usize = 0;
    while i < streams.len()
        invariant
            i <= streams.len(),
            kept == unpersisted(streams@.take(i as int), existing_ids@),
            sorted@ == sort_by_age(kept),
            keys@.len() == sorted@.len(),
            forall|k: int| 0 <= k < keys@.len() ==> opt_nat(#[trigger] keys@[k]) == age_key(sorted@[k]),
        decreases streams.len() - i,
    {
        assert(streams@.take(i + 1).drop_last() =~= streams@.take(i as int));
        let s = &streams[i];
        if !is_listed(existing_ids, &s.video_id) {
            let key = s.age_seconds();
            let mut p: usize = 0;
            while p < sorted.len() && key_before_exec(keys[p], key)
                invariant
                    p <= sorted.len(),
                    keys@.len() == sorted@.len(),
                    forall|k: int| 0 <= k < keys@.len() ==> opt_nat(#[trigger] keys@[k]) == age_key(sorted@[k]),
                    forall|k: int| 0 <= k < p ==> key_before(age_key(#[trigger] sorted@[k]), age_key(*s)),
                    opt_nat(key) == age_key(*s),
                decreases sorted.len() - p,
            {
                p = p + 1;
            }
            proof {
                lemma_insert_at(sorted@, *s, p as int);
                kept = kept.push(*s);
                assert(kept.drop_last() =~= unpersisted(streams@.take(i as int), existing_ids@));
            }
            let ghost keys_before = keys@;
            let ghost sorted_before = sorted@;
            let c = s.copy();
            sorted.insert(p, c);
            keys.insert(p, key);
            assert(sorted@ =~= sort_by_age(kept));
            assert forall|k: int| 0 <= k < keys@.len() implies opt_nat(#[trigger] keys@[k]) == age_key(sorted@[k]) by {
                if k < p {
                    assert(keys@[k] == keys_before[k] && sorted@[k] == sorted_before[k]);
                } else if k > p {
                    assert(keys@[k] == keys_before[k - 1] && sorted@[k] == sorted_before[k - 1]);
                }
            }
        }
        i = i + 1;
    }
    assert(streams@.take(streams.len() as int) =~= streams@);
    if max_streams < sorted.len() {
        sorted.truncate(max_streams);
    }
    assert(sorted@ =~= selection(streams@, existing_ids@, max_streams as nat));
    sorted
}

proof fn lemma_key_order(a: Option<nat>, b: Option<nat>, c: Option<nat>)
    ensures
        key_before(a, b) || key_before(b, a),
        key_before(a, b) && key_before(b, c) ==> key_before(a, c),
{
}

proof fn lemma_insert_sorted(s: Seq<Stream>, x: Stream)
    requires
        sorted_by_age(s),
    ensures
        insert_by_age(s, x).len() == s.len() + 1,
        sorted_by_age(insert_by_age(s, x)),
        forall|k: int|
            0 <= k < s.len() + 1 ==> #[trigger] insert_by_age(s, x)[k] == x || exists|j: int|
                0 <= j < s.len() && insert_by_age(s, x)[k] == s[j],
    decreases s.len(),
{
    let r = insert_by_age(s, x);
    if s.len() == 0 {
    } else if key_before(age_key(s[0]), age_key(x)) {
        let t = s.drop_first();
        assert forall|i: int, j: int| 0 <= i < j < t.len() implies key_before(
            age_key(#[trigger] t[i]),
            age_key(#[trigger] t[j]),
        ) by {
            assert(t[i] == s[i + 1] && t[j] == s[j + 1]);
        }
        lemma_insert_sorted(t, x);
        let q = insert_by_age(t, x);
        assert(r == seq![s[0]] + q);
        assert forall|k: int| 0 <= k < s.len() + 1 implies #[trigger] r[k] == x || exists|j: int|
            0 <= j < s.len() && r[k] == s[j] by {
            if k == 0 {
                assert(r[0] == s[0]);
            } else {
                assert(r[k] == q[k - 1]);
                if q[k - 1] != x {
                    let j0 = choose|j: int| 0 <= j < t.len() && q[k - 1] == t[j];
                    assert(r[k] == s[j0 + 1]);
                }
            }
        }
        assert forall|i: int, j: int| 0 <= i < j < r.len() implies key_before(
            age_key(#[trigger] r[i]),
            age_key(#[trigger] r[j]),
        ) by {
            if i == 0 {
                assert(r[j] == q[j - 1]);
                if q[j - 1] != x {
                    let j0 = choose|m: int| 0 <= m < t.len() && q[j - 1] == t[m];
                    assert(t[j0] == s[j0 + 1]);
                }
            } else {
                assert(r[i] == q[i - 1] && r[j] == q[j - 1]);
            }
        }
    } else {
        assert(r == seq![x] + s);
        assert forall|k: int| 0 <= k < s.len() + 1 implies #[trigger] r[k] == x || exists|j: int|
            0 <= j < s.len() && r[k] == s[j] by {
            if k > 0 {
                assert(r[k] == s[k - 1]);
            }
        }
        assert forall|i: int, j: int| 0 <= i < j < r.len() implies key_before(
            age_key(#[trigger] r[i]),
            age_key(#[trigger] r[j]),
        ) by {
            lemma_key_order(age_key(x), age_key(s[0]), age_key(r[j]));
            assert(r[j] == s[j - 1]);
            if i > 0 {
                assert(r[i] == s[i - 1]);
            } else if j > 1 {
                assert(key_before(age_key(s[0]), age_key(s[j - 1])));
            }
        }
    }
}

proof fn lemma_sort_sorted(s: Seq<Stream>)
    ensures
        sort_by_age(s).len() == s.len(),
        sorted_by_age(sort_by_age(s)),
    decreases s.len(),
{
    if s.len() > 0 {
        lemma_sort_sorted(s.drop_last());
        lemma_insert_sorted(sort_by_age(s.drop_last()), s.last());
    }
}

/// The ids of `cands`.
pub open spec fn ids_of(cands: Seq<Stream>) -> Set<Seq<char>>
    decreases cands.len(),
{
    if cands.len() == 0 {
        Set::empty()
    } else {
        ids_of(cands.drop_last()).insert(cands.last().video_id@)
    }
}

/// No two candidates share an id.
pub open spec fn distinct_ids(cands: Seq<Stream>) -> bool {
    forall|i: int, j: int|
        0 <= i < j < cands.len() ==> (#[trigger] cands[i]).video_id@ != (#[trigger] cands[j]).video_id@
}

proof fn lemma_ids_of(cands: Seq<Stream>)
    ensures
        ids_of(cands).finite(),
        forall|v: Seq<char>|
            #[trigger] ids_of(cands).contains(v) <==> exists|j: int|
                0 <= j < cands.len() && cands[j].video_id@ == v,
    decreases cands.len(),
{
    if cands.len() > 0 {
        let c = cands.drop_last();
        lemma_ids_of(c);
        assert forall|v: Seq<char>| #[trigger] ids_of(cands).contains(v) implies exists|j: int|
            0 <= j < cands.len() && cands[j].video_id@ == v by {
            if v != cands.last().video_id@ {
                let j0 = choose|j: int| 0 <= j < c.len() && c[j].video_id@ == v;
                assert(cands[j0] == c[j0]);
            }
        }
        assert forall|v: Seq<char>|
            (exists|j: int| 0 <= j < cands.len() && cands[j].video_id@ == v) implies #[trigger] ids_of(
            cands,
        ).contains(v) by {
            let j0 = choose|j: int| 0 <= j < cands.len() && cands[j].video_id@ == v;
            if j0 < c.len() {
                assert(c[j0] == cands[j0]);
            }
        }
    }
}

proof fn lemma_unpersisted_count(cands: Seq<Stream>, ids: Seq<String>, listed: Set<Seq<char>>)
    requires
        distinct_ids(cands),
        forall|v: Seq<char>| #[trigger] listed.contains(v) <==> id_listed(ids, v),
    ensures
        unpersisted(cands, ids).len() + ids_of(cands).intersect(listed).len() == cands.len(),
    decreases cands.len(),
{
    lemma_ids_of(cands);
    if cands.len() == 0 {
        assert(ids_of(cands).intersect(listed) =~= Set::empty());
    } else {
        let c = cands.drop_last();
        let x = cands.last();
        assert forall|i: int, j: int| 0 <= i < j < c.len() implies (#[trigger] c[i]).video_id@ != (
        #[trigger] c[j]).video_id@ by {
            assert(c[i] == cands[i] && c[j] == cands[j]);
        }
        lemma_unpersisted_count(c, ids, listed);
        lemma_ids_of(c);
        if ids_of(c).contains(x.video_id@) {
            let j0 = choose|j: int| 0 <= j < c.len() && c[j].video_id@ == x.video_id@;
            assert(cands[j0] == c[j0]);
        }
        let before = ids_of(c).intersect(listed);
        vstd::set::axiom_set_intersect_finite(ids_of(c), listed);
        assert(!before.contains(x.video_id@));
        if id_listed(ids, x.video_id@) {
            assert(ids_of(cands).intersect(listed) =~= before.insert(x.video_id@));
        } else {
            assert(ids_of(cands).intersect(listed) =~= before);
        }
    }
}

/// The selector's count and order. With `cands` of distinct ids and `ids` the
/// `K` distinct ids of candidates already persisted, the selection holds
/// `min(max, N - K)` streams, each no newer than the next: at every time `now`
/// their timestamps do not decrease, and streams without a timestamp come last.
pub proof fn lemma_selection_count_and_order(
    cands: Seq<Stream>,
    ids: Seq<String>,
    max: nat,
    now: int,
)
    requires
        distinct_ids(cands),
        forall|a: int, b: int| 0 <= a < b < ids.len() ==> (#[trigger] ids[a])@ != (#[trigger] ids[b])@,
        forall|a: int| 0 <= a < ids.len() ==> ids_of(cands).contains((#[trigger] ids[a])@),
    ensures
        ids.len() <= cands.len(),
        selection(cands, ids, max).len() == if max < cands.len() - ids.len() {
            max as int
        } else {
            cands.len() - ids.len()
        },
        sorted_by_age(selection(cands, ids, max)),
        forall|i: int, j: int|
            0 <= i < j < selection(cands, ids, max).len() ==> match (
                timestamp_at((#[trigger] selection(cands, ids, max)[i]).streamed_date@, now),
                timestamp_at((#[trigger] selection(cands, ids, max)[j]).streamed_date@, now),
            ) {
                (Some(ti), Some(tj)) => ti <= tj,
                (None, Some(_)) => false,
                _ => true,
            },
{
    let w = ids.map_values(|s: String| s@);
    let listed = w.to_set();
    assert forall|v: Seq<char>| #[trigger] listed.contains(v) <==> id_listed(ids, v) by {
        if listed.contains(v) {
            let k = choose|k: int| 0 <= k < w.len() && w[k] == v;
            assert(ids[k]@ == v);
        }
        if id_listed(ids, v) {
            let k = choose|k: int| 0 <= k < ids.len() && (#[trigger] ids[k])@ == v;
            assert(w[k] == v);
        }
    }
    assert(w.no_duplicates()) by {
        assert forall|a: int, b: int| 0 <= a < w.len() && 0 <= b < w.len() && a != b implies w[a]
            != w[b] by {
            if a < b {
                assert(ids[a]@ != ids[b]@);
            } else {
                assert(ids[b]@ != ids[a]@);
            }
        }
    }
    w.unique_seq_to_set();
    lemma_ids_of(cands);
    lemma_unpersisted_count(cands, ids, listed);
    assert(ids_of(cands).intersect(listed) =~= listed);
    let u = unpersisted(cands, ids);
    lemma_sort_sorted(u);
    let sel = selection(cands, ids, max);
    let sorted = sort_by_age(u);
    assert forall|i: int, j: int| 0 <= i < j < sel.len() implies key_before(
        age_key(#[trigger] sel[i]),
        age_key(#[trigger] sel[j]),
    ) by {
        assert(sel[i] == sorted[i] && sel[j] == sorted[j]);
    }
}

} // verus!
