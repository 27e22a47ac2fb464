//! Day bucketing of sorted candidates.
//!
//! One scheduler pass only encodes completed days: candidates are first cut
//! down to those strictly before the current calendar day, then partitioned
//! into one bucket per day, ascending, each bucket keeping its files in
//! their sorted order. The bucket of a day is proved to be exactly the
//! filter of the input by that day — the fact later used to show that a
//! failed day keeps its files and is planned again on the next pass.

use vstd::prelude::*;

use crate::files::TimestampedFile;
use crate::seqs::{lemma_filter_none, lemma_filter_push, lemma_map_push};
use crate::sorting::{lemma_filter_sorted, sorted_by_ts, ts_key};
use crate::timestamp::{day_value, lemma_day_lt_ord_lt, lemma_day_val_same_day, Timestamp};

verus! {

/// One completed calendar day with its candidates, ascending by timestamp.
#[derive(Debug)]
pub struct DayBucket {
    /// The day, with the time of day zeroed.
    pub day: Timestamp,
    /// That day's candidates, in sorted order.
    pub files: Vec<TimestampedFile>,
}

/// A timestamp with the time of day zeroed: the floor of its calendar day.
pub open spec fn spec_floor_to_day(t: Timestamp) -> Timestamp {
    Timestamp { hour: 0u32, minute: 0u32, second: 0u32, ..t }
}

/// The day a candidate belongs to.
pub open spec fn day_of_file(f: TimestampedFile) -> Timestamp {
    spec_floor_to_day(f.timestamp)
}

/// The mathematical shape of a bucket list: day and file sequence pairs.
pub open spec fn buckets_view(bs: Seq<DayBucket>) -> Seq<(Timestamp, Seq<TimestampedFile>)> {
    bs.map_values(|b: DayBucket| (b.day, b.files@))
}

/// Group a sequence into day buckets, walking from the end: a file joins
/// the bucket of its day if that is the last bucket, else opens a new one.
/// On sorted input this is exactly one bucket per occurring day, ascending.
pub open spec fn spec_group(s: Seq<TimestampedFile>) -> Seq<(Timestamp, Seq<TimestampedFile>)>
    decreases s.len(),
{
    if s.len() == 0 {
        Seq::empty()
    } else {
        let rest = spec_group(s.drop_last());
        let d = day_of_file(s.last());
        if rest.len() > 0 && rest.last().0 == d {
            rest.update(rest.len() - 1, (d, rest.last().1.push(s.last())))
        } else {
            rest.push((d, seq![s.last()]))
        }
    }
}

/// All bucket files, in bucket order.
pub open spec fn flatten_groups(g: Seq<(Timestamp, Seq<TimestampedFile>)>) -> Seq<TimestampedFile>
    decreases g.len(),
{
    if g.len() == 0 {
        Seq::empty()
    } else {
        flatten_groups(g.drop_last()) + g.last().1
    }
}

/// Grouping loses and invents nothing: flattening the buckets gives back
/// the grouped sequence, file for file and in order.
pub proof fn lemma_group_flatten(s: Seq<TimestampedFile>)
    ensures
        flatten_groups(spec_group(s)) == s,
    decreases s.len(),
{
    if s.len() == 0 {
        assert(flatten_groups(spec_group(s)) =~= s);
    } else {
        let dl = s.drop_last();
        let x = s.last();
        let d = day_of_file(x);
        lemma_group_flatten(dl);
        let rest = spec_group(dl);
        if rest.len() > 0 && rest.last().0 == d {
            let g = rest.update(rest.len() - 1, (d, rest.last().1.push(x)));
            assert(g =~= rest.drop_last().push((d, rest.last().1.push(x))));
            assert(g.drop_last() =~= rest.drop_last());
            assert(flatten_groups(g) == flatten_groups(rest.drop_last()) + rest.last().1.push(x));
            assert(flatten_groups(rest) == flatten_groups(rest.drop_last()) + rest.last().1);
            assert(flatten_groups(rest.drop_last()) + rest.last().1.push(x) =~= (flatten_groups(
                rest.drop_last(),
            ) + rest.last().1).push(x));
            assert(dl.push(x) =~= s);
        } else {
            let g = rest.push((d, seq![x]));
            assert(g.drop_last() =~= rest);
            assert(flatten_groups(g) == flatten_groups(rest) + seq![x]);
            assert(dl + seq![x] =~= s);
        }
    }
}

/// Every flattened file sits in one of the buckets.
pub proof fn lemma_flatten_index(g: Seq<(Timestamp, Seq<TimestampedFile>)>, i: int)
    requires
        0 <= i < flatten_groups(g).len(),
    ensures
        exists|k: int, j: int|
            0 <= k < g.len() && 0 <= j < g[k].1.len() && #[trigger] g[k].1[j] == flatten_groups(
                g,
            )[i],
    decreases g.len(),
{
    if g.len() > 0 {
        let head = flatten_groups(g.drop_last());
        if i < head.len() {
            lemma_flatten_index(g.drop_last(), i);
            let (k, j) = choose|k: int, j: int|
                0 <= k < g.drop_last().len() && 0 <= j < g.drop_last()[k].1.len()
                    && #[trigger] g.drop_last()[k].1[j] == head[i];
            assert(g[k].1[j] == flatten_groups(g)[i]);
        } else {
            let k = g.len() - 1;
            let j = i - head.len();
            assert(g[k].1[j] == flatten_groups(g)[i]);
        }
    }
}

/// Day bucketing is idempotent: grouping the flattening of the buckets
/// yields the same buckets again.
pub proof fn lemma_group_idempotent(s: Seq<TimestampedFile>)
    ensures
        spec_group(flatten_groups(spec_group(s))) == spec_group(s),
{
    lemma_group_flatten(s);
}

/// What grouping a sorted, valid sequence produces: non-empty buckets, one
/// per occurring day, days strictly ascending with zeroed times, and each
/// bucket exactly the filter of the input by its day.
pub proof fn lemma_group_props(s: Seq<TimestampedFile>)
    requires
        sorted_by_ts(s),
        forall|i: int| 0 <= i < s.len() ==> (#[trigger] s[i]).timestamp.valid(),
    ensures
        forall|k: int|
            0 <= k < spec_group(s).len() ==> (#[trigger] spec_group(s)[k]).1.len() > 0,
        forall|k: int|
            0 <= k < spec_group(s).len() ==> {
                let d = (#[trigger] spec_group(s)[k]).0;
                d.valid() && d.hour == 0 && d.minute == 0 && d.second == 0
            },
        forall|k1: int, k2: int|
            0 <= k1 < k2 < spec_group(s).len() ==> (#[trigger] spec_group(s)[k1]).0.day_val() < (
            #[trigger] spec_group(s)[k2]).0.day_val(),
        forall|k: int|
            0 <= k < spec_group(s).len() ==> (#[trigger] spec_group(s)[k]).1 == s.filter(
                |f: TimestampedFile| day_of_file(f) == spec_group(s)[k].0,
            ),
        s.len() > 0 ==> spec_group(s).len() > 0 && spec_group(s).last().0 == day_of_file(s.last()),
    decreases s.len(),
{
    reveal(Seq::filter);
    if s.len() == 0 {
    } else {
        let dl = s.drop_last();
        let x = s.last();
        let d = day_of_file(x);
        assert(sorted_by_ts(dl));
        lemma_group_props(dl);
        let rest = spec_group(dl);
        let g = spec_group(s);
        assert(s =~= dl.push(x));
        // Every earlier file sits on a day no later than the day of `x`.
        assert forall|i: int| 0 <= i < dl.len() implies (#[trigger] dl[i]).timestamp.day_val()
            <= x.timestamp.day_val() by {
            assert(ts_key(s[i]) <= ts_key(s[s.len() - 1]));
            if dl[i].timestamp.day_val() > x.timestamp.day_val() {
                lemma_day_lt_ord_lt(x.timestamp, dl[i].timestamp);
            }
        }
        if rest.len() > 0 && rest.last().0 == d {
            let files = rest.last().1.push(x);
            assert(g == rest.update(rest.len() - 1, (d, files)));
            assert(g.len() == rest.len());
            assert(g.last().0 == d);
            assert forall|k: int| 0 <= k < g.len() implies (#[trigger] g[k]).1 == s.filter(
                |f: TimestampedFile| day_of_file(f) == g[k].0,
            ) by {
                let p = |f: TimestampedFile| day_of_file(f) == g[k].0;
                lemma_filter_push(dl, p, x);
                if k < g.len() - 1 {
                    assert(g[k] == rest[k]);
                    assert(rest[k].0.day_val() < rest.last().0.day_val());
                    assert(!p(x)) by {
                        if day_of_file(x) == g[k].0 {
                            assert(g[k].0.day_val() == d.day_val());
                        }
                    }
                    assert(s.filter(p) == dl.filter(p));
                } else {
                    assert(g[k].0 == d);
                    assert(p(x));
                    assert(rest.last().1 == dl.filter(p));
                    assert(s.filter(p) == dl.filter(p).push(x));
                }
            }
        } else {
            assert(g == rest.push((d, seq![x])));
            assert(g.last().0 == d);
            // The new day lies strictly after every day already bucketed.
            if rest.len() > 0 {
                assert(rest.last().0 == day_of_file(dl.last()));
                assert(rest.last().0.day_val() == dl.last().timestamp.day_val());
                assert(rest.last().0.day_val() <= d.day_val());
                assert(rest.last().0.day_val() != d.day_val()) by {
                    if rest.last().0.day_val() == d.day_val() {
                        lemma_day_val_same_day(rest.last().0, d);
                        assert(rest.last().0 == d);
                    }
                }
            }
            assert forall|k1: int, k2: int| 0 <= k1 < k2 < g.len() implies (
            #[trigger] g[k1]).0.day_val() < (#[trigger] g[k2]).0.day_val() by {
                if k2 == g.len() - 1 {
                    assert(g[k1] == rest[k1]);
                    if k1 < rest.len() - 1 {
                        assert(rest[k1].0.day_val() < rest.last().0.day_val());
                    }
                }
            }
            assert forall|k: int| 0 <= k < g.len() implies (#[trigger] g[k]).1 == s.filter(
                |f: TimestampedFile| day_of_file(f) == g[k].0,
            ) by {
                let p = |f: TimestampedFile| day_of_file(f) == g[k].0;
                lemma_filter_push(dl, p, x);
                if k < g.len() - 1 {
                    assert(g[k] == rest[k]);
                    assert(rest[k].0.day_val() < d.day_val());
                    assert(!p(x)) by {
                        if day_of_file(x) == g[k].0 {
                            assert(g[k].0.day_val() == d.day_val());
                        }
                    }
                    assert(s.filter(p) == dl.filter(p));
                } else {
                    assert(g[k].0 == d);
                    assert(p(x));
                    assert forall|i: int| 0 <= i < dl.len() implies !p(#[trigger] dl[i]) by {
                        if day_of_file(dl[i]) == d {
                            assert(dl[i].timestamp.day_val() == d.day_val());
                            assert(rest.len() > 0);
                            assert(dl[i].timestamp.day_val() <= dl.last().timestamp.day_val()) by {
                                assert(ts_key(dl[i]) <= ts_key(dl[dl.len() - 1]));
                                if dl[i].timestamp.day_val() > dl.last().timestamp.day_val() {
                                    lemma_day_lt_ord_lt(dl.last().timestamp, dl[i].timestamp);
                                }
                            }
                        }
                    }
                    lemma_filter_none(dl, p);
                    assert(s.filter(p) == dl.filter(p).push(x));
                    assert(Seq::<TimestampedFile>::empty().push(x) =~= seq![x]);
                }
            }
        }
    }
}

/// The floor of a timestamp: the same calendar day at 00:00:00.
pub fn floor_to_day(t: &Timestamp) -> (r: Timestamp)
    ensures
        r == spec_floor_to_day(*t),
{
    Timestamp { hour: 0, minute: 0, second: 0, ..*t }
}

/// Keep the files whose calendar day lies strictly before the day of
/// `timestamp`. The day of the reference instant itself is never kept: it
/// may still receive uploads.
pub fn images_before_day_of(images: Vec<TimestampedFile>, timestamp: Timestamp) -> (r: Vec<
    TimestampedFile,
>)
    requires
        timestamp.valid(),
        forall|i: int| 0 <= i < images@.len() ==> (#[trigger] images@[i]).timestamp.valid(),
    ensures
        r@ == images@.filter(
            |f: TimestampedFile| f.timestamp.day_val() < timestamp.day_val(),
        ),
        forall|i: int|
            0 <= i < r@.len() ==> (#[trigger] r@[i]).timestamp.day_val() < timestamp.day_val(),
        forall|i: int| 0 <= i < r@.len() ==> (#[trigger] r@[i]).timestamp.valid(),
        sorted_by_ts(images@) ==> sorted_by_ts(r@),
{
    let bound = day_value(&timestamp);
    let mut r: Vec<TimestampedFile> = Vec::new();
    let mut i: usize = 0;
    proof {
        assert(images@.take(0) =~= Seq::<TimestampedFile>::empty());
        reveal(Seq::filter);
    }
    while i < images.len()
        invariant
            i <= images@.len(),
            bound == timestamp.day_val(),
            timestamp.valid(),
            forall|k: int| 0 <= k < images@.len() ==> (#[trigger] images@[k]).timestamp.valid(),
            r@ == images@.take(i as int).filter(
                |f: TimestampedFile| f.timestamp.day_val() < timestamp.day_val(),
            ),
        decreases images@.len() - i,
    {
        proof {
            crate::seqs::lemma_take_push(images@, i as int);
            lemma_filter_push(
                images@.take(i as int),
                |f: TimestampedFile| f.timestamp.day_val() < timestamp.day_val(),
                images@[i as int],
            );
        }
        let f = &images[i];
        if day_value(&f.timestamp) < bound {
            r.push(f.clone());
        }
        i = i + 1;
    }
    proof {
        assert(images@.take(images@.len() as int) =~= images@);
        crate::seqs::lemma_filter_all(
            images@,
            |f: TimestampedFile| f.timestamp.day_val() < timestamp.day_val(),
            |f: TimestampedFile| f.timestamp.valid(),
        );
        broadcast use Seq::lemma_filter_pred;

        if sorted_by_ts(images@) {
            lemma_filter_sorted(
                images@,
                |f: TimestampedFile| f.timestamp.day_val() < timestamp.day_val(),
            );
        }
    }
    r
}

/// Partition sorted, valid candidates into one bucket per calendar day,
/// ascending by day, each bucket holding exactly that day's files in their
/// sorted order.
pub fn group_by_day(images: Vec<TimestampedFile>) -> (groups: Vec<DayBucket>)
    requires
        sorted_by_ts(images@),
        forall|i: int| 0 <= i < images@.len() ==> (#[trigger] images@[i]).timestamp.valid(),
    ensures
        buckets_view(groups@) == spec_group(images@),
        forall|k: int| 0 <= k < groups@.len() ==> (#[trigger] groups@[k]).files@.len() > 0,
        forall|k: int|
            0 <= k < groups@.len() ==> {
                let d = (#[trigger] groups@[k]).day;
                d.valid() && d.hour == 0 && d.minute == 0 && d.second == 0
            },
        forall|k1: int, k2: int|
            0 <= k1 < k2 < groups@.len() ==> (#[trigger] groups@[k1]).day.day_val() < (
            #[trigger] groups@[k2]).day.day_val(),
        forall|k: int|
            0 <= k < groups@.len() ==> (#[trigger] groups@[k]).files@ == images@.filter(
                |f: TimestampedFile| day_of_file(f) == groups@[k].day,
            ),
        forall|k: int| 0 <= k < groups@.len() ==> sorted_by_ts((#[trigger] groups@[k]).files@),
        forall|k: int, i: int|
            0 <= k < groups@.len() && 0 <= i < groups@[k].files@.len() ==> (#[trigger] groups@[k]
                .files@[i]).timestamp.valid(),
{
    let mut groups: Vec<DayBucket> = Vec::new();
    let mut i: usize = 0;
    proof {
        assert(images@.take(0) =~= Seq::<TimestampedFile>::empty());
        assert(buckets_view(Seq::<DayBucket>::empty()) =~= Seq::<
            (Timestamp, Seq<TimestampedFile>),
        >::empty());
    }
    while i < images.len()
        invariant
            i <= images@.len(),
            sorted_by_ts(images@),
            forall|k: int| 0 <= k < images@.len() ==> (#[trigger] images@[k]).timestamp.valid(),
            buckets_view(groups@) == spec_group(images@.take(i as int)),
        decreases images@.len() - i,
    {
        let ghost pre = groups@;
        let ghost rest = spec_group(images@.take(i as int));
        proof {
            let q = images@.take(i + 1);
            assert(q.drop_last() =~= images@.take(i as int));
            assert(q.last() == images@[i as int]);
        }
        let x = images[i].clone();
        let d = floor_to_day(&x.timestamp);
        let n = groups.len();
        let mut joined: bool = false;
        if n > 0 {
            if groups[n - 1].day == d {
                joined = true;
            }
        }
        if joined {
            proof {
                assert(rest.last().0 == d);
            }
            if let Some(mut b) = groups.pop() {
                b.files.push(x);
                groups.push(b);
                proof {
                    let v = (d, rest.last().1.push(images@[i as int]));
                    assert(groups@ == pre.drop_last().push(b));
                    assert((b.day, b.files@) == v);
                    lemma_map_push(pre.drop_last(), |bb: DayBucket| (bb.day, bb.files@), b);
                    assert(buckets_view(pre.drop_last()) =~= buckets_view(pre).drop_last());
                    assert(rest.update(rest.len() - 1, v) =~= buckets_view(pre).drop_last().push(
                        v,
                    ));
                }
            }
        } else {
            let mut files: Vec<TimestampedFile> = Vec::new();
            files.push(x);
            let b = DayBucket { day: d, files };
            groups.push(b);
            proof {
                assert(b.files@ =~= seq![images@[i as int]]);
                lemma_map_push(pre, |bb: DayBucket| (bb.day, bb.files@), b);
            }
        }
        i = i + 1;
    }
    proof {
        assert(images@.take(images@.len() as int) =~= images@);
        lemma_group_props(images@);
        assert forall|k: int| 0 <= k < groups@.len() implies {
            let b = #[trigger] groups@[k];
            &&& b.files@.len() > 0
            &&& b.day.valid()
            &&& b.day.hour == 0
            &&& b.day.minute == 0
            &&& b.day.second == 0
        } by {
            assert(buckets_view(groups@)[k] == spec_group(images@)[k]);
            assert(groups@[k].files@ == buckets_view(groups@)[k].1);
            assert(groups@[k].day == buckets_view(groups@)[k].0);
        }
        assert forall|k1: int, k2: int| 0 <= k1 < k2 < groups@.len() implies (
        #[trigger] groups@[k1]).day.day_val() < (#[trigger] groups@[k2]).day.day_val() by {
            assert(groups@[k1].day == buckets_view(groups@)[k1].0);
            assert(groups@[k2].day == buckets_view(groups@)[k2].0);
        }
        assert forall|k: int| 0 <= k < groups@.len() implies sorted_by_ts(
            (#[trigger] groups@[k]).files@,
        ) && (forall|j: int|
            0 <= j < groups@[k].files@.len() ==> (#[trigger] groups@[k].files@[j]).timestamp.valid())
            by {
            assert(groups@[k].files@ == buckets_view(groups@)[k].1);
            let p = |f: TimestampedFile| day_of_file(f) == spec_group(images@)[k].0;
            assert(groups@[k].files@ == images@.filter(p));
            lemma_filter_sorted(images@, p);
            crate::seqs::lemma_filter_all(
                images@,
                p,
                |f: TimestampedFile| f.timestamp.valid(),
            );
        }
        assert forall|k: int| 0 <= k < groups@.len() implies (#[trigger] groups@[k]).files@
            == images@.filter(|f: TimestampedFile| day_of_file(f) == groups@[k].day) by {
            assert(groups@[k].day == buckets_view(groups@)[k].0);
            assert(groups@[k].files@ == buckets_view(groups@)[k].1);
        }
    }
    groups
}

} // verus!
