//! One scheduler pass: plan the day clips, decide after each encode, and
//! plan and account the archiving.
//!
//! A pass takes the scanned candidates and the current time, sorts the
//! candidates, keeps the completed days, and buckets them — [`spec_plan`] is
//! that pipeline as one spec function. After the encoder ran for a day, the
//! decision is: archive that day's images on success, leave every one of
//! them in place on failure. The lemmas at the end state the two guarantees
//! the design leans on: a failed day's bucket is planned again, unchanged,
//! by any later pass that still finds its files; and re-applying a move
//! whose source is already gone changes nothing.

use vstd::prelude::*;

use crate::files::{last_component_of, spec_last_component, TimestampedFile};
use crate::grouping::{
    buckets_view, day_of_file, group_by_day, images_before_day_of, lemma_flatten_index,
    lemma_group_flatten, lemma_group_props, flatten_groups, spec_floor_to_day, spec_group,
    DayBucket,
};
use crate::naming::{join_path, spec_video_name, video_file_name};
use crate::seqs::{
    lemma_filter_all, lemma_filter_compose, lemma_filter_equiv, lemma_filter_none,
    lemma_filter_nonempty_exists, lemma_take_push,
};
use crate::sorting::{
    lemma_filter_sorted, lemma_sort_all, lemma_sort_filter, lemma_sort_of_sorted_id,
    lemma_sort_sorted, sort_files_by_timestamp, sorted_by_ts, spec_sort, ts_key,
};
use crate::timestamp::Timestamp;

verus! {

/// The day buckets one pass works through: the sorted candidates, cut to
/// the days strictly before the day of `now`, partitioned per day.
pub open spec fn spec_plan(c: Seq<TimestampedFile>, now: Timestamp) -> Seq<
    (Timestamp, Seq<TimestampedFile>),
> {
    spec_group(
        spec_sort(c).filter(|f: TimestampedFile| f.timestamp.day_val() < now.day_val()),
    )
}

/// Plan one pass: sort the candidates, keep the files of completed days,
/// and bucket them per day, ascending. No bucket is ever planned for the
/// day of `now` or later.
pub fn plan_day_jobs(candidates: Vec<TimestampedFile>, now: Timestamp) -> (jobs: Vec<DayBucket>)
    requires
        now.valid(),
        forall|i: int| 0 <= i < candidates@.len() ==> (#[trigger] candidates@[i]).timestamp.valid(),
    ensures
        buckets_view(jobs@) == spec_plan(candidates@, now),
        forall|k: int| 0 <= k < jobs@.len() ==> (#[trigger] jobs@[k]).files@.len() > 0,
        forall|k: int|
            0 <= k < jobs@.len() ==> {
                let d = (#[trigger] jobs@[k]).day;
                d.valid() && d.hour == 0 && d.minute == 0 && d.second == 0
            },
        forall|k1: int, k2: int|
            0 <= k1 < k2 < jobs@.len() ==> (#[trigger] jobs@[k1]).day.day_val() < (
            #[trigger] jobs@[k2]).day.day_val(),
        forall|k: int|
            0 <= k < jobs@.len() ==> (#[trigger] jobs@[k]).day.day_val() < now.day_val(),
        forall|k: int|
            0 <= k < jobs@.len() ==> crate::sorting::sorted_by_ts((#[trigger] jobs@[k]).files@),
        forall|k: int, i: int|
            0 <= k < jobs@.len() && 0 <= i < jobs@[k].files@.len() ==> (#[trigger] jobs@[k]
                .files@[i]).timestamp.valid(),
{
    let mut c = candidates;
    sort_files_by_timestamp(&mut c);
    let before = images_before_day_of(c, now);
    let ghost bseq = before@;
    let jobs = group_by_day(before);
    proof {
        assert forall|k: int| 0 <= k < jobs@.len() implies (#[trigger] jobs@[k]).day.day_val()
            < now.day_val() by {
            let p = |f: TimestampedFile| day_of_file(f) == jobs@[k].day;
            assert(jobs@[k].files@ == bseq.filter(p));
            lemma_filter_all(
                bseq,
                p,
                |f: TimestampedFile| f.timestamp.day_val() < now.day_val(),
            );
            broadcast use Seq::lemma_filter_pred;

            let first = jobs@[k].files@[0];
            assert(p(first));
            assert(first.timestamp.day_val() < now.day_val());
        }
    }
    jobs
}

/// One source-to-destination move of an archived image.
#[derive(Debug)]
pub struct MoveOp {
    pub src: String,
    pub dst: String,
}

impl Clone for MoveOp {
    fn clone(&self) -> (r: Self)
        ensures
            r == *self,
    {
        MoveOp { src: self.src.clone(), dst: self.dst.clone() }
    }
}

/// The moves that archive a day's images: each file goes into the
/// processed folder under its own base name, in bucket order.
pub fn archive_moves(images: &Vec<TimestampedFile>, processed_folder: &str) -> (r: Vec<MoveOp>)
    ensures
        r@.len() == images@.len(),
        forall|i: int|
            0 <= i < r@.len() ==> (#[trigger] r@[i]).src == images@[i].file && r@[i].dst@
                == processed_folder@ + seq!['/'] + spec_last_component(images@[i].file@),
{
    let mut r: Vec<MoveOp> = Vec::new();
    let mut i: usize = 0;
    while i < images.len()
        invariant
            i <= images@.len(),
            r@.len() == i,
            forall|k: int|
                0 <= k < i ==> (#[trigger] r@[k]).src == images@[k].file && r@[k].dst@
                    == processed_folder@ + seq!['/'] + spec_last_component(images@[k].file@),
        decreases images@.len() - i,
    {
        let name = last_component_of(images[i].file.as_str());
        let dst = join_path(processed_folder, name.as_str());
        r.push(MoveOp { src: images[i].file.clone(), dst });
        i = i + 1;
    }
    r
}

/// The full path of a day's output clip inside the output folder.
pub fn output_video_path(output_folder: &str, day: &Timestamp) -> (r: String)
    requires
        day.valid_date(),
    ensures
        r@ == output_folder@ + seq!['/'] + spec_video_name(*day),
{
    let name = video_file_name(day);
    join_path(output_folder, name.as_str())
}

/// The decision after the encoder finished one day: archive the day's
/// images exactly when the encoder succeeded; on failure every image stays
/// where it is, so a later pass can retry the day.
pub fn after_encode(job: &DayBucket, encode_ok: bool, processed_folder: &str) -> (r: Option<
    Vec<MoveOp>,
>)
    ensures
        r is Some <==> encode_ok,
        match r {
            Some(m) => m@.len() == job.files@.len() && forall|i: int|
                0 <= i < m@.len() ==> (#[trigger] m@[i]).src == job.files@[i].file && m@[i].dst@
                    == processed_folder@ + seq!['/'] + spec_last_component(job.files@[i].file@),
            None => true,
        },
{
    if encode_ok {
        Some(archive_moves(&job.files, processed_folder))
    } else {
        None
    }
}

/// The elements whose flag has the wanted value, in order.
pub open spec fn select_flagged(s: Seq<MoveOp>, flags: Seq<bool>, want: bool) -> Seq<MoveOp>
    decreases s.len(),
{
    if s.len() == 0 {
        Seq::empty()
    } else {
        let rest = select_flagged(s.drop_last(), flags.drop_last(), want);
        if flags.last() == want {
            rest.push(s.last())
        } else {
            rest
        }
    }
}

/// What one archiving attempt did, move by move.
#[derive(Debug)]
pub struct ArchiveReport {
    /// The moves whose rename went through.
    pub moved: Vec<MoveOp>,
    /// The moves that failed; their sources are still in place.
    pub failed: Vec<MoveOp>,
}

/// Sort an archiving attempt's outcomes into the moves that went through
/// and the moves that failed, each list in the attempt's order, so the
/// caller can see exactly which files still wait in the unprocessed folder.
pub fn archive_report(moves: &Vec<MoveOp>, renamed_ok: &Vec<bool>) -> (r: ArchiveReport)
    requires
        moves@.len() == renamed_ok@.len(),
    ensures
        r.moved@ == select_flagged(moves@, renamed_ok@, true),
        r.failed@ == select_flagged(moves@, renamed_ok@, false),
        r.moved@.len() + r.failed@.len() == moves@.len(),
{
    let mut moved: Vec<MoveOp> = Vec::new();
    let mut failed: Vec<MoveOp> = Vec::new();
    let mut i: usize = 0;
    proof {
        assert(moves@.take(0) =~= Seq::<MoveOp>::empty());
        assert(renamed_ok@.take(0) =~= Seq::<bool>::empty());
    }
    while i < moves.len()
        invariant
            i <= moves@.len(),
            moves@.len() == renamed_ok@.len(),
            moved@ == select_flagged(moves@.take(i as int), renamed_ok@.take(i as int), true),
            failed@ == select_flagged(moves@.take(i as int), renamed_ok@.take(i as int), false),
            moved@.len() + failed@.len() == i,
        decreases moves@.len() - i,
    {
        proof {
            lemma_take_push(moves@, i as int);
            lemma_take_push(renamed_ok@, i as int);
            let qm = moves@.take(i + 1);
            let qf = renamed_ok@.take(i + 1);
            assert(qm.drop_last() =~= moves@.take(i as int));
            assert(qf.drop_last() =~= renamed_ok@.take(i as int));
            assert(qm.last() == moves@[i as int]);
            assert(qf.last() == renamed_ok@[i as int]);
        }
        if renamed_ok[i] {
            moved.push(moves[i].clone());
        } else {
            failed.push(moves[i].clone());
        }
        i = i + 1;
    }
    proof {
        assert(moves@.take(moves@.len() as int) =~= moves@);
        assert(renamed_ok@.take(renamed_ok@.len() as int) =~= renamed_ok@);
    }
    ArchiveReport { moved, failed }
}

/// One move applied to the model of the two folders, each a set of paths:
/// if the source is still unprocessed it moves, else nothing changes.
pub open spec fn apply_move(
    unprocessed: Set<Seq<char>>,
    processed: Set<Seq<char>>,
    src: Seq<char>,
    dst: Seq<char>,
) -> (Set<Seq<char>>, Set<Seq<char>>) {
    if unprocessed.contains(src) {
        (unprocessed.remove(src), processed.insert(dst))
    } else {
        (unprocessed, processed)
    }
}

/// Archiving is safe to re-run: applying the same move a second time — the
/// source already moved away — changes neither folder. Nothing is lost and
/// nothing is duplicated.
pub proof fn lemma_archive_rerun_safe(
    unprocessed: Set<Seq<char>>,
    processed: Set<Seq<char>>,
    src: Seq<char>,
    dst: Seq<char>,
)
    ensures
        ({
            let once = apply_move(unprocessed, processed, src, dst);
            apply_move(once.0, once.1, src, dst) == once
        }),
{
    let once = apply_move(unprocessed, processed, src, dst);
    if unprocessed.contains(src) {
        assert(!once.0.contains(src));
        if once.1.contains(dst) {
            assert(once.1.insert(dst) =~= once.1);
        }
    }
}

/// The plan has a bucket for a day exactly built from that day's files:
/// whenever `d` is a completed day with files among the candidates, some
/// planned bucket is keyed `d` and holds the stable-sorted files of day `d`.
pub proof fn lemma_plan_has_day(c: Seq<TimestampedFile>, now: Timestamp, d: Timestamp)
    requires
        now.valid(),
        forall|i: int| 0 <= i < c.len() ==> (#[trigger] c[i]).timestamp.valid(),
        d.day_val() < now.day_val(),
        c.filter(|f: TimestampedFile| day_of_file(f) == d).len() > 0,
    ensures
        exists|k: int|
            0 <= k < spec_plan(c, now).len() && #[trigger] spec_plan(c, now)[k] == (
                d,
                spec_sort(c.filter(|f: TimestampedFile| day_of_file(f) == d)),
            ),
{
    let pd = |f: TimestampedFile| day_of_file(f) == d;
    let plt = |f: TimestampedFile| f.timestamp.day_val() < now.day_val();
    let sorted = spec_sort(c);
    lemma_sort_sorted(c);
    lemma_sort_all(c, |f: TimestampedFile| f.timestamp.valid());
    let before = sorted.filter(plt);
    lemma_filter_sorted(sorted, plt);
    lemma_filter_all(sorted, plt, |f: TimestampedFile| f.timestamp.valid());
    // The day-d files of the cut-down list are the day-d files overall.
    lemma_filter_compose(sorted, plt, pd);
    lemma_filter_equiv(sorted, |f: TimestampedFile| plt(f) && pd(f), pd);
    assert(before.filter(pd) == sorted.filter(pd));
    lemma_sort_filter(c, pd);
    assert(before.filter(pd) == spec_sort(c.filter(pd)));
    lemma_sort_sorted(c.filter(pd));
    assert(before.filter(pd).len() > 0);
    let g = spec_group(before);
    lemma_group_props(before);
    lemma_group_flatten(before);
    // A file of day d exists in the cut-down list; find its bucket.
    lemma_filter_nonempty_exists(before, pd);
    let j = choose|j: int| 0 <= j < before.len() && pd(#[trigger] before[j]);
    lemma_flatten_index(g, j);
    let (k, jj) = choose|k: int, jj: int|
        0 <= k < g.len() && 0 <= jj < g[k].1.len() && #[trigger] g[k].1[jj] == flatten_groups(g)[j];
    broadcast use Seq::lemma_filter_pred;

    let pk = |f: TimestampedFile| day_of_file(f) == g[k].0;
    assert(g[k].1 == before.filter(pk));
    assert(pk(g[k].1[jj]));
    assert(g[k].0 == d);
    lemma_filter_equiv(before, pk, pd);
    assert(g[k].1 == spec_sort(c.filter(pd)));
    assert(g[k] == (d, spec_sort(c.filter(pd))));
    assert(spec_plan(c, now)[k] == (d, spec_sort(c.filter(pd))));
}

/// An encode failure leaves its day's images un-archived, and that is
/// enough for a retry: any later pass whose candidates still hold exactly
/// the same files of that day plans the same bucket for it again.
pub proof fn lemma_encode_failure_retry(
    c1: Seq<TimestampedFile>,
    now1: Timestamp,
    c2: Seq<TimestampedFile>,
    now2: Timestamp,
    d: Timestamp,
)
    requires
        now1.valid(),
        now2.valid(),
        forall|i: int| 0 <= i < c1.len() ==> (#[trigger] c1[i]).timestamp.valid(),
        forall|i: int| 0 <= i < c2.len() ==> (#[trigger] c2[i]).timestamp.valid(),
        d.day_val() < now1.day_val(),
        now1.day_val() <= now2.day_val(),
        c1.filter(|f: TimestampedFile| day_of_file(f) == d).len() > 0,
        c2.filter(|f: TimestampedFile| day_of_file(f) == d) == c1.filter(
            |f: TimestampedFile| day_of_file(f) == d,
        ),
    ensures
        exists|k: int|
            0 <= k < spec_plan(c1, now1).len() && #[trigger] spec_plan(c1, now1)[k] == (
                d,
                spec_sort(c1.filter(|f: TimestampedFile| day_of_file(f) == d)),
            ),
        exists|k: int|
            0 <= k < spec_plan(c2, now2).len() && #[trigger] spec_plan(c2, now2)[k] == (
                d,
                spec_sort(c1.filter(|f: TimestampedFile| day_of_file(f) == d)),
            ),
{
    lemma_plan_has_day(c1, now1, d);
    lemma_plan_has_day(c2, now2, d);
}

/// Stability reaches the buckets: inside any planned bucket, the files
/// carrying one fixed timestamp stand exactly as they stand among the
/// candidates — the same files in the same relative order — and a
/// timestamp of any other day contributes nothing to the bucket.
pub proof fn lemma_bucket_stable(c: Seq<TimestampedFile>, now: Timestamp, k: int, t: Timestamp)
    requires
        now.valid(),
        forall|i: int| 0 <= i < c.len() ==> (#[trigger] c[i]).timestamp.valid(),
        0 <= k < spec_plan(c, now).len(),
    ensures
        spec_floor_to_day(t) == spec_plan(c, now)[k].0 ==> spec_plan(c, now)[k].1.filter(
            |f: TimestampedFile| f.timestamp == t,
        ) == c.filter(|f: TimestampedFile| f.timestamp == t),
        spec_floor_to_day(t) != spec_plan(c, now)[k].0 ==> spec_plan(c, now)[k].1.filter(
            |f: TimestampedFile| f.timestamp == t,
        ) == Seq::<TimestampedFile>::empty(),
{
    let pt = |f: TimestampedFile| f.timestamp == t;
    let plt = |f: TimestampedFile| f.timestamp.day_val() < now.day_val();
    let sorted = spec_sort(c);
    lemma_sort_sorted(c);
    lemma_sort_all(c, |f: TimestampedFile| f.timestamp.valid());
    let before = sorted.filter(plt);
    lemma_filter_sorted(sorted, plt);
    lemma_filter_all(sorted, plt, |f: TimestampedFile| f.timestamp.valid());
    let g = spec_group(before);
    lemma_group_props(before);
    let d = g[k].0;
    let pk = |f: TimestampedFile| day_of_file(f) == d;
    lemma_filter_equiv(before, |f: TimestampedFile| day_of_file(f) == spec_group(before)[k].0, pk);
    assert(g[k].1 == before.filter(pk));
    lemma_filter_compose(before, pk, pt);
    assert(g[k].1.filter(pt) == before.filter(|f: TimestampedFile| pk(f) && pt(f)));
    // The bucket's day lies strictly before the day of `now`.
    broadcast use Seq::lemma_filter_pred;

    assert(g[k].1.len() > 0);
    let first = g[k].1[0];
    assert(pk(first));
    assert(plt(first)) by {
        lemma_filter_all(before, pk, plt);
    }
    assert(d.day_val() < now.day_val());
    if spec_floor_to_day(t) == d {
        // Inside the bucket, the day test is subsumed by the timestamp test,
        lemma_filter_equiv(before, |f: TimestampedFile| pk(f) && pt(f), pt);
        assert(g[k].1.filter(pt) == before.filter(pt));
        // and so is the completed-days cut over the whole sorted list.
        lemma_filter_compose(sorted, plt, pt);
        lemma_filter_equiv(sorted, |f: TimestampedFile| plt(f) && pt(f), pt);
        assert(before.filter(pt) == sorted.filter(pt));
        // Sorting commutes with the timestamp filter, and equal-key files
        // are already sorted, so the sort changes nothing of them.
        lemma_sort_filter(c, pt);
        assert(sorted_by_ts(c.filter(pt))) by {
            assert(forall|i: int|
                0 <= i < c.filter(pt).len() ==> ts_key(#[trigger] c.filter(pt)[i])
                    == t.ord_val());
        }
        lemma_sort_of_sorted_id(c.filter(pt));
        assert(g[k].1.filter(pt) == c.filter(pt));
    } else {
        assert forall|i: int| 0 <= i < before.len() implies !(pk(#[trigger] before[i]) && pt(
            before[i],
        )) by {
            if pt(before[i]) {
                assert(day_of_file(before[i]) == spec_floor_to_day(t));
            }
        }
        lemma_filter_none(before, |f: TimestampedFile| pk(f) && pt(f));
    }
}

} // verus!
