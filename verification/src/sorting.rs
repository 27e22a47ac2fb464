//! Stable sorting of candidates by capture timestamp.
//!
//! The sort is specified functionally: [`spec_sort`] inserts each element,
//! left to right, after every already-placed element whose timestamp is not
//! later. That definition makes the sort stable by construction, and the
//! lemmas here turn it into the two properties callers care about: the
//! output is ascending by timestamp, and for every fixed timestamp the files
//! carrying it keep exactly their input order.

use vstd::prelude::*;

use crate::files::TimestampedFile;
use crate::seqs::lemma_filter_push;
use crate::timestamp::ts_value;

verus! {

/// The sorting key of a candidate: the mixed-radix value of its timestamp.
pub open spec fn ts_key(f: TimestampedFile) -> int {
    f.timestamp.ord_val()
}

/// Ascending by timestamp, ties allowed.
pub open spec fn sorted_by_ts(s: Seq<TimestampedFile>) -> bool {
    forall|i: int, j: int| 0 <= i < j < s.len() ==> ts_key(s[i]) <= ts_key(s[j])
}

/// Insert `x` after every element of `s` whose key is at most `ts_key(x)`,
/// scanning from the end.
pub open spec fn spec_insert(s: Seq<TimestampedFile>, x: TimestampedFile) -> Seq<TimestampedFile>
    decreases s.len(),
{
    if s.len() == 0 {
        seq![x]
    } else if ts_key(s.last()) <= ts_key(x) {
        s.push(x)
    } else {
        spec_insert(s.drop_last(), x).push(s.last())
    }
}

/// Insertion sort, inserting the elements left to right: the stable sort
/// of `s` by timestamp.
pub open spec fn spec_sort(s: Seq<TimestampedFile>) -> Seq<TimestampedFile>
    decreases s.len(),
{
    if s.len() == 0 {
        s
    } else {
        spec_insert(spec_sort(s.drop_last()), s.last())
    }
}

/// A key bound on a sequence and on the inserted element bounds the
/// insertion too.
proof fn lemma_insert_key_le(s: Seq<TimestampedFile>, x: TimestampedFile, b: int)
    requires
        forall|i: int| 0 <= i < s.len() ==> ts_key(s[i]) <= b,
        ts_key(x) <= b,
    ensures
        spec_insert(s, x).len() == s.len() + 1,
        forall|i: int| 0 <= i < spec_insert(s, x).len() ==> ts_key(spec_insert(s, x)[i]) <= b,
    decreases s.len(),
{
    if s.len() == 0 {
    } else if ts_key(s.last()) <= ts_key(x) {
    } else {
        lemma_insert_key_le(s.drop_last(), x, b);
    }
}

/// A key bound survives filtering.
proof fn lemma_filter_key_le(s: Seq<TimestampedFile>, p: spec_fn(TimestampedFile) -> bool, b: int)
    requires
        forall|i: int| 0 <= i < s.len() ==> ts_key(s[i]) <= b,
    ensures
        forall|i: int| 0 <= i < s.filter(p).len() ==> ts_key(s.filter(p)[i]) <= b,
    decreases s.len(),
{
    reveal(Seq::filter);
    if s.len() > 0 {
        lemma_filter_key_le(s.drop_last(), p, b);
        let f = s.filter(p);
        let fdl = s.drop_last().filter(p);
        if p(s.last()) {
            assert(f == fdl.push(s.last()));
            assert forall|i: int| 0 <= i < f.len() implies ts_key(f[i]) <= b by {
                if i < f.len() - 1 {
                    assert(f[i] == fdl[i]);
                }
            }
        } else {
            assert(f == fdl);
        }
    }
}

/// A subsequence of a sorted sequence is sorted.
pub proof fn lemma_filter_sorted(s: Seq<TimestampedFile>, p: spec_fn(TimestampedFile) -> bool)
    requires
        sorted_by_ts(s),
    ensures
        sorted_by_ts(s.filter(p)),
    decreases s.len(),
{
    reveal(Seq::filter);
    if s.len() > 0 {
        let dl = s.drop_last();
        assert(sorted_by_ts(dl));
        lemma_filter_sorted(dl, p);
        let f = s.filter(p);
        let fdl = dl.filter(p);
        if p(s.last()) {
            assert(f == fdl.push(s.last()));
            assert(forall|i: int| 0 <= i < dl.len() ==> ts_key(dl[i]) <= ts_key(s.last()));
            lemma_filter_key_le(dl, p, ts_key(s.last()));
            assert forall|i: int, j: int| 0 <= i < j < f.len() implies ts_key(f[i]) <= ts_key(
                f[j],
            ) by {
                if j < f.len() - 1 {
                    assert(f[i] == fdl[i] && f[j] == fdl[j]);
                } else {
                    assert(f[i] == fdl[i]);
                }
            }
        } else {
            assert(f == fdl);
        }
    }
}

/// A pointwise fact about a sequence and the inserted element survives
/// insertion.
proof fn lemma_insert_all(
    s: Seq<TimestampedFile>,
    x: TimestampedFile,
    q: spec_fn(TimestampedFile) -> bool,
)
    requires
        forall|i: int| 0 <= i < s.len() ==> q(s[i]),
        q(x),
    ensures
        forall|i: int| 0 <= i < spec_insert(s, x).len() ==> q(spec_insert(s, x)[i]),
    decreases s.len(),
{
    let r = spec_insert(s, x);
    if s.len() == 0 {
        assert(r =~= seq![x]);
    } else if ts_key(s.last()) <= ts_key(x) {
        assert forall|i: int| 0 <= i < r.len() implies q(r[i]) by {
            if i < s.len() {
                assert(q(s[i]));
            }
        }
    } else {
        lemma_insert_all(s.drop_last(), x, q);
        let inner = spec_insert(s.drop_last(), x);
        assert forall|i: int| 0 <= i < r.len() implies q(r[i]) by {
            if i < inner.len() {
                assert(q(inner[i]));
            } else {
                assert(r[i] == s[s.len() - 1]);
                assert(q(s[s.len() - 1]));
            }
        }
    }
}

/// A pointwise fact about a sequence survives sorting it.
pub proof fn lemma_sort_all(s: Seq<TimestampedFile>, q: spec_fn(TimestampedFile) -> bool)
    requires
        forall|i: int| 0 <= i < s.len() ==> q(s[i]),
    ensures
        forall|i: int| 0 <= i < spec_sort(s).len() ==> q(spec_sort(s)[i]),
    decreases s.len(),
{
    if s.len() > 0 {
        lemma_sort_all(s.drop_last(), q);
        lemma_insert_all(spec_sort(s.drop_last()), s.last(), q);
    }
}

/// Inserting into a sorted sequence keeps it sorted and grows it by one.
pub proof fn lemma_insert_sorted(s: Seq<TimestampedFile>, x: TimestampedFile)
    requires
        sorted_by_ts(s),
    ensures
        sorted_by_ts(spec_insert(s, x)),
        spec_insert(s, x).len() == s.len() + 1,
    decreases s.len(),
{
    if s.len() == 0 {
    } else if ts_key(s.last()) <= ts_key(x) {
        let r = s.push(x);
        assert forall|i: int, j: int| 0 <= i < j < r.len() implies ts_key(r[i]) <= ts_key(
            r[j],
        ) by {
            if j == r.len() - 1 && i < s.len() - 1 {
                assert(ts_key(s[i]) <= ts_key(s[s.len() - 1]));
            }
        }
    } else {
        let dl = s.drop_last();
        assert(sorted_by_ts(dl));
        lemma_insert_sorted(dl, x);
        assert(forall|i: int| 0 <= i < dl.len() ==> ts_key(dl[i]) <= ts_key(s.last()));
        lemma_insert_key_le(dl, x, ts_key(s.last()));
        let q = spec_insert(dl, x);
        let r = q.push(s.last());
        assert forall|i: int, j: int| 0 <= i < j < r.len() implies ts_key(r[i]) <= ts_key(
            r[j],
        ) by {
            if j == r.len() - 1 {
                assert(ts_key(q[i]) <= ts_key(s.last()));
            }
        }
    }
}

/// The stable sort is sorted and keeps the length.
pub proof fn lemma_sort_sorted(s: Seq<TimestampedFile>)
    ensures
        sorted_by_ts(spec_sort(s)),
        spec_sort(s).len() == s.len(),
    decreases s.len(),
{
    if s.len() > 0 {
        lemma_sort_sorted(s.drop_last());
        lemma_insert_sorted(spec_sort(s.drop_last()), s.last());
    }
}

/// Sorting a sequence that is already sorted changes nothing.
pub proof fn lemma_sort_of_sorted_id(s: Seq<TimestampedFile>)
    requires
        sorted_by_ts(s),
    ensures
        spec_sort(s) == s,
    decreases s.len(),
{
    if s.len() > 0 {
        let dl = s.drop_last();
        assert(sorted_by_ts(dl));
        lemma_sort_of_sorted_id(dl);
        if dl.len() > 0 {
            assert(ts_key(dl.last()) <= ts_key(s.last()));
        }
        assert(spec_insert(dl, s.last()) =~= s);
    }
}

/// Filtering commutes with insertion into a sorted sequence.
proof fn lemma_insert_filter(
    s: Seq<TimestampedFile>,
    x: TimestampedFile,
    p: spec_fn(TimestampedFile) -> bool,
)
    requires
        sorted_by_ts(s),
    ensures
        spec_insert(s, x).filter(p) == if p(x) {
            spec_insert(s.filter(p), x)
        } else {
            s.filter(p)
        },
    decreases s.len(),
{
    reveal(Seq::filter);
    if s.len() == 0 {
        let one = seq![x];
        assert(one.drop_last() =~= Seq::<TimestampedFile>::empty());
        assert(Seq::<TimestampedFile>::empty().filter(p) == Seq::<TimestampedFile>::empty());
        assert(s.filter(p) == Seq::<TimestampedFile>::empty());
        if p(x) {
            assert(one.filter(p) == Seq::<TimestampedFile>::empty().filter(p).push(x));
            assert(Seq::<TimestampedFile>::empty().push(x) =~= one);
            assert(spec_insert(s.filter(p), x) == one);
        } else {
            assert(one.filter(p) == Seq::<TimestampedFile>::empty().filter(p));
        }
    } else {
        let dl = s.drop_last();
        let last = s.last();
        assert(s =~= dl.push(last));
        lemma_filter_push(dl, p, last);
        if ts_key(last) <= ts_key(x) {
            assert(spec_insert(s, x) == s.push(x));
            lemma_filter_push(s, p, x);
            if p(x) {
                assert(s.push(x).filter(p) == s.filter(p).push(x));
                assert forall|i: int| 0 <= i < s.len() implies ts_key(s[i]) <= ts_key(x) by {
                    if i < s.len() - 1 {
                        assert(ts_key(s[i]) <= ts_key(s[s.len() - 1]));
                    }
                }
                lemma_filter_key_le(s, p, ts_key(x));
                let fs = s.filter(p);
                if fs.len() == 0 {
                    assert(spec_insert(fs, x) == seq![x]);
                    assert(fs.push(x) =~= seq![x]);
                } else {
                    assert(ts_key(fs.last()) <= ts_key(x));
                    assert(spec_insert(fs, x) == fs.push(x));
                }
            }
        } else {
            assert(sorted_by_ts(dl));
            lemma_insert_filter(dl, x, p);
            let q = spec_insert(dl, x);
            assert(spec_insert(s, x) == q.push(last));
            lemma_filter_push(q, p, last);
            assert(s.filter(p) == if p(last) {
                dl.filter(p).push(last)
            } else {
                dl.filter(p)
            });
            if p(x) {
                assert(q.filter(p) == spec_insert(dl.filter(p), x));
                if p(last) {
                    assert(spec_insert(s, x).filter(p) == spec_insert(dl.filter(p), x).push(last));
                    let c = dl.filter(p).push(last);
                    assert(c.drop_last() =~= dl.filter(p));
                    assert(c.last() == last);
                    assert(spec_insert(c, x) == spec_insert(dl.filter(p), x).push(last));
                } else {
                    assert(spec_insert(s, x).filter(p) == spec_insert(dl.filter(p), x));
                    assert(spec_insert(s.filter(p), x) == spec_insert(dl.filter(p), x));
                }
            } else {
                assert(q.filter(p) == dl.filter(p));
                if p(last) {
                    assert(spec_insert(s, x).filter(p) == dl.filter(p).push(last));
                } else {
                    assert(spec_insert(s, x).filter(p) == dl.filter(p));
                }
            }
        }
    }
}

/// Filtering commutes with the stable sort.
pub proof fn lemma_sort_filter(s: Seq<TimestampedFile>, p: spec_fn(TimestampedFile) -> bool)
    ensures
        spec_sort(s).filter(p) == spec_sort(s.filter(p)),
    decreases s.len(),
{
    reveal(Seq::filter);
    if s.len() == 0 {
    } else {
        let dl = s.drop_last();
        let last = s.last();
        assert(s =~= dl.push(last));
        lemma_sort_filter(dl, p);
        lemma_sort_sorted(dl);
        lemma_insert_filter(spec_sort(dl), last, p);
        lemma_filter_push(dl, p, last);
        if p(last) {
            assert(dl.filter(p).push(last).drop_last() =~= dl.filter(p));
            assert(spec_sort(dl.filter(p).push(last)) == spec_insert(
                spec_sort(dl.filter(p)),
                last,
            ));
        }
    }
}

/// Stability: for any fixed timestamp value, sorting keeps the files that
/// carry it in exactly their input order. Together with sortedness this
/// pins the sort down completely.
pub proof fn lemma_sort_stable(s: Seq<TimestampedFile>, t: int)
    ensures
        spec_sort(s).filter(|f: TimestampedFile| ts_key(f) == t) == s.filter(
            |f: TimestampedFile| ts_key(f) == t,
        ),
{
    let p = |f: TimestampedFile| ts_key(f) == t;
    lemma_sort_filter(s, p);
    broadcast use Seq::lemma_filter_pred;

    assert(sorted_by_ts(s.filter(p)));
    lemma_sort_of_sorted_id(s.filter(p));
}

/// The position an element takes when inserted: before the suffix of
/// strictly later elements.
proof fn lemma_spec_insert_at(s: Seq<TimestampedFile>, x: TimestampedFile, j: int)
    requires
        0 <= j <= s.len(),
        forall|k: int| j <= k < s.len() ==> ts_key(s[k]) > ts_key(x),
        j > 0 ==> ts_key(s[j - 1]) <= ts_key(x),
    ensures
        spec_insert(s, x) == s.insert(j, x),
    decreases s.len(),
{
    if j == s.len() {
        if s.len() == 0 {
            assert(s.insert(0, x) =~= seq![x]);
        } else {
            assert(s.insert(j, x) =~= s.push(x));
        }
    } else {
        assert(ts_key(s.last()) > ts_key(x));
        let dl = s.drop_last();
        lemma_spec_insert_at(dl, x, j);
        assert(dl.insert(j, x).push(s.last()) =~= s.insert(j, x));
    }
}

/// Insert one candidate into an already sorted vector, keeping it sorted
/// and stable: the new file goes after every file that is not later.
fn insert_by_timestamp(v: &mut Vec<TimestampedFile>, x: TimestampedFile)
    requires
        forall|i: int| 0 <= i < old(v)@.len() ==> old(v)@[i].timestamp.valid(),
        x.timestamp.valid(),
    ensures
        final(v)@ == spec_insert(old(v)@, x),
        forall|i: int| 0 <= i < final(v)@.len() ==> final(v)@[i].timestamp.valid(),
{
    let key = ts_value(&x.timestamp);
    let mut j: usize = v.len();
    while j > 0 && ts_value(&v[j - 1].timestamp) > key
        invariant
            j <= v@.len(),
            v@ == old(v)@,
            forall|i: int| 0 <= i < v@.len() ==> v@[i].timestamp.valid(),
            x.timestamp.valid(),
            key == ts_key(x),
            forall|k: int| j <= k < v@.len() ==> ts_key(v@[k]) > ts_key(x),
        decreases j,
    {
        j = j - 1;
    }
    proof {
        lemma_spec_insert_at(v@, x, j as int);
    }
    v.insert(j, x);
}

/// Sort the candidates ascending by capture timestamp.
///
/// The sort is stable: files with equal timestamps keep their input order,
/// stated exactly by [`lemma_sort_stable`] about the [`spec_sort`] this
/// function returns.
pub fn sort_files_by_timestamp(files: &mut Vec<TimestampedFile>)
    requires
        forall|i: int| 0 <= i < old(files)@.len() ==> old(files)@[i].timestamp.valid(),
    ensures
        final(files)@ == spec_sort(old(files)@),
        sorted_by_ts(final(files)@),
        final(files)@.len() == old(files)@.len(),
        forall|i: int| 0 <= i < final(files)@.len() ==> final(files)@[i].timestamp.valid(),
{
    let ghost orig = files@;
    let mut out: Vec<TimestampedFile> = Vec::new();
    let mut i: usize = 0;
    proof {
        assert(orig.take(0) =~= Seq::<TimestampedFile>::empty());
    }
    while i < files.len()
        invariant
            i <= files@.len(),
            files@ == orig,
            forall|k: int| 0 <= k < orig.len() ==> orig[k].timestamp.valid(),
            out@ == spec_sort(orig.take(i as int)),
            forall|k: int| 0 <= k < out@.len() ==> out@[k].timestamp.valid(),
        decreases files@.len() - i,
    {
        proof {
            let q = orig.take(i + 1);
            assert(q.drop_last() =~= orig.take(i as int));
            assert(q.last() == orig[i as int]);
        }
        let x = files[i].clone();
        insert_by_timestamp(&mut out, x);
        i = i + 1;
    }
    proof {
        assert(orig.take(orig.len() as int) =~= orig);
        lemma_sort_sorted(orig);
    }
    *files = out;
}

} // verus!
