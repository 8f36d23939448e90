//! The run sorter: a stable sort of the pixels of one run by their key.

use vstd::prelude::*;
use crate::color::Rgb;
use crate::key::{key_of, SortMode};

verus! {

/// Whether the keys of `s` never decrease from one pixel to the next.
pub open spec fn sorted_by_key(s: Seq<Rgb>, mode: SortMode) -> bool {
    forall|i: int, j: int| 0 <= i <= j < s.len() ==> key_of(s[i], mode) <= key_of(s[j], mode)
}

/// The test for pixels whose key under `mode` is `k`.
pub open spec fn has_key(mode: SortMode, k: int) -> spec_fn(Rgb) -> bool {
    |p: Rgb| key_of(p, mode) == k
}

/// `s` with `x` put in behind the last pixel whose key is not above that
/// of `x`.
pub open spec fn insert_by_key(s: Seq<Rgb>, x: Rgb, mode: SortMode) -> Seq<Rgb>
    decreases s.len(),
{
    if s.len() == 0 || key_of(s.last(), mode) <= key_of(x, mode) {
        s.push(x)
    } else {
        insert_by_key(s.drop_last(), x, mode).push(s.last())
    }
}

/// The pixels of `s` in the order of their keys, pixels of equal key in the
/// order in which they stand in `s`.
pub open spec fn stable_sorted(s: Seq<Rgb>, mode: SortMode) -> Seq<Rgb>
    decreases s.len(),
{
    if s.len() == 0 {
        s
    } else {
        insert_by_key(stable_sorted(s.drop_last(), mode), s.last(), mode)
    }
}

/// Putting a pixel in makes the sequence one longer.
pub proof fn lemma_insert_len(s: Seq<Rgb>, x: Rgb, mode: SortMode)
    ensures
        insert_by_key(s, x, mode).len() == s.len() + 1,
    decreases s.len(),
{
    if !(s.len() == 0 || key_of(s.last(), mode) <= key_of(x, mode)) {
        lemma_insert_len(s.drop_last(), x, mode);
    }
}

/// Putting a pixel in adds it to the colours of the sequence, and nothing else.
pub proof fn lemma_insert_multiset(s: Seq<Rgb>, x: Rgb, mode: SortMode)
    ensures
        insert_by_key(s, x, mode).to_multiset() == s.to_multiset().insert(x),
    decreases s.len(),
{
    broadcast use vstd::seq_lib::to_multiset_build;

    if s.len() == 0 || key_of(s.last(), mode) <= key_of(x, mode) {
    } else {
        lemma_insert_multiset(s.drop_last(), x, mode);
        assert(s == s.drop_last().push(s.last()));
        assert(insert_by_key(s, x, mode).to_multiset() =~= s.to_multiset().insert(x));
    }
}

/// Putting a pixel into an ordered sequence leaves it ordered.
pub proof fn lemma_insert_sorted(s: Seq<Rgb>, x: Rgb, mode: SortMode)
    requires
        sorted_by_key(s, mode),
    ensures
        sorted_by_key(insert_by_key(s, x, mode), mode),
    decreases s.len(),
{
    if s.len() == 0 || key_of(s.last(), mode) <= key_of(x, mode) {
    } else {
        let front = s.drop_last();
        lemma_insert_sorted(front, x, mode);
        lemma_insert_len(front, x, mode);
        lemma_insert_multiset(front, x, mode);
        let r = insert_by_key(front, x, mode);
        let out = r.push(s.last());
        assert forall|i: int, j: int| 0 <= i <= j < out.len() implies key_of(out[i], mode)
            <= key_of(out[j], mode) by {
            if j == out.len() - 1 && i < j {
                // out[i] is a pixel of `front` or `x`
                broadcast use vstd::seq_lib::to_multiset_contains;

                assert(r.contains(r[i]));
                assert(r.to_multiset().count(r[i]) > 0);
                if r[i] != x {
                    assert(front.to_multiset().count(r[i]) > 0);
                    assert(front.contains(r[i]));
                    let t = choose|t: int| 0 <= t < front.len() && front[t] == r[i];
                    assert(s[t] == r[i]);
                }
            }
        }
    }
}

/// Putting a pixel in sets it behind the pixels of its own key, and leaves
/// the pixels of every other key as they stood.
pub proof fn lemma_insert_stable(s: Seq<Rgb>, x: Rgb, mode: SortMode, k: int)
    ensures
        insert_by_key(s, x, mode).filter(has_key(mode, k)) == if key_of(x, mode) == k {
            s.filter(has_key(mode, k)).push(x)
        } else {
            s.filter(has_key(mode, k))
        },
    decreases s.len(),
{
    broadcast use Seq::lemma_filter_push;

    if s.len() == 0 || key_of(s.last(), mode) <= key_of(x, mode) {
    } else {
        lemma_insert_stable(s.drop_last(), x, mode, k);
        assert(s == s.drop_last().push(s.last()));
    }
}

/// Sorting keeps the number of pixels.
pub proof fn lemma_sort_keeps_length(s: Seq<Rgb>, mode: SortMode)
    ensures
        stable_sorted(s, mode).len() == s.len(),
    decreases s.len(),
{
    if s.len() > 0 {
        lemma_sort_keeps_length(s.drop_last(), mode);
        lemma_insert_len(stable_sorted(s.drop_last(), mode), s.last(), mode);
    }
}

/// Sorting a run conserves its colours: the multiset of the pixels is the
/// same before and after, only their order changes.
pub proof fn lemma_sort_conserves_colors(s: Seq<Rgb>, mode: SortMode)
    ensures
        stable_sorted(s, mode).to_multiset() == s.to_multiset(),
    decreases s.len(),
{
    broadcast use vstd::seq_lib::to_multiset_build;

    if s.len() > 0 {
        lemma_sort_conserves_colors(s.drop_last(), mode);
        lemma_insert_multiset(stable_sorted(s.drop_last(), mode), s.last(), mode);
        assert(s == s.drop_last().push(s.last()));
    }
}

/// After sorting, the keys of a run never decrease in reading order.
pub proof fn lemma_sort_is_monotone(s: Seq<Rgb>, mode: SortMode)
    ensures
        sorted_by_key(stable_sorted(s, mode), mode),
    decreases s.len(),
{
    if s.len() > 0 {
        lemma_sort_is_monotone(s.drop_last(), mode);
        lemma_insert_sorted(stable_sorted(s.drop_last(), mode), s.last(), mode);
    }
}

/// Sorting is stable: for every key, the pixels of that key stand in the
/// same order after sorting as before.
pub proof fn lemma_sort_is_stable(s: Seq<Rgb>, mode: SortMode, k: int)
    ensures
        stable_sorted(s, mode).filter(has_key(mode, k)) == s.filter(has_key(mode, k)),
    decreases s.len(),
{
    broadcast use Seq::lemma_filter_push;

    if s.len() > 0 {
        lemma_sort_is_stable(s.drop_last(), mode, k);
        lemma_insert_stable(stable_sorted(s.drop_last(), mode), s.last(), mode, k);
        assert(s == s.drop_last().push(s.last()));
    }
}

/// Sorting a run that is already in order changes nothing.
pub proof fn lemma_sorted_run_is_fixed(s: Seq<Rgb>, mode: SortMode)
    requires
        sorted_by_key(s, mode),
    ensures
        stable_sorted(s, mode) == s,
    decreases s.len(),
{
    if s.len() > 0 {
        let front = s.drop_last();
        assert(sorted_by_key(front, mode)) by {
            assert forall|i: int, j: int| 0 <= i <= j < front.len() implies key_of(front[i], mode)
                <= key_of(front[j], mode) by {
                assert(front[i] == s[i] && front[j] == s[j]);
            }
        }
        lemma_sorted_run_is_fixed(front, mode);
        if front.len() > 0 {
            assert(front.last() == s[s.len() - 2]);
        }
        assert(s == front.push(s.last()));
    }
}

/// Sorting twice is sorting once.
pub proof fn lemma_sort_is_idempotent(s: Seq<Rgb>, mode: SortMode)
    ensures
        stable_sorted(stable_sorted(s, mode), mode) == stable_sorted(s, mode),
{
    lemma_sort_is_monotone(s, mode);
    lemma_sorted_run_is_fixed(stable_sorted(s, mode), mode);
}

/// Whether `r` is a stable sort of `s`: `r` is in the order of the keys, and
/// for every key the pixels of that key are the same, in the same order, in
/// `r` and in `s`.
pub open spec fn is_stable_sort_of(r: Seq<Rgb>, s: Seq<Rgb>, mode: SortMode) -> bool {
    &&& sorted_by_key(r, mode)
    &&& forall|k: int| #[trigger] r.filter(has_key(mode, k)) == s.filter(has_key(mode, k))
}

/// The sorted run is a stable sort of the run.
pub proof fn lemma_stable_sorted_is_stable_sort(s: Seq<Rgb>, mode: SortMode)
    ensures
        is_stable_sort_of(stable_sorted(s, mode), s, mode),
{
    lemma_sort_is_monotone(s, mode);
    assert forall|k: int| #[trigger]
        stable_sorted(s, mode).filter(has_key(mode, k)) == s.filter(has_key(mode, k)) by {
        lemma_sort_is_stable(s, mode, k);
    }
}

/// A sequence without pixels of any key is empty.
proof fn lemma_no_keys_no_pixels(r: Seq<Rgb>, mode: SortMode)
    requires
        forall|k: int| #[trigger] r.filter(has_key(mode, k)).len() == 0,
    ensures
        r.len() == 0,
{
    broadcast use Seq::lemma_filter_push;

    if r.len() > 0 {
        let x = r.last();
        let k = key_of(x, mode);
        assert(r == r.drop_last().push(x));
        assert(r.filter(has_key(mode, k)) == r.drop_last().filter(has_key(mode, k)).push(x));
    }
}

/// The last pixel of an ordered sequence is the last of the pixels of its
/// key, and no pixel has a higher key.
proof fn lemma_last_of_sorted(r: Seq<Rgb>, mode: SortMode)
    requires
        r.len() > 0,
    ensures
        r.filter(has_key(mode, key_of(r.last(), mode))) == r.drop_last().filter(
            has_key(mode, key_of(r.last(), mode)),
        ).push(r.last()),
        forall|k: int|
            k != key_of(r.last(), mode) ==> #[trigger] r.filter(has_key(mode, k))
                == r.drop_last().filter(has_key(mode, k)),
{
    broadcast use Seq::lemma_filter_push;

    assert(r == r.drop_last().push(r.last()));
}

/// A pixel of the pixels of one key is a pixel of the sequence, of that key.
proof fn lemma_filtered_pixel(r: Seq<Rgb>, mode: SortMode, k: int, i: int)
    requires
        0 <= i < r.filter(has_key(mode, k)).len(),
    ensures
        key_of(r.filter(has_key(mode, k))[i], mode) == k,
        r.contains(r.filter(has_key(mode, k))[i]),
{
    let pred = has_key(mode, k);
    r.lemma_filter_pred(pred, i);
    let f = r.filter(pred);
    assert(f.contains(f[i]));
    r.lemma_filter_contains_rev(pred, f[i]);
}

/// There is one stable sort only: two ordered sequences that hold, for
/// every key, the same pixels of that key in the same order, are equal.
pub proof fn lemma_stable_sort_unique(a: Seq<Rgb>, b: Seq<Rgb>, mode: SortMode)
    requires
        sorted_by_key(a, mode),
        sorted_by_key(b, mode),
        forall|k: int| #[trigger] a.filter(has_key(mode, k)) == b.filter(has_key(mode, k)),
    ensures
        a == b,
    decreases a.len(),
{
    if a.len() == 0 {
        assert forall|k: int| #[trigger] b.filter(has_key(mode, k)).len() == 0 by {
            reveal(Seq::filter);
            assert(a.filter(has_key(mode, k)) == b.filter(has_key(mode, k)));
        }
        lemma_no_keys_no_pixels(b, mode);
        assert(a =~= b);
    } else {
        if b.len() == 0 {
            assert forall|k: int| #[trigger] a.filter(has_key(mode, k)).len() == 0 by {
                reveal(Seq::filter);
                assert(a.filter(has_key(mode, k)) == b.filter(has_key(mode, k)));
            }
            lemma_no_keys_no_pixels(a, mode);
        }
        let x = a.last();
        let y = b.last();
        let kx = key_of(x, mode);
        let ky = key_of(y, mode);
        lemma_last_of_sorted(a, mode);
        lemma_last_of_sorted(b, mode);
        // the last pixels have the same key: each sequence holds a pixel of
        // the key of the other's last pixel, and its own last key is highest
        assert(kx == ky) by {
            let fa = a.filter(has_key(mode, kx));
            assert(fa == b.filter(has_key(mode, kx)));
            assert(fa.len() > 0);
            lemma_filtered_pixel(b, mode, kx, 0);
            let ib = choose|i: int| 0 <= i < b.len() && b[i] == fa[0];
            assert(key_of(b[ib], mode) <= key_of(b[b.len() - 1], mode));
            let fb = b.filter(has_key(mode, ky));
            assert(a.filter(has_key(mode, ky)) == fb);
            assert(fb.len() > 0);
            lemma_filtered_pixel(a, mode, ky, 0);
            let ia = choose|i: int| 0 <= i < a.len() && a[i] == fb[0];
            assert(key_of(a[ia], mode) <= key_of(a[a.len() - 1], mode));
        }
        let fa = a.filter(has_key(mode, kx));
        let fb = b.filter(has_key(mode, kx));
        assert(fa == fb);
        assert(x == y) by {
            assert(fa.last() == x);
            assert(fb.last() == y);
        }
        let a0 = a.drop_last();
        let b0 = b.drop_last();
        assert forall|k: int| #[trigger]
            a0.filter(has_key(mode, k)) == b0.filter(has_key(mode, k)) by {
            assert(a.filter(has_key(mode, k)) == b.filter(has_key(mode, k)));
            if k == kx {
                assert(a0.filter(has_key(mode, k)) =~= fa.drop_last());
                assert(b0.filter(has_key(mode, k)) =~= fb.drop_last());
            }
        }
        assert(sorted_by_key(a0, mode)) by {
            assert forall|i: int, j: int| 0 <= i <= j < a0.len() implies key_of(a0[i], mode)
                <= key_of(a0[j], mode) by {
                assert(a0[i] == a[i] && a0[j] == a[j]);
            }
        }
        assert(sorted_by_key(b0, mode)) by {
            assert forall|i: int, j: int| 0 <= i <= j < b0.len() implies key_of(b0[i], mode)
                <= key_of(b0[j], mode) by {
                assert(b0[i] == b[i] && b0[j] == b[j]);
            }
        }
        lemma_stable_sort_unique(a0, b0, mode);
        assert(a == a0.push(x));
        assert(b == b0.push(y));
    }
}

/// The sorted run is the only stable sort of the run.
pub proof fn lemma_stable_sort_is_stable_sorted(r: Seq<Rgb>, s: Seq<Rgb>, mode: SortMode)
    requires
        is_stable_sort_of(r, s, mode),
    ensures
        r == stable_sorted(s, mode),
{
    lemma_stable_sorted_is_stable_sort(s, mode);
    let t = stable_sorted(s, mode);
    assert forall|k: int| #[trigger] r.filter(has_key(mode, k)) == t.filter(has_key(mode, k)) by {
        assert(r.filter(has_key(mode, k)) == s.filter(has_key(mode, k)));
        assert(t.filter(has_key(mode, k)) == s.filter(has_key(mode, k)));
    }
    lemma_stable_sort_unique(r, t, mode);
}

/// Every pixel of the sorted run is a pixel of the run.
pub proof fn lemma_sorted_pixels_come_from_run(s: Seq<Rgb>, mode: SortMode, i: int)
    requires
        0 <= i < s.len(),
    ensures
        stable_sorted(s, mode).len() == s.len(),
        s.contains(stable_sorted(s, mode)[i]),
{
    broadcast use vstd::seq_lib::to_multiset_contains;

    lemma_sort_keeps_length(s, mode);
    lemma_sort_conserves_colors(s, mode);
    let r = stable_sorted(s, mode);
    assert(r.contains(r[i]));
    assert(r.to_multiset().count(r[i]) > 0);
}

/// A run of one pixel is in order as it is.
pub proof fn lemma_sort_single(s: Seq<Rgb>, mode: SortMode)
    requires
        s.len() == 1,
    ensures
        stable_sorted(s, mode) == s,
{
    lemma_sorted_run_is_fixed(s, mode);
}

/// Sorts the pixels of `line` from `start` up to `end` in place; the pixels
/// before and behind stay where they are.
pub(crate) fn sort_range(line: &mut Vec<Rgb>, start: usize, end: usize, mode: SortMode)
    requires
        start <= end <= old(line)@.len(),
    ensures
        final(line)@ == old(line)@.subrange(0, start as int) + stable_sorted(
            old(line)@.subrange(start as int, end as int),
            mode,
        ) + old(line)@.subrange(end as int, old(line)@.len() as int),
{
    let ghost before = line@;
    let len: usize = line.len();
    let mut i: usize = start;
    assert(before.subrange(start as int, start as int) =~= Seq::<Rgb>::empty());
    assert(line@ =~= before.subrange(0, start as int) + stable_sorted(
        before.subrange(start as int, i as int),
        mode,
    ) + before.subrange(i as int, len as int));
    while i < end
        invariant
            start <= i <= end <= len,
            len == before.len(),
            line@ == before.subrange(0, start as int) + stable_sorted(
                before.subrange(start as int, i as int),
                mode,
            ) + before.subrange(i as int, len as int),
        decreases end - i,
    {
        let ghost done = stable_sorted(before.subrange(start as int, i as int), mode);
        let ghost at_entry = line@;
        proof {
            lemma_sort_keeps_length(before.subrange(start as int, i as int), mode);
        }
        let x: Rgb = line[i];
        assert(x == before[i as int]);
        let x_key: u32 = x.sort_key(mode);
        let mut j: usize = i;
        assert(done.subrange(0, (j - start) as int) =~= done);
        assert(done.subrange((j - start) as int, (i - start) as int) =~= Seq::<Rgb>::empty());
        assert(insert_by_key(done, x, mode) =~= insert_by_key(
            done.subrange(0, (j - start) as int),
            x,
            mode,
        ) + done.subrange((j - start) as int, (i - start) as int));
        while j > start && line[j - 1].sort_key(mode) > x_key
            invariant
                start <= j <= i < end <= len,
                len == before.len(),
                line@.len() == len,
                done.len() == i - start,
                x_key == key_of(x, mode),
                forall|t: int| 0 <= t < start ==> line@[t] == before[t],
                forall|t: int| i < t < len ==> line@[t] == before[t],
                forall|t: int| start <= t < j ==> line@[t] == done[t - start],
                forall|t: int| j < t <= i ==> line@[t] == done[t - 1 - start],
                insert_by_key(done, x, mode) == insert_by_key(
                    done.subrange(0, (j - start) as int),
                    x,
                    mode,
                ) + done.subrange((j - start) as int, (i - start) as int),
            decreases j,
        {
            let ghost head = done.subrange(0, (j - start) as int);
            proof {
                assert(head.last() == done[j - 1 - start]);
                assert(head.drop_last() =~= done.subrange(0, (j - 1 - start) as int));
                assert(insert_by_key(head, x, mode) == insert_by_key(
                    head.drop_last(),
                    x,
                    mode,
                ).push(head.last()));
                assert(insert_by_key(head.drop_last(), x, mode).push(head.last()) + done.subrange(
                    (j - start) as int,
                    (i - start) as int,
                ) =~= insert_by_key(head.drop_last(), x, mode) + done.subrange(
                    (j - 1 - start) as int,
                    (i - start) as int,
                ));
            }
            let moved: Rgb = line[j - 1];
            line[j] = moved;
            j = j - 1;
        }
        line[j] = x;
        proof {
            let head = done.subrange(0, (j - start) as int);
            assert(insert_by_key(head, x, mode) == head.push(x)) by {
                if head.len() > 0 {
                    assert(head.last() == done[j - 1 - start]);
                }
            }
            let grown = before.subrange(start as int, i + 1);
            assert(grown.drop_last() =~= before.subrange(start as int, i as int));
            assert(grown.last() == x);
            assert(stable_sorted(grown, mode) == insert_by_key(done, x, mode));
            lemma_insert_len(done, x, mode);
            assert(line@ =~= before.subrange(0, start as int) + stable_sorted(grown, mode)
                + before.subrange(i + 1, len as int));
        }
        i = i + 1;
    }
}

/// Sorts the pixels of a run by their key under `mode`. The sort is stable.
pub fn sort_run(run: &mut Vec<Rgb>, mode: SortMode)
    ensures
        final(run)@ == stable_sorted(old(run)@, mode),
{
    let len: usize = run.len();
    let ghost before = run@;
    sort_range(run, 0, len, mode);
    proof {
        assert(before.subrange(0, len as int) =~= before);
        lemma_sort_keeps_length(before, mode);
        assert(run@ =~= stable_sorted(before, mode));
    }
}

} // verus!
