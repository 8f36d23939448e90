//! One scanline: its runs are found, and each is sorted on its own.

use vstd::prelude::*;
use crate::color::Rgb;
use crate::key::SortMode;
use crate::params::SortError;
use crate::segment::{
    lemma_passing_prefix_of_block, lemma_run_at, lemma_runs_from_tile, lemma_runs_partition,
    passes, run_length, run_maximal, run_shaped, runs_from, runs_of, segment_runs, spans, tiles,
    Run, Span,
};
use crate::sorter::{
    has_key, lemma_sort_conserves_colors, lemma_sort_is_idempotent, lemma_sort_is_monotone,
    lemma_sort_is_stable, lemma_sort_keeps_length, lemma_sort_single,
    lemma_sorted_pixels_come_from_run, sort_range, sorted_by_key, stable_sorted,
};

verus! {

/// The pixels of the given runs of the scanline, each run sorted on its own,
/// one run after the other.
pub open spec fn sort_each(line: Seq<Rgb>, runs: Seq<Span>, mode: SortMode) -> Seq<Rgb>
    decreases runs.len(),
{
    if runs.len() == 0 {
        Seq::empty()
    } else {
        stable_sorted(line.subrange(runs[0].start, runs[0].end), mode) + sort_each(
            line,
            runs.drop_first(),
            mode,
        )
    }
}

/// The scanline after the sort: every run holds its own pixels, in the order
/// of their keys.
pub open spec fn sorted_line(line: Seq<Rgb>, threshold: int, interval: int, mode: SortMode) -> Seq<
    Rgb,
> {
    sort_each(line, runs_of(line, threshold, interval), mode)
}

/// Where runs tile a stretch of the scanline, sorting each of them fills the
/// stretch: the result is as long as the stretch, and in the place of each
/// run stand the sorted pixels of that run.
pub proof fn lemma_sort_each_tiles(
    line: Seq<Rgb>,
    runs: Seq<Span>,
    mode: SortMode,
    from: int,
    to: int,
)
    requires
        0 <= from <= to <= line.len(),
        tiles(runs, from, to),
    ensures
        sort_each(line, runs, mode).len() == to - from,
        forall|i: int|
            0 <= i < runs.len() ==> from <= (#[trigger] runs[i]).start < runs[i].end <= to
                && sort_each(line, runs, mode).subrange(runs[i].start - from, runs[i].end - from)
                == stable_sorted(line.subrange(runs[i].start, runs[i].end), mode),
    decreases runs.len(),
{
    if runs.len() > 0 {
        let first = runs[0];
        let rest = runs.drop_first();
        assert(first.start < first.end);
        assert(first.end <= to && tiles(rest, first.end, to)) by {
            assert forall|i: int| 0 <= i < rest.len() implies (#[trigger] rest[i]).start
                < rest[i].end by {
                assert(rest[i] == runs[i + 1]);
            }
            assert forall|i: int| 0 <= i < rest.len() - 1 implies (#[trigger] rest[i]).end
                == rest[i + 1].start by {
                assert(rest[i] == runs[i + 1]);
                assert(rest[i + 1] == runs[i + 2]);
            }
            if rest.len() == 0 {
                assert(runs.last() == first);
            } else {
                assert(rest[0] == runs[1]);
                assert(rest.last() == runs.last());
                lemma_tiles_in_order(rest, rest[0].start, to);
            }
        }
        lemma_sort_each_tiles(line, rest, mode, first.end, to);
        let head = stable_sorted(line.subrange(first.start, first.end), mode);
        lemma_sort_keeps_length(line.subrange(first.start, first.end), mode);
        let tail = sort_each(line, rest, mode);
        let all = sort_each(line, runs, mode);
        assert(all == head + tail);
        assert forall|i: int| 0 <= i < runs.len() implies from <= (#[trigger] runs[i]).start
            < runs[i].end <= to && all.subrange(runs[i].start - from, runs[i].end - from)
            == stable_sorted(line.subrange(runs[i].start, runs[i].end), mode) by {
            if i == 0 {
                assert(all.subrange(0, first.end - from) =~= head);
            } else {
                assert(runs[i] == rest[i - 1]);
                assert(all.subrange(runs[i].start - from, runs[i].end - from) =~= tail.subrange(
                    runs[i].start - first.end,
                    runs[i].end - first.end,
                ));
            }
        }
    }
}

/// Runs that tile a stretch lie in it.
pub proof fn lemma_tiles_in_order(runs: Seq<Span>, from: int, to: int)
    requires
        tiles(runs, from, to),
    ensures
        from <= to,
        forall|i: int| 0 <= i < runs.len() ==> from <= (#[trigger] runs[i]).start && runs[i].end <= to,
    decreases runs.len(),
{
    if runs.len() > 1 {
        let front = runs.drop_last();
        assert(tiles(front, from, runs.last().start)) by {
            assert forall|i: int| 0 <= i < front.len() implies (#[trigger] front[i]).start
                < front[i].end by {
                assert(front[i] == runs[i]);
            }
            assert forall|i: int| 0 <= i < front.len() - 1 implies (#[trigger] front[i]).end
                == front[i + 1].start by {
                assert(front[i] == runs[i]);
                assert(front[i + 1] == runs[i + 1]);
            }
            assert(front[0] == runs[0]);
            assert(front.last() == runs[runs.len() - 2]);
            assert(runs[runs.len() - 2].end == runs[runs.len() - 2 + 1].start);
        }
        lemma_tiles_in_order(front, from, runs.last().start);
        assert forall|i: int| 0 <= i < runs.len() implies from <= (#[trigger] runs[i]).start
            && runs[i].end <= to by {
            if i < front.len() {
                assert(front[i] == runs[i]);
            }
        }
    } else if runs.len() == 1 {
        assert(runs.last() == runs[0]);
    }
}

/// The sorted scanline is as long as the scanline.
pub proof fn lemma_sorted_line_len(line: Seq<Rgb>, threshold: int, interval: int, mode: SortMode)
    requires
        interval >= 1,
    ensures
        sorted_line(line, threshold, interval, mode).len() == line.len(),
{
    lemma_runs_partition(line, threshold, interval);
    lemma_sort_each_tiles(line, runs_of(line, threshold, interval), mode, 0, line.len() as int);
}

/// In the sorted scanline each run holds the stably sorted pixels of that
/// run: no pixel leaves its run.
pub proof fn lemma_sorted_line_by_run(
    line: Seq<Rgb>,
    threshold: int,
    interval: int,
    mode: SortMode,
    i: int,
)
    requires
        interval >= 1,
        0 <= i < runs_of(line, threshold, interval).len(),
    ensures
        0 <= runs_of(line, threshold, interval)[i].start < runs_of(line, threshold, interval)[i].end
            <= line.len(),
        sorted_line(line, threshold, interval, mode).len() == line.len(),
        sorted_line(line, threshold, interval, mode).subrange(
            runs_of(line, threshold, interval)[i].start,
            runs_of(line, threshold, interval)[i].end,
        ) == stable_sorted(
            line.subrange(
                runs_of(line, threshold, interval)[i].start,
                runs_of(line, threshold, interval)[i].end,
            ),
            mode,
        ),
{
    lemma_runs_partition(line, threshold, interval);
    lemma_sort_each_tiles(line, runs_of(line, threshold, interval), mode, 0, line.len() as int);
    let run = runs_of(line, threshold, interval)[i];
    assert(run.start - 0 == run.start && run.end - 0 == run.end);
}

/// The colours of each run are conserved: the multiset of the pixels that
/// stand in the place of a run is the same before and after the sort.
pub proof fn lemma_run_colors_conserved(
    line: Seq<Rgb>,
    threshold: int,
    interval: int,
    mode: SortMode,
    i: int,
)
    requires
        interval >= 1,
        0 <= i < runs_of(line, threshold, interval).len(),
    ensures
        sorted_line(line, threshold, interval, mode).subrange(
            runs_of(line, threshold, interval)[i].start,
            runs_of(line, threshold, interval)[i].end,
        ).to_multiset() == line.subrange(
            runs_of(line, threshold, interval)[i].start,
            runs_of(line, threshold, interval)[i].end,
        ).to_multiset(),
{
    let run = runs_of(line, threshold, interval)[i];
    lemma_sorted_line_by_run(line, threshold, interval, mode, i);
    lemma_sort_conserves_colors(line.subrange(run.start, run.end), mode);
}

/// Each run is monotone after the sort: read in scanline order, the keys of
/// its pixels never decrease.
pub proof fn lemma_run_monotone(
    line: Seq<Rgb>,
    threshold: int,
    interval: int,
    mode: SortMode,
    i: int,
)
    requires
        interval >= 1,
        0 <= i < runs_of(line, threshold, interval).len(),
    ensures
        sorted_by_key(
            sorted_line(line, threshold, interval, mode).subrange(
                runs_of(line, threshold, interval)[i].start,
                runs_of(line, threshold, interval)[i].end,
            ),
            mode,
        ),
{
    let run = runs_of(line, threshold, interval)[i];
    lemma_sorted_line_by_run(line, threshold, interval, mode, i);
    lemma_sort_is_monotone(line.subrange(run.start, run.end), mode);
}

/// The sort is stable within each run: for every key, the pixels of that key
/// stand in the run in the same order after the sort as before.
pub proof fn lemma_run_stable(
    line: Seq<Rgb>,
    threshold: int,
    interval: int,
    mode: SortMode,
    i: int,
    k: int,
)
    requires
        interval >= 1,
        0 <= i < runs_of(line, threshold, interval).len(),
    ensures
        sorted_line(line, threshold, interval, mode).subrange(
            runs_of(line, threshold, interval)[i].start,
            runs_of(line, threshold, interval)[i].end,
        ).filter(has_key(mode, k)) == line.subrange(
            runs_of(line, threshold, interval)[i].start,
            runs_of(line, threshold, interval)[i].end,
        ).filter(has_key(mode, k)),
{
    let run = runs_of(line, threshold, interval)[i];
    lemma_sorted_line_by_run(line, threshold, interval, mode, i);
    lemma_sort_is_stable(line.subrange(run.start, run.end), mode, k);
}

/// A pixel that does not pass stays where it is: it is a run by itself, so
/// the sorted rest of the scanline from it on begins with it.
proof fn lemma_failing_pixel_stays(
    line: Seq<Rgb>,
    threshold: int,
    interval: int,
    mode: SortMode,
    at: int,
)
    requires
        interval >= 1,
        0 <= at < line.len(),
        !passes(line[at], threshold),
    ensures
        sort_each(line, runs_from(line, threshold, interval, at), mode).len() == line.len() - at,
        sort_each(line, runs_from(line, threshold, interval, at), mode)[0] == line[at],
{
    let runs = runs_from(line, threshold, interval, at);
    let behind = runs_from(line, threshold, interval, at + 1);
    assert(runs == seq![Span { start: at, end: at + 1 }] + behind);
    assert(runs[0] == Span { start: at, end: at + 1 });
    lemma_sort_single(line.subrange(at, at + 1), mode);
    lemma_runs_from_tile(line, threshold, interval, at);
    lemma_sort_each_tiles(line, runs, mode, at, line.len() as int);
    assert(sort_each(line, runs, mode) == line.subrange(at, at + 1) + sort_each(
        line,
        runs.drop_first(),
        mode,
    ));
}

/// Sorting a run moves no boundary: where a scanline holds, in the place of
/// the run of `line` that begins at `from`, the sorted pixels of that run, and
/// behind it the pixel of `line` if that does not pass, its run from `from`
/// on is as long as that of `line`.
proof fn lemma_run_length_kept(
    line: Seq<Rgb>,
    again: Seq<Rgb>,
    threshold: int,
    interval: int,
    mode: SortMode,
    from: int,
)
    requires
        interval >= 1,
        0 <= from < line.len(),
        again.len() == line.len(),
        from + run_length(line, threshold, interval, from) <= line.len(),
        again.subrange(from, from + run_length(line, threshold, interval, from)) == stable_sorted(
            line.subrange(from, from + run_length(line, threshold, interval, from)),
            mode,
        ),
        ({
            let end = from + run_length(line, threshold, interval, from);
            end < line.len() && !passes(line[end], threshold) ==> again[end] == line[end]
        }),
    ensures
        run_length(again, threshold, interval, from) == run_length(line, threshold, interval, from),
{
    let end = from + run_length(line, threshold, interval, from);
    let run = line.subrange(from, end);
    let head = stable_sorted(run, mode);
    lemma_run_at(line, threshold, interval, from);
    let first = Span { start: from, end };
    assert(run_shaped(line, threshold, interval, first));
    assert(run_maximal(line, threshold, interval, first));
    assert forall|t: int| from <= t < end implies run.contains(#[trigger] again[t]) by {
        lemma_sorted_pixels_come_from_run(run, mode, t - from);
        assert(again.subrange(from, end)[t - from] == head[t - from]);
    }
    if passes(line[from], threshold) {
        assert forall|t: int| from <= t < end implies passes(#[trigger] again[t], threshold) by {
            assert(run.contains(again[t]));
            let u = choose|u: int| 0 <= u < run.len() && run[u] == again[t];
            assert(run[u] == line[from + u]);
        }
        lemma_passing_prefix_of_block(again, threshold, from + 1, interval - 1, end - from - 1);
    } else {
        lemma_sort_single(run, mode);
        assert(again.subrange(from, end)[0] == run[0]);
        assert(again[from] == line[from]);
    }
}

/// A scanline whose runs are sorted already is segmented as it was before
/// the sort, and sorting it again changes nothing. Stated for the part of the
/// scanline from a run start `from` on: `again` is any scanline that holds,
/// from there on, the sorted runs of `line`.
pub proof fn lemma_sorted_rest_is_fixed(
    line: Seq<Rgb>,
    again: Seq<Rgb>,
    threshold: int,
    interval: int,
    mode: SortMode,
    from: int,
)
    requires
        interval >= 1,
        0 <= from <= line.len(),
        again.len() == line.len(),
        again.subrange(from, line.len() as int) == sort_each(
            line,
            runs_from(line, threshold, interval, from),
            mode,
        ),
    ensures
        runs_from(again, threshold, interval, from) == runs_from(line, threshold, interval, from),
        sort_each(again, runs_from(again, threshold, interval, from), mode) == sort_each(
            line,
            runs_from(line, threshold, interval, from),
            mode,
        ),
    decreases line.len() - from,
{
    let len = line.len() as int;
    if from < len {
        let end = from + run_length(line, threshold, interval, from);
        let first = Span { start: from, end };
        let rest_runs = runs_from(line, threshold, interval, end);
        let runs = runs_from(line, threshold, interval, from);
        assert(runs == seq![first] + rest_runs);
        assert(runs[0] == first);
        assert(runs.drop_first() =~= rest_runs);
        lemma_run_at(line, threshold, interval, from);
        assert(run_shaped(line, threshold, interval, first));
        let run = line.subrange(from, end);
        let head = stable_sorted(run, mode);
        let tail = sort_each(line, rest_runs, mode);
        lemma_sort_keeps_length(run, mode);
        lemma_runs_from_tile(line, threshold, interval, end);
        lemma_sort_each_tiles(line, rest_runs, mode, end, len);
        assert(again.subrange(from, len) == head + tail);
        assert(again.subrange(from, end) =~= head) by {
            assert forall|t: int| 0 <= t < end - from implies again.subrange(from, end)[t]
                == head[t] by {
                assert(again.subrange(from, len)[t] == (head + tail)[t]);
            }
        }
        assert(again.subrange(end, len) =~= tail) by {
            assert forall|t: int| 0 <= t < len - end implies again.subrange(end, len)[t]
                == tail[t] by {
                assert(again.subrange(from, len)[t + (end - from)] == (head + tail)[t + (end
                    - from)]);
            }
        }
        if end < len && !passes(line[end], threshold) {
            lemma_failing_pixel_stays(line, threshold, interval, mode, end);
            assert(again.subrange(end, len)[0] == tail[0]);
        }
        lemma_run_length_kept(line, again, threshold, interval, mode, from);
        lemma_sorted_rest_is_fixed(line, again, threshold, interval, mode, end);
        let again_runs = runs_from(again, threshold, interval, from);
        assert(again_runs == seq![first] + runs_from(again, threshold, interval, end));
        assert(again_runs == runs);
        lemma_sort_is_idempotent(run, mode);
        assert(sort_each(again, again_runs, mode) == stable_sorted(
            again.subrange(from, end),
            mode,
        ) + sort_each(again, again_runs.drop_first(), mode));
    }
}

/// Sorting a scanline that was sorted with the same parameters changes
/// nothing: its runs are where they were, and each is in order.
pub proof fn lemma_sorted_line_is_fixed(
    line: Seq<Rgb>,
    threshold: int,
    interval: int,
    mode: SortMode,
)
    requires
        interval >= 1,
    ensures
        sorted_line(sorted_line(line, threshold, interval, mode), threshold, interval, mode)
            == sorted_line(line, threshold, interval, mode),
{
    let again = sorted_line(line, threshold, interval, mode);
    lemma_sorted_line_len(line, threshold, interval, mode);
    assert(again.subrange(0, line.len() as int) =~= again);
    lemma_sorted_rest_is_fixed(line, again, threshold, interval, mode, 0);
}

/// Which position the run number `i` begins at, or the length of the
/// scanline where there is no such run.
spec fn boundary(runs: Seq<Span>, i: int, len: int) -> int {
    if i < runs.len() {
        runs[i].start
    } else {
        len
    }
}

/// Sorts the runs of a scanline in place.
///
/// Fails with `InvalidParameters`, and leaves the scanline as it is, exactly
/// when the threshold is above 255 or the interval is 0.
pub fn sort_line(line: &mut Vec<Rgb>, threshold: u32, interval: u32, mode: SortMode) -> (r: Result<
    (),
    SortError,
>)
    ensures
        threshold > 255 || interval == 0 ==> r == Err::<(), SortError>(
            SortError::InvalidParameters,
        ) && final(line)@ == old(line)@,
        threshold <= 255 && interval >= 1 ==> r == Ok::<(), SortError>(()) && final(line)@
            == sorted_line(old(line)@, threshold as int, interval as int, mode),
{
    let runs: Vec<Run> = match segment_runs(line, threshold, interval) {
        Ok(runs) => runs,
        Err(e) => {
            return Err(e);
        },
    };
    let ghost before = line@;
    let ghost sp = spans(runs@);
    let ghost len = before.len() as int;
    proof {
        lemma_runs_partition(before, threshold as int, interval as int);
        lemma_tiles_in_order(sp, 0, len);
        assert(sp.skip(0) =~= sp);
        assert(line@.subrange(0, boundary(sp, 0, len)) + sort_each(before, sp.skip(0), mode)
            =~= sort_each(before, sp, mode));
    }
    let mut i: usize = 0;
    while i < runs.len()
        invariant
            i <= runs@.len(),
            sp == spans(runs@),
            len == before.len(),
            line@.len() == len,
            tiles(sp, 0, len),
            forall|t: int| 0 <= t < sp.len() ==> 0 <= (#[trigger] sp[t]).start && sp[t].end <= len,
            0 <= boundary(sp, i as int, len) <= len,
            line@.subrange(boundary(sp, i as int, len), len) == before.subrange(
                boundary(sp, i as int, len),
                len,
            ),
            line@.subrange(0, boundary(sp, i as int, len)) + sort_each(
                before,
                sp.skip(i as int),
                mode,
            ) == sort_each(before, sp, mode),
        decreases runs@.len() - i,
    {
        let run: Run = runs[i];
        let ghost at_entry = line@;
        proof {
            assert(sp[i as int] == run.span());
            assert(sp[i as int].start < sp[i as int].end);
        }
        sort_range(line, run.start, run.end, mode);
        proof {
            let start = run.start as int;
            let end = run.end as int;
            let next = boundary(sp, i + 1, len);
            assert(next == end) by {
                if i + 1 < sp.len() {
                    assert(sp[i as int].end == sp[i + 1].start);
                } else {
                    assert(sp.last() == sp[i as int]);
                }
            }
            assert(at_entry.subrange(start, end) =~= before.subrange(start, end)) by {
                assert forall|t: int| 0 <= t < end - start implies at_entry.subrange(start, end)[t]
                    == before.subrange(start, end)[t] by {
                    assert(at_entry.subrange(start, len)[t] == before.subrange(start, len)[t]);
                }
            }
            let pending = sp.skip(i as int);
            assert(pending[0] == sp[i as int]);
            assert(pending.drop_first() =~= sp.skip(i + 1));
            let sorted_run = stable_sorted(before.subrange(start, end), mode);
            lemma_sort_keeps_length(before.subrange(start, end), mode);
            assert(sort_each(before, pending, mode) == sorted_run + sort_each(
                before,
                sp.skip(i + 1),
                mode,
            ));
            assert(line@.subrange(end, len) =~= before.subrange(end, len)) by {
                assert forall|t: int| 0 <= t < len - end implies line@.subrange(end, len)[t]
                    == before.subrange(end, len)[t] by {
                    assert(at_entry.subrange(start, len)[t + (end - start)] == before.subrange(
                        start,
                        len,
                    )[t + (end - start)]);
                }
            }
            assert(line@.subrange(0, end) =~= at_entry.subrange(0, start) + sorted_run);
            assert(line@.subrange(0, end) + sort_each(before, sp.skip(i + 1), mode)
                =~= at_entry.subrange(0, start) + (sorted_run + sort_each(
                before,
                sp.skip(i + 1),
                mode,
            )));
        }
        i = i + 1;
    }
    proof {
        assert(sp.skip(i as int) =~= Seq::<Span>::empty());
        assert(line@.subrange(0, len) =~= line@);
        assert(line@ + Seq::<Rgb>::empty() =~= line@);
    }
    Ok(())
}

} // verus!
