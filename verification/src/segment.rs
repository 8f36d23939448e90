//! The run segmenter: it partitions a scanline into the runs that are
//! sorted on their own.

use vstd::prelude::*;
use crate::color::{brightness_of, Rgb, KEY_SCALE};
use crate::params::{SortError, MAX_THRESHOLD};

verus! {

/// A stretch of a scanline: the positions from `start` up to, not including,
/// `end`.
pub ghost struct Span {
    pub start: int,
    pub end: int,
}

/// One run of a scanline: the positions from `start` up to, not including,
/// `end`.
#[derive(Clone, Copy, Debug, PartialEq, Eq, Structural)]
pub struct Run {
    pub start: usize,
    pub end: usize,
}

impl Run {
    /// The stretch that the run covers.
    pub open spec fn span(self) -> Span {
        Span { start: self.start as int, end: self.end as int }
    }
}

/// The stretches that a list of runs covers.
pub open spec fn spans(runs: Seq<Run>) -> Seq<Span> {
    Seq::new(runs.len(), |i: int| runs[i].span())
}

/// Whether a pixel is bright enough to be sorted with its neighbours: its
/// brightness reaches the threshold level.
pub open spec fn passes(p: Rgb, threshold: int) -> bool {
    brightness_of(p) >= 1000 * threshold
}

/// How many pixels in a row pass from position `from` on, counting no more
/// than `cap`.
pub open spec fn passing_prefix(line: Seq<Rgb>, threshold: int, from: int, cap: int) -> nat
    decreases cap,
{
    if cap <= 0 || from < 0 || from >= line.len() || !passes(line[from], threshold) {
        0
    } else {
        1 + passing_prefix(line, threshold, from + 1, cap - 1)
    }
}

/// The length of the run that starts at `start`. A pixel that does not pass
/// is a run by itself. A pixel that passes opens a run that takes in the
/// passing pixels behind it, until it holds `interval` pixels.
pub open spec fn run_length(line: Seq<Rgb>, threshold: int, interval: int, start: int) -> nat {
    if passes(line[start], threshold) {
        1 + passing_prefix(line, threshold, start + 1, interval - 1)
    } else {
        1
    }
}

/// The runs of the part of the scanline that begins at `start`, in order.
pub open spec fn runs_from(line: Seq<Rgb>, threshold: int, interval: int, start: int) -> Seq<Span>
    decreases line.len() - start,
    via runs_from_decreases
{
    if start < 0 || start >= line.len() {
        Seq::empty()
    } else {
        let end = start + run_length(line, threshold, interval, start);
        seq![Span { start, end }] + runs_from(line, threshold, interval, end)
    }
}

#[via_fn]
proof fn runs_from_decreases(line: Seq<Rgb>, threshold: int, interval: int, start: int) {
    if 0 <= start < line.len() && interval >= 1 {
        lemma_passing_prefix(line, threshold, start + 1, interval - 1);
    }
}

/// The runs of a scanline, in order.
pub open spec fn runs_of(line: Seq<Rgb>, threshold: int, interval: int) -> Seq<Span> {
    runs_from(line, threshold, interval, 0)
}

/// Whether `runs` tile the positions from `from` up to `to`: no run is
/// empty, each begins where the one before it ends, the first begins at
/// `from` and the last ends at `to`.
pub open spec fn tiles(runs: Seq<Span>, from: int, to: int) -> bool {
    &&& forall|i: int| 0 <= i < runs.len() ==> (#[trigger] runs[i]).start < runs[i].end
    &&& forall|i: int| 0 <= i < runs.len() - 1 ==> (#[trigger] runs[i]).end == runs[i + 1].start
    &&& if runs.len() == 0 {
        from == to
    } else {
        runs[0].start == from && runs.last().end == to
    }
}

/// Whether a stretch of the scanline has the shape of a run: one pixel that
/// does not pass, or up to `interval` pixels that all pass.
pub open spec fn run_shaped(line: Seq<Rgb>, threshold: int, interval: int, run: Span) -> bool {
    &&& 0 <= run.start < run.end <= line.len()
    &&& if passes(line[run.start], threshold) {
        &&& run.end - run.start <= interval
        &&& forall|t: int| run.start <= t < run.end ==> passes(#[trigger] line[t], threshold)
    } else {
        run.end == run.start + 1
    }
}

/// Whether nothing but the end of the scanline, a pixel that does not pass,
/// or the cap of `interval` pixels ends a run of passing pixels.
pub open spec fn run_maximal(line: Seq<Rgb>, threshold: int, interval: int, run: Span) -> bool {
    passes(line[run.start], threshold) ==> {
        ||| run.end == line.len()
        ||| run.end - run.start == interval
        ||| !passes(line[run.end], threshold)
    }
}

/// What `passing_prefix` counts: the pixels counted all pass, they are no
/// more than `cap`, and the count stops only at the cap, at the end of the
/// scanline or before a pixel that does not pass.
pub proof fn lemma_passing_prefix(line: Seq<Rgb>, threshold: int, from: int, cap: int)
    requires
        0 <= from <= line.len(),
        0 <= cap,
    ensures
        passing_prefix(line, threshold, from, cap) <= cap,
        from + passing_prefix(line, threshold, from, cap) <= line.len(),
        forall|t: int|
            from <= t < from + passing_prefix(line, threshold, from, cap) ==> passes(
                #[trigger] line[t],
                threshold,
            ),
        passing_prefix(line, threshold, from, cap) == cap || from + passing_prefix(
            line,
            threshold,
            from,
            cap,
        ) == line.len() || !passes(
            line[from + passing_prefix(line, threshold, from, cap)],
            threshold,
        ),
    decreases cap,
{
    if !(cap <= 0 || from >= line.len() || !passes(line[from], threshold)) {
        lemma_passing_prefix(line, threshold, from + 1, cap - 1);
    }
}

/// `passing_prefix` counts every stretch of passing pixels in full: where
/// `n` pixels from `from` on pass, it counts `n` of them, or `cap` if that is
/// less.
pub proof fn lemma_passing_prefix_of_block(
    line: Seq<Rgb>,
    threshold: int,
    from: int,
    cap: int,
    n: int,
)
    requires
        0 <= from,
        0 <= n,
        from + n <= line.len(),
        0 <= cap,
        forall|t: int| from <= t < from + n ==> passes(#[trigger] line[t], threshold),
    ensures
        n >= cap ==> passing_prefix(line, threshold, from, cap) == cap,
        n < cap && (from + n == line.len() || !passes(line[from + n], threshold))
            ==> passing_prefix(line, threshold, from, cap) == n,
    decreases cap,
{
    if cap > 0 && n > 0 {
        assert(passes(line[from], threshold));
        lemma_passing_prefix_of_block(line, threshold, from + 1, cap - 1, n - 1);
    }
}

/// The run that starts at any position of the scanline has the shape of a
/// run and is as long as the rule allows.
pub proof fn lemma_run_at(line: Seq<Rgb>, threshold: int, interval: int, start: int)
    requires
        0 <= start < line.len(),
        interval >= 1,
    ensures
        run_shaped(
            line,
            threshold,
            interval,
            Span { start, end: start + run_length(line, threshold, interval, start) },
        ),
        run_maximal(
            line,
            threshold,
            interval,
            Span { start, end: start + run_length(line, threshold, interval, start) },
        ),
{
    lemma_passing_prefix(line, threshold, start + 1, interval - 1);
}

/// The runs from `start` on tile the rest of the scanline: they are
/// disjoint and cover every position from `start` on exactly once. Each of
/// them has the shape of a run and is as long as the rule allows.
pub proof fn lemma_runs_from_tile(line: Seq<Rgb>, threshold: int, interval: int, start: int)
    requires
        0 <= start <= line.len(),
        interval >= 1,
    ensures
        tiles(runs_from(line, threshold, interval, start), start, line.len() as int),
        forall|i: int|
            0 <= i < runs_from(line, threshold, interval, start).len() ==> run_shaped(
                line,
                threshold,
                interval,
                #[trigger] runs_from(line, threshold, interval, start)[i],
            ) && run_maximal(
                line,
                threshold,
                interval,
                runs_from(line, threshold, interval, start)[i],
            ),
    decreases line.len() - start,
{
    if start < line.len() {
        let end = start + run_length(line, threshold, interval, start);
        let first = Span { start, end };
        let rest = runs_from(line, threshold, interval, end);
        let runs = runs_from(line, threshold, interval, start);
        lemma_run_at(line, threshold, interval, start);
        lemma_runs_from_tile(line, threshold, interval, end);
        assert(runs == seq![first] + rest);
        assert(runs[0] == first);
        assert forall|i: int| 1 <= i < runs.len() implies #[trigger] runs[i] == rest[i - 1] by {}
        assert forall|i: int| 0 <= i < runs.len() - 1 implies (#[trigger] runs[i]).end == runs[i
            + 1].start by {
            if i > 0 {
                assert(runs[i] == rest[i - 1]);
            }
            assert(runs[i + 1] == rest[i]);
        }
        assert forall|i: int| 0 <= i < runs.len() implies run_shaped(
            line,
            threshold,
            interval,
            #[trigger] runs[i],
        ) && run_maximal(line, threshold, interval, runs[i]) by {
            if i > 0 {
                assert(runs[i] == rest[i - 1]);
            }
        }
        if rest.len() > 0 {
            assert(runs.last() == rest.last());
        }
    }
}

/// The runs of a scanline are a partition of it: disjoint, in order, and
/// covering every pixel exactly once; and each is a single pixel under the
/// threshold or a stretch of passing pixels no longer than `interval`.
pub proof fn lemma_runs_partition(line: Seq<Rgb>, threshold: int, interval: int)
    requires
        interval >= 1,
    ensures
        tiles(runs_of(line, threshold, interval), 0, line.len() as int),
        forall|i: int|
            0 <= i < runs_of(line, threshold, interval).len() ==> run_shaped(
                line,
                threshold,
                interval,
                #[trigger] runs_of(line, threshold, interval)[i],
            ) && run_maximal(line, threshold, interval, runs_of(line, threshold, interval)[i]),
{
    lemma_runs_from_tile(line, threshold, interval, 0);
}

/// Whether `runs` is a segmentation of the part of the scanline from `from`
/// on: the runs tile that part, and each has the shape of a run and is as
/// long as the rule allows.
pub open spec fn is_segmentation(
    runs: Seq<Span>,
    line: Seq<Rgb>,
    threshold: int,
    interval: int,
    from: int,
) -> bool {
    &&& tiles(runs, from, line.len() as int)
    &&& forall|i: int|
        0 <= i < runs.len() ==> run_shaped(line, threshold, interval, #[trigger] runs[i])
            && run_maximal(line, threshold, interval, runs[i])
}

/// A stretch that has the shape of a run and is as long as the rule allows
/// is the run that begins at its start.
pub proof fn lemma_run_is_determined(line: Seq<Rgb>, threshold: int, interval: int, run: Span)
    requires
        interval >= 1,
        run_shaped(line, threshold, interval, run),
        run_maximal(line, threshold, interval, run),
    ensures
        run.end == run.start + run_length(line, threshold, interval, run.start),
{
    if passes(line[run.start], threshold) {
        lemma_passing_prefix_of_block(
            line,
            threshold,
            run.start + 1,
            interval - 1,
            run.end - run.start - 1,
        );
    }
}

/// A scanline has one segmentation only: whatever list of runs tiles it with
/// runs of the right shape and length is the list of its runs.
pub proof fn lemma_segmentation_unique(
    runs: Seq<Span>,
    line: Seq<Rgb>,
    threshold: int,
    interval: int,
    from: int,
)
    requires
        interval >= 1,
        0 <= from <= line.len(),
        is_segmentation(runs, line, threshold, interval, from),
    ensures
        runs == runs_from(line, threshold, interval, from),
    decreases runs.len(),
{
    if runs.len() == 0 {
        assert(runs =~= runs_from(line, threshold, interval, from));
    } else {
        let first = runs[0];
        let rest = runs.drop_first();
        assert(run_shaped(line, threshold, interval, first));
        lemma_run_is_determined(line, threshold, interval, first);
        assert(is_segmentation(rest, line, threshold, interval, first.end)) by {
            assert forall|i: int| 0 <= i < rest.len() implies (#[trigger] rest[i]).start
                < rest[i].end by {
                assert(rest[i] == runs[i + 1]);
            }
            assert forall|i: int| 0 <= i < rest.len() - 1 implies (#[trigger] rest[i]).end
                == rest[i + 1].start by {
                assert(rest[i] == runs[i + 1]);
                assert(rest[i + 1] == runs[i + 2]);
            }
            assert forall|i: int| 0 <= i < rest.len() implies run_shaped(
                line,
                threshold,
                interval,
                #[trigger] rest[i],
            ) && run_maximal(line, threshold, interval, rest[i]) by {
                assert(rest[i] == runs[i + 1]);
            }
            if rest.len() == 0 {
                assert(runs.last() == first);
            } else {
                assert(rest[0] == runs[1]);
                assert(rest.last() == runs.last());
            }
        }
        lemma_segmentation_unique(rest, line, threshold, interval, first.end);
        assert(runs =~= seq![first] + rest);
    }
}

/// The runs of a scanline are a segmentation of it.
pub proof fn lemma_runs_are_segmentation(line: Seq<Rgb>, threshold: int, interval: int)
    requires
        interval >= 1,
    ensures
        is_segmentation(runs_of(line, threshold, interval), line, threshold, interval, 0),
{
    lemma_runs_partition(line, threshold, interval);
}

/// Every run of the first part of the list is a run of the whole list.
proof fn lemma_contains_first_part(first: Span, rest: Seq<Span>, run: Span)
    ensures
        rest.contains(run) ==> (seq![first] + rest).contains(run),
        (seq![first] + rest).contains(first),
{
    let all = seq![first] + rest;
    assert(all[0] == first);
    if rest.contains(run) {
        let i = choose|i: int| 0 <= i < rest.len() && rest[i] == run;
        assert(all[i + 1] == run);
    }
}

/// A position at the start of the scanline, or behind a pixel that does not
/// pass, begins a run: the runs from there on are runs of every part of the
/// scanline that begins at an earlier such position.
pub proof fn lemma_run_begins_after_failing_pixel(
    line: Seq<Rgb>,
    threshold: int,
    interval: int,
    from: int,
    at: int,
    run: Span,
)
    requires
        interval >= 1,
        0 <= from <= at <= line.len(),
        at == from || !passes(line[at - 1], threshold),
        runs_from(line, threshold, interval, at).contains(run),
    ensures
        runs_from(line, threshold, interval, from).contains(run),
    decreases line.len() - from,
{
    if from < at {
        let end = from + run_length(line, threshold, interval, from);
        lemma_run_at(line, threshold, interval, from);
        let first = Span { start: from, end };
        assert(run_shaped(line, threshold, interval, first));
        assert(end <= at) by {
            if passes(line[from], threshold) && end > at {
                assert(passes(line[at - 1], threshold));
            }
        }
        lemma_run_begins_after_failing_pixel(line, threshold, interval, end, at, run);
        lemma_contains_first_part(first, runs_from(line, threshold, interval, end), run);
    }
}

/// The smaller of two numbers.
pub open spec fn smaller(a: int, b: int) -> int {
    if a <= b {
        a
    } else {
        b
    }
}

/// Inside a stretch of passing pixels that ends at `block_end`, the runs that
/// begin at a run start `from` are chunks of exactly `interval` pixels, but
/// for the last, which ends with the stretch.
pub proof fn lemma_chunks_of_block(
    line: Seq<Rgb>,
    threshold: int,
    interval: int,
    from: int,
    block_end: int,
    j: int,
)
    requires
        interval >= 1,
        0 <= from < block_end <= line.len(),
        forall|t: int| from <= t < block_end ==> passes(#[trigger] line[t], threshold),
        block_end == line.len() || !passes(line[block_end], threshold),
        0 <= j,
        from + j * interval < block_end,
    ensures
        runs_from(line, threshold, interval, from).contains(
            Span {
                start: from + j * interval,
                end: smaller(from + (j + 1) * interval, block_end),
            },
        ),
    decreases j,
{
    let end = from + run_length(line, threshold, interval, from);
    let first = Span { start: from, end };
    let rest = runs_from(line, threshold, interval, end);
    lemma_passing_prefix_of_block(line, threshold, from + 1, interval - 1, block_end - from - 1);
    assert(end == smaller(from + interval, block_end));
    assert((j + 1) * interval == j * interval + interval) by (nonlinear_arith);
    if j == 0 {
        assert(j * interval == 0) by (nonlinear_arith)
            requires
                j == 0,
        ;
        lemma_contains_first_part(first, rest, first);
    } else {
        assert(j * interval >= interval) by (nonlinear_arith)
            requires
                j >= 1,
                interval >= 1,
        ;
        assert((j - 1) * interval == j * interval - interval) by (nonlinear_arith);
        assert(end == from + interval);
        lemma_chunks_of_block(line, threshold, interval, end, block_end, j - 1);
        let run = Span {
            start: from + j * interval,
            end: smaller(from + (j + 1) * interval, block_end),
        };
        assert(run == Span {
            start: end + (j - 1) * interval,
            end: smaller(end + ((j - 1) + 1) * interval, block_end),
        });
        lemma_contains_first_part(first, rest, run);
    }
}

/// The interval is a boundary: a stretch of `n` passing pixels that is bounded
/// on both sides, by an end of the scanline or by a pixel that does not pass,
/// is split into runs of exactly `interval` pixels, except possibly the last
/// run, which ends with the stretch. The run number `j` of the stretch covers
/// the positions from `j * interval` on, counted from the start of the stretch.
pub proof fn lemma_interval_boundary(
    line: Seq<Rgb>,
    threshold: int,
    interval: int,
    start: int,
    n: int,
    j: int,
)
    requires
        interval >= 1,
        0 <= start,
        0 < n,
        start + n <= line.len(),
        forall|t: int| start <= t < start + n ==> passes(#[trigger] line[t], threshold),
        start == 0 || !passes(line[start - 1], threshold),
        start + n == line.len() || !passes(line[start + n], threshold),
        0 <= j,
        j * interval < n,
    ensures
        runs_of(line, threshold, interval).contains(
            Span {
                start: start + j * interval,
                end: smaller(start + (j + 1) * interval, start + n),
            },
        ),
{
    let run = Span {
        start: start + j * interval,
        end: smaller(start + (j + 1) * interval, start + n),
    };
    lemma_chunks_of_block(line, threshold, interval, start, start + n, j);
    lemma_run_begins_after_failing_pixel(line, threshold, interval, 0, start, run);
}

/// Splits a scanline into its runs.
///
/// Fails with `InvalidParameters` exactly when the threshold is above 255
/// or the interval is 0.
pub fn segment_runs(line: &Vec<Rgb>, threshold: u32, interval: u32) -> (r: Result<
    Vec<Run>,
    SortError,
>)
    ensures
        threshold > 255 || interval == 0 ==> r == Err::<Vec<Run>, SortError>(
            SortError::InvalidParameters,
        ),
        threshold <= 255 && interval >= 1 ==> r is Ok && spans(r->Ok_0@) == runs_of(
            line@,
            threshold as int,
            interval as int,
        ),
{
    if threshold > MAX_THRESHOLD || interval == 0 {
        return Err(SortError::InvalidParameters);
    }
    let cutoff: u32 = threshold * KEY_SCALE;
    let len: usize = line.len();
    let mut runs: Vec<Run> = Vec::new();
    let mut start: usize = 0;
    assert(spans(runs@) + runs_from(line@, threshold as int, interval as int, 0) =~= runs_of(
        line@,
        threshold as int,
        interval as int,
    ));
    while start < len
        invariant
            start <= len,
            len == line@.len(),
            interval >= 1,
            cutoff == 1000 * threshold,
            spans(runs@) + runs_from(line@, threshold as int, interval as int, start as int)
                == runs_of(line@, threshold as int, interval as int),
        decreases len - start,
    {
        let mut end: usize = start + 1;
        if line[start].brightness() >= cutoff {
            while end < len && ((end - start) as u64) < (interval as u64) && line[end].brightness()
                >= cutoff
                invariant
                    start < end <= len,
                    len == line@.len(),
                    end - start <= interval,
                    cutoff == 1000 * threshold,
                    (end - start) + passing_prefix(
                        line@,
                        threshold as int,
                        end as int,
                        interval - (end - start),
                    ) == run_length(line@, threshold as int, interval as int, start as int),
                decreases len - end,
            {
                end = end + 1;
            }
        }
        let run = Run { start, end };
        proof {
            let rest = runs_from(line@, threshold as int, interval as int, end as int);
            assert(runs_from(line@, threshold as int, interval as int, start as int) == seq![
                run.span(),
            ] + rest);
            assert(spans(runs@.push(run)) + rest =~= spans(runs@) + (seq![run.span()] + rest));
        }
        runs.push(run);
        start = end;
    }
    assert(spans(runs@) + Seq::<Span>::empty() =~= spans(runs@));
    Ok(runs)
}

} // verus!
