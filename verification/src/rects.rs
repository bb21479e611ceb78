//! Background and underline bars: from runs of character positions to
//! stretches of pixels.
//!
//! The pixels come from a table of measured widths. For a line with glyph
//! runs `runs`, the table has one entry for each position of the text: entry
//! `i` is the width, in the face of the glyph run that holds `i`, of the text
//! from that run's start up to and with the character at `i`.

use vstd::prelude::*;
use crate::glyphs::{chain, lemma_chain_len, lemma_chain_rest, partition, FontDisplayInfo};
use crate::runs::DisplayTemp;

verus! {

/// A bar: a colour and the pixels `start..end` it spans.
#[derive(Clone, Copy, Debug, PartialEq, Eq, Structural)]
pub struct RectDisplayInfo {
    /// Index of the colour.
    pub idx: usize,
    /// First pixel of the bar.
    pub start: u64,
    /// Pixel after the last one of the bar.
    pub end: u64,
}

/// The pixel at which a bar starts that starts at the character position
/// `at`. The glyph runs are walked from the front: each run that ends at or
/// before `at` counts with its whole width; a run that starts at `at` ends
/// the walk; a run that holds `at` counts with the width of its text before
/// `at`, and ends the walk.
pub open spec fn pixel_start(runs: Seq<FontDisplayInfo>, widths: Seq<u32>, at: int) -> int
    decreases runs.len(),
{
    if runs.len() == 0 {
        0
    } else if runs[0].start == at {
        0
    } else if runs[0].end > at {
        widths[at - 1] as int
    } else {
        widths[runs[0].end - 1] + pixel_start(runs.drop_first(), widths, at)
    }
}

/// The pixel at which a bar ends that ends at the character position `at`.
/// The glyph runs are walked from the front: a run that starts at `at` counts
/// with the width of its first character, and ends the walk; each run that
/// ends at or before `at` counts with its whole width; a run that holds `at`
/// counts with the width of its text before `at`, and ends the walk.
pub open spec fn pixel_end(runs: Seq<FontDisplayInfo>, widths: Seq<u32>, at: int) -> int
    decreases runs.len(),
{
    if runs.len() == 0 {
        0
    } else if runs[0].start == at {
        widths[at] as int
    } else if runs[0].end <= at {
        widths[runs[0].end - 1] + pixel_end(runs.drop_first(), widths, at)
    } else {
        widths[at - 1] as int
    }
}

/// The bar of one run of a colour channel.
pub open spec fn bar(run: DisplayTemp, runs: Seq<FontDisplayInfo>, widths: Seq<u32>) -> RectDisplayInfo {
    RectDisplayInfo {
        idx: run.idx,
        start: pixel_start(runs, widths, run.start as int) as u64,
        end: pixel_end(runs, widths, run.end as int) as u64,
    }
}

/// The bars of the runs of a colour channel, one for each run, in the runs'
/// order.
pub open spec fn bars(rects: Seq<DisplayTemp>, runs: Seq<FontDisplayInfo>, widths: Seq<u32>) -> Seq<
    RectDisplayInfo,
> {
    Seq::new(rects.len(), |k: int| bar(rects[k], runs, widths))
}

/// The width of all the glyph runs together.
pub open spec fn total_width(runs: Seq<FontDisplayInfo>, widths: Seq<u32>) -> int
    decreases runs.len(),
{
    if runs.len() == 0 {
        0
    } else {
        widths[runs[0].end - 1] + total_width(runs.drop_first(), widths)
    }
}

/// The pixels of a walk are no more than one full width for each run.
pub proof fn lemma_pixel_bounds(runs: Seq<FontDisplayInfo>, widths: Seq<u32>, at: int)
    ensures
        0 <= pixel_start(runs, widths, at) <= runs.len() * u32::MAX,
        0 <= pixel_end(runs, widths, at) <= runs.len() * u32::MAX,
        0 <= total_width(runs, widths) <= runs.len() * u32::MAX,
    decreases runs.len(),
{
    if runs.len() > 0 {
        lemma_pixel_bounds(runs.drop_first(), widths, at);
    }
}

/// The widths of a glyph run's text do not shrink as the text grows.
pub open spec fn rising(widths: Seq<u32>, run: FontDisplayInfo) -> bool {
    forall|i: int, j: int|
        run.start <= i <= j < run.end ==> #[trigger] widths[i] <= #[trigger] widths[j]
}

/// In every glyph run, a longer piece of text is no narrower than a shorter
/// one.
pub open spec fn monotone(runs: Seq<FontDisplayInfo>, widths: Seq<u32>) -> bool {
    forall|k: int| 0 <= k < runs.len() ==> rising(widths, #[trigger] runs[k])
}

proof fn lemma_monotone_rest(runs: Seq<FontDisplayInfo>, widths: Seq<u32>)
    requires
        monotone(runs, widths),
        runs.len() > 0,
    ensures
        monotone(runs.drop_first(), widths),
        rising(widths, runs[0]),
{
    let rest = runs.drop_first();
    assert forall|k: int| 0 <= k < rest.len() implies rising(widths, #[trigger] rest[k]) by {
        assert(rest[k] == runs[k + 1]);
    }
}

/// A bar does not end before it starts: where no glyph run's text gets
/// narrower as it grows, a bar over the positions `start..end` with `start`
/// no later than `end` spans pixels of which the first is no later than the
/// last.
pub proof fn lemma_bar_forward(
    runs: Seq<FontDisplayInfo>,
    widths: Seq<u32>,
    from: int,
    to: int,
    start: int,
    end: int,
)
    requires
        chain(runs, from, to),
        monotone(runs, widths),
        from <= start <= end,
    ensures
        pixel_start(runs, widths, start) <= pixel_end(runs, widths, end),
    decreases runs.len(),
{
    if runs.len() > 0 {
        let run = runs[0];
        let rest = runs.drop_first();
        lemma_chain_rest(runs, from, to);
        lemma_monotone_rest(runs, widths);
        lemma_pixel_bounds(runs, widths, end);
        lemma_pixel_bounds(rest, widths, end);
        if run.start == start {
        } else if run.end > start {
            assert(widths[start - 1] <= widths[run.end - 1]);
            if end < run.end {
                assert(widths[start - 1] <= widths[end - 1]);
            }
        } else {
            lemma_bar_forward(rest, widths, run.end as int, to, start, end);
        }
    }
}

/// Bars start in the order of their runs: a later start in the text is no
/// earlier a start in pixels.
pub proof fn lemma_pixel_start_rises(
    runs: Seq<FontDisplayInfo>,
    widths: Seq<u32>,
    from: int,
    to: int,
    a: int,
    b: int,
)
    requires
        chain(runs, from, to),
        monotone(runs, widths),
        from <= a <= b,
    ensures
        pixel_start(runs, widths, a) <= pixel_start(runs, widths, b),
    decreases runs.len(),
{
    if runs.len() > 0 {
        let run = runs[0];
        let rest = runs.drop_first();
        lemma_chain_rest(runs, from, to);
        lemma_monotone_rest(runs, widths);
        lemma_pixel_bounds(runs, widths, b);
        lemma_pixel_bounds(rest, widths, b);
        if run.start == a {
        } else if run.end > a {
            assert(widths[a - 1] <= widths[run.end - 1]);
            if b < run.end {
                assert(widths[a - 1] <= widths[b - 1]);
            }
        } else {
            lemma_pixel_start_rises(rest, widths, run.end as int, to, a, b);
        }
    }
}

/// Bars end in the order of their runs: a later end in the text is no
/// earlier an end in pixels.
pub proof fn lemma_pixel_end_rises(
    runs: Seq<FontDisplayInfo>,
    widths: Seq<u32>,
    from: int,
    to: int,
    a: int,
    b: int,
)
    requires
        chain(runs, from, to),
        monotone(runs, widths),
        from <= a <= b,
    ensures
        pixel_end(runs, widths, a) <= pixel_end(runs, widths, b),
    decreases runs.len(),
{
    if runs.len() > 0 {
        let run = runs[0];
        let rest = runs.drop_first();
        lemma_chain_rest(runs, from, to);
        lemma_monotone_rest(runs, widths);
        lemma_pixel_bounds(runs, widths, b);
        lemma_pixel_bounds(rest, widths, b);
        if run.start == a {
            assert(widths[a] <= widths[run.end - 1]);
            if a < b && b < run.end {
                assert(widths[a] <= widths[b - 1]);
            }
        } else if run.end <= a {
            lemma_pixel_end_rises(rest, widths, run.end as int, to, a, b);
        } else {
            assert(widths[a - 1] <= widths[run.end - 1]);
            if b < run.end {
                assert(widths[a - 1] <= widths[b - 1]);
            }
        }
    }
}

/// The bars of a line run forward and come in the order of their runs.
/// Where the glyph runs cover a text of no more than `u32::MAX` positions,
/// where no glyph run's text gets narrower as it grows, and where the runs
/// of the channel lie in order, every bar starts no later than it ends, and
/// of two bars the later one neither starts nor ends before the earlier one
/// does.
pub proof fn lemma_bars_forward(
    rects: Seq<DisplayTemp>,
    runs: Seq<FontDisplayInfo>,
    widths: Seq<u32>,
)
    requires
        partition(runs, widths.len() as int),
        widths.len() <= u32::MAX,
        monotone(runs, widths),
        crate::runs::ordered(rects, widths.len() as int),
    ensures
        bars(rects, runs, widths).len() == rects.len(),
        forall|k: int|
            0 <= k < rects.len() ==> (#[trigger] bars(rects, runs, widths)[k]).start <= bars(
                rects,
                runs,
                widths,
            )[k].end,
        forall|k: int, l: int|
            0 <= k < l < rects.len() ==> (#[trigger] bars(rects, runs, widths)[k]).start <= (
            #[trigger] bars(rects, runs, widths)[l]).start && bars(rects, runs, widths)[k].end
                <= bars(rects, runs, widths)[l].end,
{
    let len = widths.len() as int;
    let list = bars(rects, runs, widths);
    lemma_chain_len(runs, 0, len);
    assert forall|k: int| 0 <= k < rects.len() implies (#[trigger] list[k]).start
        <= list[k].end by {
        let run = rects[k];
        assert(run.start < run.end);
        lemma_pixel_bounds(runs, widths, run.start as int);
        lemma_pixel_bounds(runs, widths, run.end as int);
        lemma_bar_forward(runs, widths, 0, len, run.start as int, run.end as int);
    }
    assert forall|k: int, l: int| 0 <= k < l < rects.len() implies (#[trigger] list[k]).start <= (
    #[trigger] list[l]).start && list[k].end <= list[l].end by {
        let a = rects[k];
        let b = rects[l];
        assert(a.start < a.end);
        assert(b.start < b.end);
        assert(a.end <= b.start);
        lemma_pixel_bounds(runs, widths, a.start as int);
        lemma_pixel_bounds(runs, widths, a.end as int);
        lemma_pixel_bounds(runs, widths, b.start as int);
        lemma_pixel_bounds(runs, widths, b.end as int);
        lemma_pixel_start_rises(runs, widths, 0, len, a.start as int, b.start as int);
        lemma_pixel_end_rises(runs, widths, 0, len, a.end as int, b.end as int);
    }
}

/// The pixel at which a bar starts, see `pixel_start`.
fn start_pixel(runs: &[FontDisplayInfo], widths: &[u32], at: usize) -> (pixel: u64)
    requires
        partition(runs@, widths@.len() as int),
        widths@.len() <= u32::MAX,
    ensures
        pixel == pixel_start(runs@, widths@, at as int),
{
    let mut acc: u64 = 0;
    let mut k: usize = 0;
    assert(runs@.skip(0) == runs@);
    proof {
        lemma_chain_len(runs@, 0, widths@.len() as int);
    }
    while k < runs.len()
        invariant
            k <= runs.len() <= widths@.len() <= u32::MAX,
            chain(
                runs@.skip(k as int),
                if k < runs.len() {
                    runs@[k as int].start as int
                } else {
                    widths@.len() as int
                },
                widths@.len() as int,
            ),
            k < runs.len() ==> runs@[k as int].start <= at,
            acc <= k * u32::MAX,
            acc + pixel_start(runs@.skip(k as int), widths@, at as int) == pixel_start(
                runs@,
                widths@,
                at as int,
            ),
        decreases runs.len() - k,
    {
        let run = runs[k];
        let ghost rest = runs@.skip(k as int);
        assert(rest[0] == run);
        assert(rest.drop_first() == runs@.skip(k + 1));
        proof {
            lemma_chain_rest(rest, run.start as int, widths@.len() as int);
            if k + 1 < runs.len() {
                assert(runs@.skip(k + 1)[0] == runs@[k + 1]);
            }
        }
        if run.start == at {
            return acc;
        } else if run.end > at {
            return acc + widths[at - 1] as u64;
        } else {
            acc = acc + widths[run.end - 1] as u64;
            k += 1;
        }
    }
    acc
}

/// The pixel at which a bar ends, see `pixel_end`.
fn end_pixel(runs: &[FontDisplayInfo], widths: &[u32], at: usize) -> (pixel: u64)
    requires
        partition(runs@, widths@.len() as int),
        widths@.len() <= u32::MAX,
    ensures
        pixel == pixel_end(runs@, widths@, at as int),
{
    let mut acc: u64 = 0;
    let mut k: usize = 0;
    assert(runs@.skip(0) == runs@);
    proof {
        lemma_chain_len(runs@, 0, widths@.len() as int);
    }
    while k < runs.len()
        invariant
            k <= runs.len() <= widths@.len() <= u32::MAX,
            chain(
                runs@.skip(k as int),
                if k < runs.len() {
                    runs@[k as int].start as int
                } else {
                    widths@.len() as int
                },
                widths@.len() as int,
            ),
            k < runs.len() ==> runs@[k as int].start <= at,
            acc <= k * u32::MAX,
            acc + pixel_end(runs@.skip(k as int), widths@, at as int) == pixel_end(
                runs@,
                widths@,
                at as int,
            ),
        decreases runs.len() - k,
    {
        let run = runs[k];
        let ghost rest = runs@.skip(k as int);
        assert(rest[0] == run);
        assert(rest.drop_first() == runs@.skip(k + 1));
        proof {
            lemma_chain_rest(rest, run.start as int, widths@.len() as int);
            if k + 1 < runs.len() {
                assert(runs@.skip(k + 1)[0] == runs@[k + 1]);
            }
        }
        if run.start == at {
            return acc + widths[at] as u64;
        } else if run.end <= at {
            acc = acc + widths[run.end - 1] as u64;
            k += 1;
        } else {
            return acc + widths[at - 1] as u64;
        }
    }
    acc
}

impl RectDisplayInfo {
    /// The bars for the runs `rect_display_types` of a colour channel, over
    /// a line with the glyph runs `text_display` and the measured widths
    /// `widths`: one bar for each run, in the runs' order, with the run's
    /// colour and its pixels.
    pub fn gen_list(
        rect_display_types: &[DisplayTemp],
        text_display: &[FontDisplayInfo],
        widths: &[u32],
    ) -> (list: Vec<RectDisplayInfo>)
        requires
            partition(text_display@, widths@.len() as int),
            widths@.len() <= u32::MAX,
        ensures
            list@ == bars(rect_display_types@, text_display@, widths@),
    {
        let mut list: Vec<RectDisplayInfo> = Vec::new();
        let mut k: usize = 0;
        while k < rect_display_types.len()
            invariant
                k <= rect_display_types.len(),
                partition(text_display@, widths@.len() as int),
                widths@.len() <= u32::MAX,
                list@ == bars(rect_display_types@.take(k as int), text_display@, widths@),
            decreases rect_display_types.len() - k,
        {
            let run = rect_display_types[k];
            let start = start_pixel(text_display, widths, run.start);
            let end = end_pixel(text_display, widths, run.end);
            list.push(RectDisplayInfo { idx: run.idx, start, end });
            k += 1;
            assert(list@ =~= bars(rect_display_types@.take(k as int), text_display@, widths@));
        }
        assert(rect_display_types@.take(k as int) == rect_display_types@);
        list
    }
}

} // verus!
