//! Runs: half-open stretches of character positions that carry one value of
//! one style channel.

use vstd::prelude::*;

verus! {

/// The index that stands for "no explicit value here".
pub const DEFAULT: usize = usize::MAX;

/// One run of a channel: the value `idx` holds on the positions
/// `start..end`.
#[derive(Clone, Copy, Debug, PartialEq, Eq, Structural)]
pub struct DisplayTemp {
    /// Index into the fonts or colours on offer, or `DEFAULT`.
    pub idx: usize,
    /// First position of the run.
    pub start: usize,
    /// Position after the last one of the run.
    pub end: usize,
}

impl DisplayTemp {
    /// The run with the given value and bounds.
    pub fn from(idx: usize, start: usize, end: usize) -> (run: DisplayTemp)
        ensures
            run == (DisplayTemp { idx, start, end }),
    {
        DisplayTemp { idx, start, end }
    }
}

/// The runs are non-empty, lie within `0..len` and come in order without
/// overlap.
pub open spec fn ordered(runs: Seq<DisplayTemp>, len: int) -> bool {
    &&& forall|i: int| 0 <= i < runs.len() ==> (#[trigger] runs[i]).start < runs[i].end <= len
    &&& forall|i: int, j: int|
        0 <= i < j < runs.len() ==> (#[trigger] runs[i]).end <= (#[trigger] runs[j]).start
}

/// The runs are non-empty and follow one another without a gap from `from`
/// up to `to`.
pub open spec fn tiles(runs: Seq<DisplayTemp>, from: int, to: int) -> bool {
    &&& from <= to
    &&& runs.len() == 0 ==> from == to
    &&& runs.len() > 0 ==> runs[0].start == from && runs.last().end == to
    &&& forall|i: int| 0 <= i < runs.len() ==> (#[trigger] runs[i]).start < runs[i].end
    &&& forall|i: int| 0 <= i < runs.len() - 1 ==> (#[trigger] runs[i]).end == runs[i + 1].start
}

/// Every run's value is below `limit`, or is `DEFAULT` where that is allowed.
pub open spec fn bounded(runs: Seq<DisplayTemp>, limit: int, allow_default: bool) -> bool {
    forall|i: int|
        0 <= i < runs.len() ==> (#[trigger] runs[i]).idx < limit || (allow_default && runs[i].idx
            == DEFAULT)
}

/// In a tiling, an earlier run ends no later than a later one starts.
pub proof fn lemma_tiles_ascend(runs: Seq<DisplayTemp>, from: int, to: int, i: int, j: int)
    requires
        tiles(runs, from, to),
        0 <= i < j < runs.len(),
    ensures
        runs[i].end <= runs[j].start,
    decreases j - i,
{
    if i + 1 < j {
        lemma_tiles_ascend(runs, from, to, i, j - 1);
        assert(runs[j - 1].start < runs[j - 1].end);
        assert(runs[j - 1].end == runs[j - 1 + 1].start);
    } else {
        assert(runs[i].end == runs[i + 1].start);
    }
}

/// Every run of a tiling lies between the tiling's ends.
pub proof fn lemma_tiles_within(runs: Seq<DisplayTemp>, from: int, to: int, i: int)
    requires
        tiles(runs, from, to),
        0 <= i < runs.len(),
    ensures
        from <= runs[i].start < runs[i].end <= to,
{
    if 0 < i {
        lemma_tiles_ascend(runs, from, to, 0, i);
        assert(runs[0].start < runs[0].end);
    }
    if i < runs.len() - 1 {
        lemma_tiles_ascend(runs, from, to, i, runs.len() - 1);
        assert(runs[runs.len() - 1].start < runs[runs.len() - 1].end);
    }
}

/// A tiling grows by a non-empty run that starts where it ends.
pub proof fn lemma_tiles_push(runs: Seq<DisplayTemp>, from: int, to: int, run: DisplayTemp)
    requires
        tiles(runs, from, to),
        run.start == to,
        run.start < run.end,
    ensures
        tiles(runs.push(run), from, run.end as int),
{
    let grown = runs.push(run);
    assert forall|i: int| 0 <= i < grown.len() - 1 implies (#[trigger] grown[i]).end == grown[i
        + 1].start by {
        if i < runs.len() - 1 {
            assert(runs[i].end == runs[i + 1].start);
        }
    }
    assert forall|i: int| 0 <= i < grown.len() implies (#[trigger] grown[i]).start
        < grown[i].end by {
        if i < runs.len() {
            assert(runs[i].start < runs[i].end);
        }
    }
}

/// What is left of a tiling after its first run tiles the rest.
pub proof fn lemma_tiles_rest(runs: Seq<DisplayTemp>, from: int, to: int)
    requires
        tiles(runs, from, to),
        runs.len() > 0,
    ensures
        tiles(runs.drop_first(), runs[0].end as int, to),
        from < runs[0].end <= to,
{
    let rest = runs.drop_first();
    lemma_tiles_within(runs, from, to, 0);
    assert forall|i: int| 0 <= i < rest.len() implies (#[trigger] rest[i]).start
        < rest[i].end by {
        assert(runs[i + 1].start < runs[i + 1].end);
    }
    assert forall|i: int| 0 <= i < rest.len() - 1 implies (#[trigger] rest[i]).end == rest[i
        + 1].start by {
        assert(runs[i + 1].end == runs[i + 1 + 1].start);
    }
    if rest.len() > 0 {
        assert(runs[0].end == runs[1].start);
    }
}

} // verus!
