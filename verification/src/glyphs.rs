//! Glyph runs: the stretches of text that are drawn in one font face and one
//! font colour.

use vstd::prelude::*;
use crate::runs::{lemma_tiles_rest, lemma_tiles_within, tiles, DisplayTemp};

verus! {

/// A stretch of text with the face and the colour it is drawn in.
#[derive(Clone, Copy, Debug, PartialEq, Eq, Structural)]
pub struct FontDisplayInfo {
    /// Index of the font.
    pub face_idx: usize,
    /// Index of the font colour.
    pub col_idx: usize,
    /// First position of the stretch.
    pub start: usize,
    /// Position after the last one of the stretch.
    pub end: usize,
}

/// The glyph runs are non-empty and follow one another without a gap from
/// `from` up to `to`.
pub open spec fn chain(runs: Seq<FontDisplayInfo>, from: int, to: int) -> bool {
    &&& from <= to
    &&& runs.len() == 0 ==> from == to
    &&& runs.len() > 0 ==> runs[0].start == from && runs.last().end == to
    &&& forall|i: int| 0 <= i < runs.len() ==> (#[trigger] runs[i]).start < runs[i].end
    &&& forall|i: int| 0 <= i < runs.len() - 1 ==> (#[trigger] runs[i]).end == runs[i + 1].start
}

/// The glyph runs cover the positions `0..len`, each position once and in
/// order.
pub open spec fn partition(runs: Seq<FontDisplayInfo>, len: int) -> bool {
    chain(runs, 0, len)
}

/// The stretches of the glyph runs, each with its face.
pub open spec fn spans(runs: Seq<FontDisplayInfo>) -> Seq<DisplayTemp> {
    Seq::new(
        runs.len(),
        |i: int| DisplayTemp { idx: runs[i].face_idx, start: runs[i].start, end: runs[i].end },
    )
}

/// Glyph runs are a chain where their stretches tile the positions.
pub proof fn lemma_chain_tiles(runs: Seq<FontDisplayInfo>, from: int, to: int)
    ensures
        chain(runs, from, to) <==> tiles(spans(runs), from, to),
{
    let s = spans(runs);
    if chain(runs, from, to) {
        assert forall|i: int| 0 <= i < s.len() implies (#[trigger] s[i]).start < s[i].end by {
            assert(runs[i].start < runs[i].end);
        }
        assert forall|i: int| 0 <= i < s.len() - 1 implies (#[trigger] s[i]).end == s[i
            + 1].start by {
            assert(runs[i].end == runs[i + 1].start);
        }
    }
    if tiles(s, from, to) {
        assert forall|i: int| 0 <= i < runs.len() implies (#[trigger] runs[i]).start
            < runs[i].end by {
            assert(s[i].start < s[i].end);
        }
        assert forall|i: int| 0 <= i < runs.len() - 1 implies (#[trigger] runs[i]).end == runs[i
            + 1].start by {
            assert(s[i].end == s[i + 1].start);
        }
    }
}

/// What is left of a chain after its first run is a chain.
pub proof fn lemma_chain_rest(runs: Seq<FontDisplayInfo>, from: int, to: int)
    requires
        chain(runs, from, to),
        runs.len() > 0,
    ensures
        chain(runs.drop_first(), runs[0].end as int, to),
        from == runs[0].start < runs[0].end <= to,
{
    lemma_chain_tiles(runs, from, to);
    lemma_tiles_rest(spans(runs), from, to);
    assert(spans(runs).drop_first() =~= spans(runs.drop_first()));
    lemma_chain_tiles(runs.drop_first(), runs[0].end as int, to);
}

/// What comes before the last run of a chain is a chain.
pub proof fn lemma_chain_front(runs: Seq<FontDisplayInfo>, from: int, to: int)
    requires
        chain(runs, from, to),
        runs.len() > 0,
    ensures
        chain(runs.drop_last(), from, runs.last().start as int),
        from <= runs.last().start < runs.last().end == to,
{
    let front = runs.drop_last();
    lemma_chain_tiles(runs, from, to);
    lemma_tiles_within(spans(runs), from, to, runs.len() - 1);
    assert(runs.last().start < runs.last().end);
    assert forall|i: int| 0 <= i < front.len() implies (#[trigger] front[i]).start
        < front[i].end by {
        assert(runs[i].start < runs[i].end);
    }
    assert forall|i: int| 0 <= i < front.len() - 1 implies (#[trigger] front[i]).end == front[i
        + 1].start by {
        assert(runs[i].end == runs[i + 1].start);
    }
    if front.len() > 0 {
        assert(runs[front.len() - 1].end == runs[front.len() - 1 + 1].start);
    }
}

/// A chain has no more runs than it has positions.
pub proof fn lemma_chain_len(runs: Seq<FontDisplayInfo>, from: int, to: int)
    requires
        chain(runs, from, to),
    ensures
        runs.len() <= to - from,
    decreases runs.len(),
{
    if runs.len() > 0 {
        lemma_chain_rest(runs, from, to);
        lemma_chain_len(runs.drop_first(), runs[0].end as int, to);
    }
}

/// The larger of two positions.
pub open spec fn later(a: usize, b: usize) -> usize {
    if a <= b {
        b
    } else {
        a
    }
}

/// The smaller of two positions.
pub open spec fn sooner(a: usize, b: usize) -> usize {
    if a <= b {
        a
    } else {
        b
    }
}

/// What a colour run and a face run have in common.
pub open spec fn overlap(col: DisplayTemp, face: DisplayTemp) -> FontDisplayInfo {
    FontDisplayInfo {
        face_idx: face.idx,
        col_idx: col.idx,
        start: later(col.start, face.start),
        end: sooner(col.end, face.end),
    }
}

/// The glyph runs of a line: what each colour run has in common with each
/// face run, in the order of the text. The two lists are walked together
/// from their fronts; the run that ends first is done with, and both are
/// where they end together.
pub open spec fn weave(cols: Seq<DisplayTemp>, faces: Seq<DisplayTemp>) -> Seq<FontDisplayInfo>
    decreases cols.len() + faces.len(),
{
    if cols.len() == 0 || faces.len() == 0 {
        Seq::empty()
    } else {
        let col = cols[0];
        let face = faces[0];
        let both = overlap(col, face);
        let rest = if face.end < col.end {
            weave(cols, faces.drop_first())
        } else if col.end < face.end {
            weave(cols.drop_first(), faces)
        } else {
            weave(cols.drop_first(), faces.drop_first())
        };
        if both.start < both.end {
            seq![both] + rest
        } else {
            rest
        }
    }
}

/// A chain grows at its front by a non-empty run that ends where it starts.
proof fn lemma_chain_grows(run: FontDisplayInfo, rest: Seq<FontDisplayInfo>, to: int)
    requires
        run.start < run.end,
        chain(rest, run.end as int, to),
    ensures
        chain(seq![run] + rest, run.start as int, to),
{
    let all = seq![run] + rest;
    assert(all[0] == run);
    assert forall|i: int| 0 <= i < all.len() implies (#[trigger] all[i]).start < all[i].end by {
        if i > 0 {
            assert(all[i] == rest[i - 1]);
        }
    }
    assert forall|i: int| 0 <= i < all.len() - 1 implies (#[trigger] all[i]).end == all[i
        + 1].start by {
        assert(all[i + 1] == rest[i]);
        if i > 0 {
            assert(all[i] == rest[i - 1]);
        }
    }
    if rest.len() > 0 {
        assert(all.last() == rest.last());
    }
}

/// Two tilings that end together, of which the one starts inside the first
/// run of the other, weave into a chain from the later start to their end.
proof fn lemma_weave_chain(cols: Seq<DisplayTemp>, faces: Seq<DisplayTemp>, a: int, b: int, to: int)
    requires
        tiles(cols, a, to),
        tiles(faces, b, to),
        cols.len() > 0 && faces.len() > 0 ==> a < faces[0].end && b < cols[0].end,
    ensures
        chain(weave(cols, faces), if a <= b { b } else { a }, to),
    decreases cols.len() + faces.len(),
{
    if cols.len() == 0 || faces.len() == 0 {
    } else {
        let col = cols[0];
        let face = faces[0];
        let both = overlap(col, face);
        lemma_tiles_rest(cols, a, to);
        lemma_tiles_rest(faces, b, to);
        let next_cols = if face.end < col.end { cols } else { cols.drop_first() };
        let next_faces = if col.end < face.end { faces } else { faces.drop_first() };
        let next_a = if face.end < col.end { a } else { col.end as int };
        let next_b = if col.end < face.end { b } else { face.end as int };
        if next_cols.len() > 0 && next_faces.len() > 0 {
            lemma_tiles_within(next_cols, next_a, to, 0);
            lemma_tiles_within(next_faces, next_b, to, 0);
        }
        if face.end < col.end && next_faces.len() == 0 {
            lemma_tiles_within(cols, a, to, 0);
        }
        if col.end < face.end && next_cols.len() == 0 {
            lemma_tiles_within(faces, b, to, 0);
        }
        lemma_weave_chain(next_cols, next_faces, next_a, next_b, to);
        lemma_chain_grows(both, weave(next_cols, next_faces), to);
    }
}

/// The glyph runs of a line cover its text: where the colour runs and the
/// face runs each tile the positions `0..len`, their glyph runs follow one
/// another without gap or overlap from `0` up to `len`.
pub proof fn lemma_weave_partition(cols: Seq<DisplayTemp>, faces: Seq<DisplayTemp>, len: int)
    requires
        tiles(cols, 0, len),
        tiles(faces, 0, len),
    ensures
        partition(weave(cols, faces), len),
{
    if cols.len() > 0 && faces.len() > 0 {
        lemma_tiles_within(cols, 0, len, 0);
        lemma_tiles_within(faces, 0, len, 0);
    }
    lemma_weave_chain(cols, faces, 0, 0, len);
}

/// No two neighbours among the runs have one value.
pub open spec fn distinct(runs: Seq<DisplayTemp>) -> bool {
    forall|i: int| 0 <= i < runs.len() - 1 ==> (#[trigger] runs[i]).idx != runs[i + 1].idx
}

/// What is left of runs without equal neighbours has no equal neighbours.
proof fn lemma_distinct_rest(runs: Seq<DisplayTemp>)
    requires
        distinct(runs),
        runs.len() > 0,
    ensures
        distinct(runs.drop_first()),
{
    let rest = runs.drop_first();
    assert forall|i: int| 0 <= i < rest.len() - 1 implies (#[trigger] rest[i]).idx != rest[i
        + 1].idx by {
        assert(runs[i + 1].idx != runs[i + 1 + 1].idx);
    }
}

/// See `lemma_weave_minimal`; this is the same for two tilings of which the
/// one starts inside the first run of the other.
proof fn lemma_weave_distinct(cols: Seq<DisplayTemp>, faces: Seq<DisplayTemp>, a: int, b: int, to: int)
    requires
        tiles(cols, a, to),
        tiles(faces, b, to),
        cols.len() > 0 && faces.len() > 0 ==> a < faces[0].end && b < cols[0].end,
        distinct(cols),
        distinct(faces),
    ensures
        forall|k: int|
            0 <= k < weave(cols, faces).len() - 1 ==> (#[trigger] weave(cols, faces)[k]).face_idx
                != weave(cols, faces)[k + 1].face_idx || weave(cols, faces)[k].col_idx != weave(
                cols,
                faces,
            )[k + 1].col_idx,
        cols.len() > 0 && faces.len() > 0 ==> weave(cols, faces).len() > 0 && weave(cols, faces)[0]
            == overlap(cols[0], faces[0]),
    decreases cols.len() + faces.len(),
{
    if cols.len() == 0 || faces.len() == 0 {
    } else {
        let col = cols[0];
        let face = faces[0];
        let both = overlap(col, face);
        lemma_tiles_rest(cols, a, to);
        lemma_tiles_rest(faces, b, to);
        lemma_distinct_rest(cols);
        lemma_distinct_rest(faces);
        let next_cols = if face.end < col.end { cols } else { cols.drop_first() };
        let next_faces = if col.end < face.end { faces } else { faces.drop_first() };
        let next_a = if face.end < col.end { a } else { col.end as int };
        let next_b = if col.end < face.end { b } else { face.end as int };
        if next_cols.len() > 0 && next_faces.len() > 0 {
            lemma_tiles_within(next_cols, next_a, to, 0);
            lemma_tiles_within(next_faces, next_b, to, 0);
        }
        lemma_weave_distinct(next_cols, next_faces, next_a, next_b, to);
        let rest = weave(next_cols, next_faces);
        let all = weave(cols, faces);
        assert(all == seq![both] + rest);
        assert forall|k: int| 0 <= k < all.len() - 1 implies (#[trigger] all[k]).face_idx != all[k
            + 1].face_idx || all[k].col_idx != all[k + 1].col_idx by {
            if k == 0 {
                assert(all[1] == rest[0]);
                assert(rest.len() > 0);
                if face.end < col.end {
                    assert(faces[0].idx != faces[1].idx);
                } else if col.end < face.end {
                    assert(cols[0].idx != cols[1].idx);
                } else {
                    assert(cols[0].idx != cols[1].idx);
                }
            } else {
                assert(all[k] == rest[k - 1]);
                assert(all[k + 1] == rest[k]);
            }
        }
    }
}

/// The glyph runs of a line are as few as can be: where neither the colour
/// runs nor the face runs have two neighbours with one value, no two
/// neighbours among the glyph runs have one face and one colour.
pub proof fn lemma_weave_minimal(cols: Seq<DisplayTemp>, faces: Seq<DisplayTemp>, len: int)
    requires
        tiles(cols, 0, len),
        tiles(faces, 0, len),
        distinct(cols),
        distinct(faces),
    ensures
        forall|k: int|
            0 <= k < weave(cols, faces).len() - 1 ==> (#[trigger] weave(cols, faces)[k]).face_idx
                != weave(cols, faces)[k + 1].face_idx || weave(cols, faces)[k].col_idx != weave(
                cols,
                faces,
            )[k + 1].col_idx,
{
    if cols.len() > 0 && faces.len() > 0 {
        lemma_tiles_within(cols, 0, len, 0);
        lemma_tiles_within(faces, 0, len, 0);
    }
    lemma_weave_distinct(cols, faces, 0, 0, len);
}

/// Some run of `runs` has the value `idx` and holds the positions
/// `start..end`.
pub open spec fn holds(runs: Seq<DisplayTemp>, idx: usize, start: usize, end: usize) -> bool {
    exists|i: int|
        0 <= i < runs.len() && (#[trigger] runs[i]).idx == idx && runs[i].start <= start && end
            <= runs[i].end
}

/// What holds in the rest of a list holds in the list.
proof fn lemma_holds_rest(runs: Seq<DisplayTemp>, idx: usize, start: usize, end: usize)
    requires
        runs.len() > 0,
        holds(runs.drop_first(), idx, start, end),
    ensures
        holds(runs, idx, start, end),
{
    let rest = runs.drop_first();
    let i = choose|i: int|
        0 <= i < rest.len() && (#[trigger] rest[i]).idx == idx && rest[i].start <= start && end
            <= rest[i].end;
    assert(runs[i + 1] == rest[i]);
}

/// Every glyph run lies inside one colour run and inside one face run, and
/// has the colour of the one and the face of the other.
pub proof fn lemma_weave_values(cols: Seq<DisplayTemp>, faces: Seq<DisplayTemp>, k: int)
    requires
        0 <= k < weave(cols, faces).len(),
    ensures
        holds(cols, weave(cols, faces)[k].col_idx, weave(cols, faces)[k].start, weave(cols, faces)[k].end),
        holds(
            faces,
            weave(cols, faces)[k].face_idx,
            weave(cols, faces)[k].start,
            weave(cols, faces)[k].end,
        ),
    decreases cols.len() + faces.len(),
{
    let col = cols[0];
    let face = faces[0];
    let both = overlap(col, face);
    let next_cols = if face.end < col.end { cols } else { cols.drop_first() };
    let next_faces = if col.end < face.end { faces } else { faces.drop_first() };
    let rest = weave(next_cols, next_faces);
    let run = weave(cols, faces)[k];
    if both.start < both.end && k == 0 {
        assert(cols[0].idx == run.col_idx);
        assert(faces[0].idx == run.face_idx);
    } else {
        let at = if both.start < both.end { k - 1 } else { k };
        assert(run == rest[at]);
        lemma_weave_values(next_cols, next_faces, at);
        if !(face.end < col.end) {
            lemma_holds_rest(cols, run.col_idx, run.start, run.end);
        }
        if !(col.end < face.end) {
            lemma_holds_rest(faces, run.face_idx, run.start, run.end);
        }
    }
}

impl FontDisplayInfo {
    /// The glyph runs for the colour runs `col_objs` and the face runs
    /// `face_objs`: the stretches that the two have in common, in the order
    /// of the text.
    pub fn generate_list(col_objs: &[DisplayTemp], face_objs: &[DisplayTemp]) -> (list: Vec<
        FontDisplayInfo,
    >)
        ensures
            list@ == weave(col_objs@, face_objs@),
    {
        let mut list: Vec<FontDisplayInfo> = Vec::new();
        let mut i: usize = 0;
        let mut j: usize = 0;
        assert(col_objs@.skip(0) == col_objs@);
        assert(face_objs@.skip(0) == face_objs@);
        while i < col_objs.len() && j < face_objs.len()
            invariant
                i <= col_objs.len(),
                j <= face_objs.len(),
                list@ + weave(col_objs@.skip(i as int), face_objs@.skip(j as int)) == weave(
                    col_objs@,
                    face_objs@,
                ),
            decreases (col_objs.len() - i) + (face_objs.len() - j),
        {
            let col = col_objs[i];
            let face = face_objs[j];
            let ghost cols = col_objs@.skip(i as int);
            let ghost faces = face_objs@.skip(j as int);
            let ghost before = list@;
            assert(cols[0] == col && faces[0] == face);
            assert(cols.drop_first() == col_objs@.skip(i + 1));
            assert(faces.drop_first() == face_objs@.skip(j + 1));
            let start = if face.start <= col.start {
                col.start
            } else {
                face.start
            };
            let end = if face.end >= col.end {
                col.end
            } else {
                face.end
            };
            if start < end {
                list.push(FontDisplayInfo { face_idx: face.idx, col_idx: col.idx, start, end });
            }
            if face.end < col.end {
                j += 1;
            } else if col.end < face.end {
                i += 1;
            } else {
                i += 1;
                j += 1;
            }
            assert(list@ + weave(col_objs@.skip(i as int), face_objs@.skip(j as int)) == before
                + weave(cols, faces));
        }
        assert(weave(col_objs@.skip(i as int), face_objs@.skip(j as int)) == Seq::<
            FontDisplayInfo,
        >::empty());
        assert(list@ + Seq::<FontDisplayInfo>::empty() == list@);
        list
    }
}

} // verus!
