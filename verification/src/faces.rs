//! The font face of every character: the first font that can show it, unless
//! the markup asks for another.

use vstd::prelude::*;
use std::collections::HashMap;
use crate::chars::{code, lemma_code_injective, to_chars};
use crate::runs::{lemma_tiles_push, tiles, DisplayTemp, DEFAULT};

verus! {

/// The first position from `from` on at which `glyphs` holds `true`.
pub open spec fn first_from(glyphs: Seq<bool>, from: int) -> Option<int>
    decreases glyphs.len() - from,
{
    if from < 0 || from >= glyphs.len() {
        None
    } else if glyphs[from] {
        Some(from)
    } else {
        first_from(glyphs, from + 1)
    }
}

/// The face for a character of which `glyphs` says, font by font, whether the
/// font can show it: the first font that can, and the first font of all where
/// none can.
pub open spec fn default_face(glyphs: Seq<bool>) -> int {
    match first_from(glyphs, 0) {
        Some(i) => i,
        None => 0,
    }
}

/// `first_from` finds a position that holds `true`, with none before it, and
/// finds none only where there is none.
pub proof fn lemma_first_from(glyphs: Seq<bool>, from: int)
    requires
        0 <= from,
    ensures
        match first_from(glyphs, from) {
            Some(i) => from <= i < glyphs.len() && glyphs[i] && forall|j: int|
                from <= j < i ==> !glyphs[j],
            None => forall|j: int| from <= j < glyphs.len() ==> !glyphs[j],
        },
    decreases glyphs.len() - from,
{
    if from < glyphs.len() && !glyphs[from] {
        lemma_first_from(glyphs, from + 1);
    }
}

/// The face for a character, see `default_face`.
pub fn default_font_idx(glyphs: &[bool]) -> (idx: usize)
    ensures
        idx == default_face(glyphs@),
{
    let mut i: usize = 0;
    while i < glyphs.len()
        invariant
            i <= glyphs.len(),
            first_from(glyphs@, 0) == first_from(glyphs@, i as int),
        decreases glyphs.len() - i,
    {
        if glyphs[i] {
            return i;
        }
        i += 1;
    }
    0
}

/// The characters whose default face is known, each with that face.
pub struct FontMap {
    map: HashMap<u32, usize>,
}

impl View for FontMap {
    type V = Map<char, usize>;

    closed spec fn view(&self) -> Map<char, usize> {
        Map::new(|c: char| self.map@.contains_key(code(c)), |c: char| self.map@[code(c)])
    }
}

/// Every character of `text` has a face in `def`.
pub open spec fn covers(def: Map<char, usize>, text: Seq<char>) -> bool {
    forall|i: int| 0 <= i < text.len() ==> def.contains_key(#[trigger] text[i])
}

/// The characters of `text` that have no face in `def`, each once, in the
/// order in which they first occur.
pub open spec fn missing(def: Map<char, usize>, text: Seq<char>) -> Seq<char>
    decreases text.len(),
{
    if text.len() == 0 {
        Seq::empty()
    } else {
        let before = missing(def, text.drop_last());
        if def.contains_key(text.last()) || before.contains(text.last()) {
            before
        } else {
            before.push(text.last())
        }
    }
}

/// `def` after the faces of the characters `chars` were learnt, where
/// `glyphs[i]` says which fonts can show `chars[i]`. A face that is known
/// already stays.
pub open spec fn learnt(def: Map<char, usize>, chars: Seq<char>, glyphs: Seq<Seq<bool>>) -> Map<
    char,
    usize,
>
    decreases chars.len(),
{
    if chars.len() == 0 {
        def
    } else {
        let before = learnt(def, chars.drop_last(), glyphs.drop_last());
        if before.contains_key(chars.last()) {
            before
        } else {
            before.insert(chars.last(), default_face(glyphs.last()) as usize)
        }
    }
}

/// What `missing` lists is what has no face: each listed character occurs in
/// the text and not in `def`, and every character of the text is in `def` or
/// listed.
pub proof fn lemma_missing(def: Map<char, usize>, text: Seq<char>)
    ensures
        missing(def, text).no_duplicates(),
        forall|c: char| #[trigger]
            missing(def, text).contains(c) <==> text.contains(c) && !def.contains_key(c),
        missing(def, text).len() == 0 <==> covers(def, text),
    decreases text.len(),
{
    let m = missing(def, text);
    if text.len() > 0 {
        let front = text.drop_last();
        let before = missing(def, front);
        lemma_missing(def, front);
        assert forall|c: char| #[trigger] m.contains(c) <==> text.contains(c) && !def.contains_key(
            c,
        ) by {
            if m.contains(c) {
                let i = choose|i: int| 0 <= i < m.len() && m[i] == c;
                if i < before.len() {
                    assert(before[i] == c);
                    assert(before.contains(c));
                    assert(front.contains(c));
                    let j = choose|j: int| 0 <= j < front.len() && front[j] == c;
                    assert(text[j] == c);
                } else {
                    assert(text[text.len() - 1] == c);
                }
            }
            if text.contains(c) && !def.contains_key(c) {
                let j = choose|j: int| 0 <= j < text.len() && text[j] == c;
                if j < front.len() {
                    assert(front[j] == c);
                    assert(front.contains(c));
                    assert(before.contains(c));
                    let i = choose|i: int| 0 <= i < before.len() && before[i] == c;
                    assert(m[i] == c);
                } else if before.contains(c) {
                    let i = choose|i: int| 0 <= i < before.len() && before[i] == c;
                    assert(m[i] == c);
                } else {
                    assert(m[m.len() - 1] == c);
                }
            }
        }
        if m.len() == 0 {
            assert forall|i: int| 0 <= i < text.len() implies def.contains_key(
                #[trigger] text[i],
            ) by {
                assert(text.contains(text[i]));
                assert(!m.contains(text[i]));
            }
        } else {
            assert(m.contains(m[0]));
            let j = choose|j: int| 0 <= j < text.len() && text[j] == m[0];
            assert(!def.contains_key(text[j]));
        }
    } else {
        assert(!covers(def, text) ==> false);
    }
}

/// Learning keeps what was known and adds each of the characters learnt.
pub proof fn lemma_learnt(def: Map<char, usize>, chars: Seq<char>, glyphs: Seq<Seq<bool>>)
    ensures
        forall|c: char|
            def.contains_key(c) ==> #[trigger] learnt(def, chars, glyphs).contains_key(c) && learnt(
                def,
                chars,
                glyphs,
            )[c] == def[c],
        forall|i: int|
            0 <= i < chars.len() ==> learnt(def, chars, glyphs).contains_key(#[trigger] chars[i]),
    decreases chars.len(),
{
    if chars.len() > 0 {
        lemma_learnt(def, chars.drop_last(), glyphs.drop_last());
        let before = learnt(def, chars.drop_last(), glyphs.drop_last());
        assert forall|i: int| 0 <= i < chars.len() implies learnt(def, chars, glyphs).contains_key(
            #[trigger] chars[i],
        ) by {
            if i < chars.len() - 1 {
                assert(chars.drop_last()[i] == chars[i]);
                assert(before.contains_key(chars.drop_last()[i]));
            }
        }
    }
}

/// Once the characters that `missing` lists are learnt, no character of the
/// text is without a face.
pub proof fn lemma_learnt_covers(def: Map<char, usize>, text: Seq<char>, glyphs: Seq<Seq<bool>>)
    ensures
        covers(learnt(def, missing(def, text), glyphs), text),
        missing(learnt(def, missing(def, text), glyphs), text).len() == 0,
{
    let chars = missing(def, text);
    let after = learnt(def, chars, glyphs);
    lemma_missing(def, text);
    lemma_learnt(def, chars, glyphs);
    assert forall|i: int| 0 <= i < text.len() implies after.contains_key(#[trigger] text[i]) by {
        assert(text.contains(text[i]));
        if !def.contains_key(text[i]) {
            assert(chars.contains(text[i]));
            let k = choose|k: int| 0 <= k < chars.len() && chars[k] == text[i];
            assert(after.contains_key(chars[k]));
        }
    }
    lemma_missing(after, text);
}

impl FontMap {
    /// The map that knows no character.
    pub fn new() -> (def: FontMap)
        ensures
            def@ == Map::<char, usize>::empty(),
    {
        let def = FontMap { map: HashMap::new() };
        assert(def@ =~= Map::<char, usize>::empty());
        def
    }

    /// The face of `ch`, if it is known.
    pub fn get(&self, ch: char) -> (face: Option<usize>)
        ensures
            face == if self@.contains_key(ch) {
                Some(self@[ch])
            } else {
                None::<usize>
            },
    {
        match self.map.get(&(ch as u32)) {
            Some(face) => Some(*face),
            None => None,
        }
    }

    /// The characters of `text` whose face is not known, each once, in the
    /// order in which they first occur.
    pub fn missing(&self, text: &str) -> (chars: Vec<char>)
        ensures
            chars@ == missing(self@, text@),
    {
        let text = to_chars(text);
        let mut chars: Vec<char> = Vec::new();
        let mut i: usize = 0;
        assert(text@.take(0) == Seq::<char>::empty());
        while i < text.len()
            invariant
                i <= text.len(),
                chars@ == missing(self@, text@.take(i as int)),
            decreases text.len() - i,
        {
            let ch = text[i];
            assert(text@.take(i + 1).drop_last() == text@.take(i as int));
            if self.get(ch).is_none() {
                let mut listed = false;
                let mut k: usize = 0;
                while k < chars.len()
                    invariant
                        k <= chars.len(),
                        listed <==> exists|j: int| 0 <= j < k && chars@[j] == ch,
                    decreases chars.len() - k,
                {
                    if chars[k] == ch {
                        listed = true;
                    }
                    k += 1;
                }
                if !listed {
                    chars.push(ch);
                }
            }
            i += 1;
        }
        assert(text@.take(i as int) == text@);
        chars
    }

    /// Learns the face of `ch` from `glyphs`, which says font by font whether
    /// the font can show `ch`. A face that is known already stays.
    pub fn learn(&mut self, ch: char, glyphs: &[bool])
        ensures
            final(self)@ == if old(self)@.contains_key(ch) {
                old(self)@
            } else {
                old(self)@.insert(ch, default_face(glyphs@) as usize)
            },
    {
        if self.get(ch).is_none() {
            let face = default_font_idx(glyphs);
            self.map.insert(ch as u32, face);
            assert forall|c: char| c != ch implies code(c) != code(ch) by {
                if code(c) == code(ch) {
                    lemma_code_injective(c, ch);
                }
            }
            assert(self@ =~= old(self)@.insert(ch, face));
        }
    }
}

/// The default face of every position of `text`.
pub open spec fn defaults(def: Map<char, usize>, text: Seq<char>) -> Seq<usize> {
    Seq::new(text.len(), |i: int| def[text[i]])
}

/// `faces` with the positions of `run` set to the run's face, where the run
/// asks for one.
pub open spec fn paint(faces: Seq<usize>, run: DisplayTemp) -> Seq<usize> {
    Seq::new(
        faces.len(),
        |i: int|
            if run.idx != DEFAULT && run.start <= i < run.end {
                run.idx
            } else {
                faces[i]
            },
    )
}

/// `faces` with every run of `runs` painted over it, one after the other: a
/// later run wins over an earlier one.
pub open spec fn overlay(faces: Seq<usize>, runs: Seq<DisplayTemp>) -> Seq<usize>
    decreases runs.len(),
{
    if runs.len() == 0 {
        faces
    } else {
        paint(overlay(faces, runs.drop_last()), runs.last())
    }
}

/// The runs that say what `faces` says: its longest stretches of one face,
/// in order.
pub open spec fn encode(faces: Seq<usize>) -> Seq<DisplayTemp>
    decreases faces.len(),
{
    if faces.len() == 0 {
        Seq::empty()
    } else {
        let before = encode(faces.drop_last());
        let at = (faces.len() - 1) as usize;
        if before.len() > 0 && before.last().idx == faces.last() {
            before.update(
                before.len() - 1,
                DisplayTemp { idx: before.last().idx, start: before.last().start, end: (at + 1) as usize },
            )
        } else {
            before.push(DisplayTemp { idx: faces.last(), start: at, end: (at + 1) as usize })
        }
    }
}

/// The face runs of a text: the default face of every character, the faces
/// that the markup asks for on top, as runs of one face each.
pub open spec fn resolved(def: Map<char, usize>, expl: Seq<DisplayTemp>, text: Seq<char>) -> Seq<
    DisplayTemp,
> {
    encode(overlay(defaults(def, text), expl))
}

/// Painting runs keeps the number of positions.
pub proof fn lemma_overlay_len(faces: Seq<usize>, runs: Seq<DisplayTemp>)
    ensures
        overlay(faces, runs).len() == faces.len(),
    decreases runs.len(),
{
    if runs.len() > 0 {
        lemma_overlay_len(faces, runs.drop_last());
    }
}

/// Where the explicit runs lie in order and apart, a position has the face of
/// the run that holds it, if that run asks for one, and its default face
/// otherwise.
pub proof fn lemma_overlay_ordered(faces: Seq<usize>, runs: Seq<DisplayTemp>, k: int, i: int)
    requires
        crate::runs::ordered(runs, faces.len() as int),
        0 <= k < runs.len(),
        runs[k].start <= i < runs[k].end,
    ensures
        overlay(faces, runs).len() == faces.len(),
        overlay(faces, runs)[i] == if runs[k].idx != DEFAULT {
            runs[k].idx
        } else {
            faces[i]
        },
    decreases runs.len(),
{
    lemma_overlay_len(faces, runs);
    lemma_overlay_len(faces, runs.drop_last());
    let front = runs.drop_last();
    if k < runs.len() - 1 {
        assert(runs[k].end <= runs[runs.len() - 1].start);
        assert(front[k] == runs[k]);
        assert forall|a: int, b: int| 0 <= a < b < front.len() implies (#[trigger] front[a]).end <= (
        #[trigger] front[b]).start by {
            assert(runs[a].end <= runs[b].start);
        }
        assert forall|a: int| 0 <= a < front.len() implies (#[trigger] front[a]).start
            < front[a].end <= faces.len() by {
            assert(runs[a].start < runs[a].end <= faces.len());
        }
        lemma_overlay_ordered(faces, front, k, i);
    } else {
        lemma_overlay_untouched(faces, front, i);
    }
}

/// A position that no run holds keeps its face.
pub proof fn lemma_overlay_untouched(faces: Seq<usize>, runs: Seq<DisplayTemp>, i: int)
    requires
        0 <= i < faces.len(),
        forall|k: int| 0 <= k < runs.len() ==> !((#[trigger] runs[k]).start <= i < runs[k].end),
    ensures
        overlay(faces, runs).len() == faces.len(),
        overlay(faces, runs)[i] == faces[i],
    decreases runs.len(),
{
    lemma_overlay_len(faces, runs);
    if runs.len() > 0 {
        let front = runs.drop_last();
        lemma_overlay_len(faces, front);
        assert forall|k: int| 0 <= k < front.len() implies !((#[trigger] front[k]).start <= i
            < front[k].end) by {
            assert(front[k] == runs[k]);
        }
        lemma_overlay_untouched(faces, front, i);
        assert(!(runs[runs.len() - 1].start <= i < runs[runs.len() - 1].end));
    }
}

/// Every position of `run` holds the run's face.
pub open spec fn uniform(faces: Seq<usize>, run: DisplayTemp) -> bool {
    forall|i: int| run.start <= i < run.end ==> #[trigger] faces[i] == run.idx
}

/// `runs` says what `faces` says in stretches that are as long as can be:
/// the runs tile the positions, each holds one face throughout, and no two
/// neighbours hold the same face.
pub open spec fn encodes(runs: Seq<DisplayTemp>, faces: Seq<usize>) -> bool {
    &&& tiles(runs, 0, faces.len() as int)
    &&& forall|k: int| 0 <= k < runs.len() ==> uniform(faces, #[trigger] runs[k])
    &&& forall|k: int| 0 <= k < runs.len() - 1 ==> (#[trigger] runs[k]).idx != runs[k + 1].idx
}

/// A run keeps its face when a position is added behind it.
proof fn lemma_uniform_push(faces: Seq<usize>, face: usize, run: DisplayTemp)
    requires
        uniform(faces, run),
        run.end <= faces.len(),
    ensures
        uniform(faces.push(face), run),
{
    assert forall|i: int| run.start <= i < run.end implies #[trigger] faces.push(face)[i]
        == run.idx by {
        assert(faces[i] == run.idx);
    }
}

/// One more position with the face of the last run makes that run longer.
proof fn lemma_encodes_extend(runs: Seq<DisplayTemp>, faces: Seq<usize>, face: usize)
    requires
        encodes(runs, faces),
        faces.len() < usize::MAX,
        runs.len() > 0,
        runs.last().idx == face,
    ensures
        encodes(
            runs.update(
                runs.len() - 1,
                DisplayTemp {
                    idx: runs.last().idx,
                    start: runs.last().start,
                    end: (faces.len() + 1) as usize,
                },
            ),
            faces.push(face),
        ),
{
    let last = runs.len() - 1;
    let longer = DisplayTemp {
        idx: runs.last().idx,
        start: runs.last().start,
        end: (faces.len() + 1) as usize,
    };
    let grown = runs.update(last, longer);
    let more = faces.push(face);
    assert(runs[last].start < runs[last].end);
    assert forall|k: int| 0 <= k < grown.len() implies (#[trigger] grown[k]).start
        < grown[k].end by {
        assert(runs[k].start < runs[k].end);
    }
    assert forall|k: int| 0 <= k < grown.len() - 1 implies (#[trigger] grown[k]).end == grown[k
        + 1].start by {
        assert(runs[k].end == runs[k + 1].start);
    }
    assert forall|k: int| 0 <= k < grown.len() implies uniform(more, #[trigger] grown[k]) by {
        assert(uniform(faces, runs[k]));
        crate::runs::lemma_tiles_within(runs, 0, faces.len() as int, k);
        lemma_uniform_push(faces, face, runs[k]);
        if k == last {
            assert forall|i: int| longer.start <= i < longer.end implies #[trigger] more[i]
                == longer.idx by {
                if i < faces.len() {
                    assert(faces[i] == runs[last].idx);
                }
            }
        }
    }
    assert forall|k: int| 0 <= k < grown.len() - 1 implies (#[trigger] grown[k]).idx != grown[k
        + 1].idx by {
        assert(runs[k].idx != runs[k + 1].idx);
    }
}

/// One more position with another face than the last run's starts a run.
proof fn lemma_encodes_push(runs: Seq<DisplayTemp>, faces: Seq<usize>, face: usize)
    requires
        encodes(runs, faces),
        faces.len() < usize::MAX,
        runs.len() > 0 ==> runs.last().idx != face,
    ensures
        encodes(
            runs.push(
                DisplayTemp {
                    idx: face,
                    start: faces.len() as usize,
                    end: (faces.len() + 1) as usize,
                },
            ),
            faces.push(face),
        ),
{
    let run = DisplayTemp { idx: face, start: faces.len() as usize, end: (faces.len() + 1) as usize };
    let grown = runs.push(run);
    let more = faces.push(face);
    lemma_tiles_push(runs, 0, faces.len() as int, run);
    assert forall|k: int| 0 <= k < grown.len() implies uniform(more, #[trigger] grown[k]) by {
        if k < runs.len() {
            assert(uniform(faces, runs[k]));
            crate::runs::lemma_tiles_within(runs, 0, faces.len() as int, k);
            lemma_uniform_push(faces, face, runs[k]);
        }
    }
    assert forall|k: int| 0 <= k < grown.len() - 1 implies (#[trigger] grown[k]).idx != grown[k
        + 1].idx by {
        if k < runs.len() - 1 {
            assert(runs[k].idx != runs[k + 1].idx);
        }
    }
}

/// What `encode` gives says what `faces` says, in stretches that are as long
/// as can be.
pub proof fn lemma_encode(faces: Seq<usize>)
    requires
        faces.len() <= usize::MAX,
    ensures
        encodes(encode(faces), faces),
    decreases faces.len(),
{
    if faces.len() > 0 {
        let front = faces.drop_last();
        let before = encode(front);
        lemma_encode(front);
        assert(faces == front.push(faces.last()));
        if before.len() > 0 && before.last().idx == faces.last() {
            lemma_encodes_extend(before, front, faces.last());
        } else {
            lemma_encodes_push(before, front, faces.last());
        }
    }
}

impl DisplayTemp {
    /// The face runs for the default faces `default`, one for each position
    /// of a text, and the runs `explicit` of the markup: the runs that ask
    /// for a face are painted over the default faces, a later run over an
    /// earlier one, and the result is cut into its longest stretches of one
    /// face. A run counts as far as it lies within the text.
    pub fn merge_font_faces(default: Vec<usize>, explicit: &[DisplayTemp]) -> (faces: Vec<
        DisplayTemp,
    >)
        ensures
            faces@ == encode(overlay(default@, explicit@)),
            encodes(faces@, overlay(default@, explicit@)),
            tiles(faces@, 0, default@.len() as int),
    {
        let mut dense = default;
        let ghost base = dense@;
        let mut k: usize = 0;
        while k < explicit.len()
            invariant
                k <= explicit.len(),
                dense@ == overlay(base, explicit@.take(k as int)),
                dense@.len() == base.len(),
            decreases explicit.len() - k,
        {
            let run = explicit[k];
            let ghost before = dense@;
            if run.idx != DEFAULT {
                let end = if run.end < dense.len() {
                    run.end
                } else {
                    dense.len()
                };
                let mut j: usize = run.start;
                while j < end
                    invariant
                        end <= dense.len(),
                        end <= run.end,
                        run.start <= j,
                        j <= end || j == run.start,
                        dense@.len() == before.len(),
                        forall|p: int|
                            0 <= p < dense@.len() ==> dense@[p] == if run.start <= p < j {
                                run.idx
                            } else {
                                before[p]
                            },
                    decreases end - j,
                {
                    dense.set(j, run.idx);
                    j += 1;
                }
            }
            assert(dense@ =~= paint(before, run));
            k += 1;
            assert(explicit@.take(k as int).drop_last() == explicit@.take(k - 1));
        }
        assert(explicit@.take(k as int) == explicit@);
        let mut faces: Vec<DisplayTemp> = Vec::new();
        let mut at: usize = 0;
        assert(dense@.take(0) == Seq::<usize>::empty());
        while at < dense.len()
            invariant
                at <= dense.len(),
                faces@ == encode(dense@.take(at as int)),
            decreases dense.len() - at,
        {
            let face = dense[at];
            assert(dense@.take(at + 1).drop_last() == dense@.take(at as int));
            let n = faces.len();
            if n > 0 && faces[n - 1].idx == face {
                let last = faces[n - 1];
                faces.set(n - 1, DisplayTemp::from(last.idx, last.start, at + 1));
            } else {
                faces.push(DisplayTemp::from(face, at, at + 1));
            }
            at += 1;
        }
        assert(dense@.take(at as int) == dense@);
        proof {
            lemma_encode(dense@);
        }
        faces
    }

    /// The face runs of `text`: every character gets its default face from
    /// `def`, the runs of `expl` that ask for a face are painted on top, and
    /// the result is cut into its longest stretches of one face. There is a
    /// result if and only if `def` has a face for every character of the
    /// text.
    pub fn default_font_faces(def: &FontMap, expl: &[DisplayTemp], text: &str) -> (faces: Option<
        Vec<DisplayTemp>,
    >)
        ensures
            match faces {
                Some(runs) => covers(def@, text@) && runs@ == resolved(def@, expl@, text@),
                None => !covers(def@, text@),
            },
            faces matches Some(runs) ==> tiles(runs@, 0, text@.len() as int),
    {
        let chars = to_chars(text);
        let mut dense: Vec<usize> = Vec::new();
        let mut i: usize = 0;
        while i < chars.len()
            invariant
                i <= chars.len(),
                chars@ == text@,
                dense@ == defaults(def@, text@.take(i as int)),
                covers(def@, text@.take(i as int)),
            decreases chars.len() - i,
        {
            match def.get(chars[i]) {
                Some(face) => {
                    dense.push(face);
                },
                None => {
                    return None;
                },
            }
            i += 1;
            assert(dense@ =~= defaults(def@, text@.take(i as int)));
        }
        assert(text@.take(i as int) == text@);
        Some(DisplayTemp::merge_font_faces(dense, expl))
    }
}

} // verus!
