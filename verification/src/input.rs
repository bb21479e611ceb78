//! One line of the bar: its text, its glyph runs and its bars.
//!
//! Two things about a line only the fonts can tell: which fonts can show a
//! character, and how wide a piece of text is. `Input::parse_line` makes a
//! line in one call and asks a `FontMetrics` for both.
//!
//! The same can be done in steps, by a caller that asks the fonts itself.
//! `Input::parse_string` reads the markup and lays the text out. Where it
//! meets characters whose face it does not know, it asks for them, and is
//! called again once `FontMap::learn` has them. Else it asks for the widths
//! of the line's pieces of text, and `Input::place` turns them into the
//! pixels of the bars.

use vstd::prelude::*;
use crate::chars::{substring, to_chars};
use crate::faces::{
    covers, default_face, defaults, encode, learnt, lemma_encode, lemma_first_from, lemma_learnt,
    lemma_learnt_covers, lemma_missing, lemma_overlay_len, missing, overlay, FontMap,
};
use crate::glyphs::{
    chain, lemma_chain_front, lemma_chain_len, lemma_weave_partition, partition, weave,
    FontDisplayInfo,
};
use crate::markup::{lemma_tokens_wf, tokens, Limits, Markup, Refused};
use crate::rects::{bars, lemma_bars_forward, monotone, total_width, RectDisplayInfo};
use crate::runs::{ordered, tiles, DisplayTemp};

verus! {

/// How many colours there are to choose from for backgrounds, for underlines
/// and for the font.
#[derive(Clone, Copy, Debug, PartialEq, Eq, Structural)]
pub struct ColourPalette {
    /// Number of background colours.
    pub background: usize,
    /// Number of underline colours.
    pub underline: usize,
    /// Number of font colours.
    pub font: usize,
}

impl ColourPalette {
    /// The palette without any colour.
    pub fn empty() -> (palette: ColourPalette)
        ensures
            palette == (ColourPalette { background: 0, underline: 0, font: 0 }),
    {
        ColourPalette { background: 0, underline: 0, font: 0 }
    }

    /// What the markup may ask for with these colours and `faces` fonts.
    pub open spec fn limits(self, faces: usize) -> Limits {
        Limits {
            background: self.background,
            underline: self.underline,
            font: self.font,
            faces,
        }
    }
}

/// The pieces of text of one glyph run whose widths are asked for: for each
/// of its positions, the run's text up to and with that position, in the
/// run's face.
pub open spec fn prefixes(run: FontDisplayInfo) -> Seq<DisplayTemp> {
    Seq::new(
        (run.end - run.start) as nat,
        |k: int|
            DisplayTemp { idx: run.face_idx, start: run.start, end: (run.start + k + 1) as usize },
    )
}

/// The pieces of text of a line whose widths are asked for, glyph run by
/// glyph run. For glyph runs that cover a text there is one piece for each
/// position of the text, and the piece for a position ends behind it.
pub open spec fn probes(runs: Seq<FontDisplayInfo>) -> Seq<DisplayTemp>
    decreases runs.len(),
{
    if runs.len() == 0 {
        Seq::empty()
    } else {
        probes(runs.drop_last()) + prefixes(runs.last())
    }
}

/// The pieces of text of a line are one for each position of its text: for
/// glyph runs that cover the positions from `from` up to `to`, the piece for
/// a position starts with the glyph run that holds the position, ends behind
/// the position, and has that run's face.
pub proof fn lemma_probes(runs: Seq<FontDisplayInfo>, from: int, to: int)
    requires
        chain(runs, from, to),
        to <= usize::MAX,
    ensures
        probes(runs).len() == to - from,
        forall|i: int|
            0 <= i < to - from ==> (#[trigger] probes(runs)[i]).end == from + i + 1 && exists|k: int|
                0 <= k < runs.len() && (#[trigger] runs[k]).start == probes(runs)[i].start
                    && runs[k].face_idx == probes(runs)[i].idx && runs[k].start <= from + i
                    < runs[k].end,
    decreases runs.len(),
{
    if runs.len() > 0 {
        let front = runs.drop_last();
        let last = runs.last();
        lemma_chain_front(runs, from, to);
        lemma_probes(front, from, last.start as int);
        let all = probes(runs);
        assert forall|i: int| 0 <= i < to - from implies (#[trigger] all[i]).end == from + i + 1
            && exists|k: int|
            0 <= k < runs.len() && (#[trigger] runs[k]).start == all[i].start && runs[k].face_idx
                == all[i].idx && runs[k].start <= from + i < runs[k].end by {
            if i < last.start - from {
                assert(all[i] == probes(front)[i]);
                let k = choose|k: int|
                    0 <= k < front.len() && (#[trigger] front[k]).start == probes(front)[i].start
                        && front[k].face_idx == probes(front)[i].idx && front[k].start <= from + i
                        < front[k].end;
                assert(runs[k] == front[k]);
            } else {
                assert(all[i] == prefixes(last)[i - (last.start - from)]);
                assert(runs[runs.len() - 1] == last);
            }
        }
    }
}

/// What an `Input` holds.
pub struct Line {
    /// The text that is shown.
    pub text: Seq<char>,
    /// The glyph runs of the text.
    pub text_display: Seq<FontDisplayInfo>,
    /// The background bars, in pixels.
    pub backgrounds: Seq<RectDisplayInfo>,
    /// The underline bars, in pixels.
    pub underlines: Seq<RectDisplayInfo>,
    /// The runs of the background bars, in positions of the text.
    pub background_runs: Seq<DisplayTemp>,
    /// The runs of the underline bars, in positions of the text.
    pub underline_runs: Seq<DisplayTemp>,
    /// The measured widths, one for each position of the text, once they are
    /// there.
    pub widths: Seq<u32>,
    /// The directives of the markup that asked for a value that is not on
    /// offer.
    pub refused: Seq<Refused>,
}

impl Line {
    /// The line without text.
    pub open spec fn empty() -> Line {
        Line {
            text: Seq::empty(),
            text_display: Seq::empty(),
            backgrounds: Seq::empty(),
            underlines: Seq::empty(),
            background_runs: Seq::empty(),
            underline_runs: Seq::empty(),
            widths: Seq::empty(),
            refused: Seq::empty(),
        }
    }

    /// The line has its widths, and with them its bars.
    pub open spec fn measured(self) -> bool {
        self.widths.len() == self.text.len()
    }

    /// The line as it is laid out from `input`, before it has its widths,
    /// where `faces` holds the default face of every position of the text:
    /// the text of the markup, the glyph runs woven from the markup's font
    /// colours and from its font faces over the default faces, and the runs
    /// of the bars.
    pub open spec fn laid_out(input: Seq<char>, limits: Limits, faces: Seq<usize>) -> Line {
        let t = tokens(input, limits);
        Line {
            text: t.text,
            text_display: weave(t.font_colour, encode(overlay(faces, t.font_face))),
            backgrounds: Seq::empty(),
            underlines: Seq::empty(),
            background_runs: t.background,
            underline_runs: t.underline,
            widths: Seq::empty(),
            refused: t.refused,
        }
    }

    /// The line with the widths `widths`, and the bars that follow from
    /// them.
    pub open spec fn place(self, widths: Seq<u32>) -> Line {
        Line {
            backgrounds: bars(self.background_runs, self.text_display, widths),
            underlines: bars(self.underline_runs, self.text_display, widths),
            widths,
            ..self
        }
    }

    /// The pixel at which glyph run `k` starts, from the start of the line:
    /// the widths of the glyph runs before it together.
    pub open spec fn offset(self, k: int) -> int {
        total_width(self.text_display.take(k), self.widths)
    }

    /// The pixel width of the line: the widths of its glyph runs together.
    pub open spec fn len(self) -> int {
        if self.measured() {
            total_width(self.text_display, self.widths)
        } else {
            0
        }
    }

    /// What holds of every line: the glyph runs cover the text; the runs of
    /// the bars lie in the text, in order; a line with its widths has no
    /// more than `u32::MAX` positions, and the bars that follow from the
    /// widths; a line without has no bars yet.
    pub open spec fn wf(self) -> bool {
        &&& partition(self.text_display, self.text.len() as int)
        &&& ordered(self.background_runs, self.text.len() as int)
        &&& ordered(self.underline_runs, self.text.len() as int)
        &&& if self.measured() {
            &&& self.text.len() <= u32::MAX
            &&& self.backgrounds == bars(self.background_runs, self.text_display, self.widths)
            &&& self.underlines == bars(self.underline_runs, self.text_display, self.widths)
        } else {
            &&& self.widths.len() == 0
            &&& self.backgrounds.len() == 0
            &&& self.underlines.len() == 0
        }
    }
}

/// The glyph runs of every line cover its text: whatever the input, where
/// there is a default face for every position of the text, the glyph runs of
/// the line that is laid out follow one another without gap or overlap from
/// the first position of the text to its last, and so they do once the line
/// has its widths.
pub proof fn lemma_line_covered(input: Seq<char>, limits: Limits, faces: Seq<usize>, widths: Seq<u32>)
    requires
        input.len() <= usize::MAX,
        faces.len() == tokens(input, limits).text.len(),
    ensures
        partition(
            Line::laid_out(input, limits, faces).text_display,
            Line::laid_out(input, limits, faces).text.len() as int,
        ),
        Line::laid_out(input, limits, faces).place(widths).text_display == Line::laid_out(
            input,
            limits,
            faces,
        ).text_display,
        Line::laid_out(input, limits, faces).place(widths).text == Line::laid_out(
            input,
            limits,
            faces,
        ).text,
{
    let t = tokens(input, limits);
    lemma_tokens_wf(input, limits);
    lemma_overlay_len(faces, t.font_face);
    lemma_encode(overlay(faces, t.font_face));
    lemma_weave_partition(t.font_colour, encode(overlay(faces, t.font_face)), t.text.len() as int);
}

/// A known face is the default face of its character, whatever is learnt
/// after it.
proof fn lemma_defaults_kept(
    def: Map<char, usize>,
    text: Seq<char>,
    chars: Seq<char>,
    glyphs: Seq<Seq<bool>>,
)
    requires
        covers(def, text),
    ensures
        defaults(learnt(def, chars, glyphs), text) == defaults(def, text),
{
    lemma_learnt(def, chars, glyphs);
    let after = learnt(def, chars, glyphs);
    assert forall|i: int| 0 <= i < text.len() implies after[text[i]] == def[text[i]] by {
        assert(def.contains_key(text[i]));
        assert(after.contains_key(text[i]));
    }
    assert(defaults(after, text) =~= defaults(def, text));
}

/// Parsing a line again gives the same line. Once the characters that the
/// first parse asked for are learnt, with `glyphs` saying which fonts can
/// show each, every character of the text has a face, so that the line is
/// laid out; a further parse asks for no character; whatever should be
/// learnt after that, the default faces of the text stay as they are; and
/// the line that is laid out and given the widths `widths` is one line, a
/// function of the input, the limits, the faces and the widths alone.
pub proof fn lemma_parse_again(
    def: Map<char, usize>,
    input: Seq<char>,
    limits: Limits,
    glyphs: Seq<Seq<bool>>,
    chars: Seq<char>,
    more_glyphs: Seq<Seq<bool>>,
    widths: Seq<u32>,
)
    ensures
        ({
            let text = tokens(input, limits).text;
            let known = learnt(def, missing(def, text), glyphs);
            let after = learnt(known, chars, more_glyphs);
            &&& covers(known, text)
            &&& missing(known, text) == Seq::<char>::empty()
            &&& learnt(known, missing(known, text), more_glyphs) == known
            &&& Line::laid_out(input, limits, defaults(after, text)).place(widths)
                == Line::laid_out(input, limits, defaults(known, text)).place(widths)
        }),
{
    let text = tokens(input, limits).text;
    let known = learnt(def, missing(def, text), glyphs);
    lemma_learnt_covers(def, text, glyphs);
    assert(missing(known, text) =~= Seq::<char>::empty());
    lemma_defaults_kept(known, text, chars, more_glyphs);
}

/// The width of glyph runs with one more behind them.
proof fn lemma_total_push(runs: Seq<FontDisplayInfo>, run: FontDisplayInfo, widths: Seq<u32>)
    ensures
        total_width(runs.push(run), widths) == total_width(runs, widths) + widths[run.end - 1],
    decreases runs.len(),
{
    let more = runs.push(run);
    if runs.len() == 0 {
        assert(more.drop_first() == Seq::<FontDisplayInfo>::empty());
        assert(more[0] == run);
        assert(total_width(more.drop_first(), widths) == 0);
    } else {
        lemma_total_push(runs.drop_first(), run, widths);
        assert(more.drop_first() == runs.drop_first().push(run));
        assert(more[0] == runs[0]);
    }
}

/// The bars of a line run forward and come in the order of their runs: in a
/// line with its widths, in which no glyph run's text gets narrower as it
/// grows, every bar starts no later than it ends, and of two bars of one
/// kind the later one neither starts nor ends before the earlier one does.
pub proof fn lemma_line_bars(line: Line)
    requires
        line.wf(),
        line.measured(),
        monotone(line.text_display, line.widths),
    ensures
        forall|k: int|
            0 <= k < line.backgrounds.len() ==> (#[trigger] line.backgrounds[k]).start
                <= line.backgrounds[k].end,
        forall|k: int|
            0 <= k < line.underlines.len() ==> (#[trigger] line.underlines[k]).start
                <= line.underlines[k].end,
        forall|k: int, l: int|
            0 <= k < l < line.backgrounds.len() ==> (#[trigger] line.backgrounds[k]).start <= (
            #[trigger] line.backgrounds[l]).start && line.backgrounds[k].end
                <= line.backgrounds[l].end,
        forall|k: int, l: int|
            0 <= k < l < line.underlines.len() ==> (#[trigger] line.underlines[k]).start <= (
            #[trigger] line.underlines[l]).start && line.underlines[k].end <= line.underlines[l].end,
{
    lemma_bars_forward(line.background_runs, line.text_display, line.widths);
    lemma_bars_forward(line.underline_runs, line.text_display, line.widths);
}

/// What `Input::parse_string` asks of its caller.
#[derive(Debug, PartialEq, Eq)]
pub enum Request {
    /// The faces of these characters are not known. Nothing was laid out:
    /// learn them with `FontMap::learn` and parse again.
    Glyphs(Vec<char>),
    /// The line is laid out. Measure each of these pieces of its text, run
    /// `idx` being the face and `start..end` the positions, and hand the
    /// widths to `Input::place` in this order.
    Widths(Vec<DisplayTemp>),
}

/// One line of the bar.
#[derive(Debug, PartialEq, Eq)]
pub struct Input {
    text: String,
    text_display: Vec<FontDisplayInfo>,
    backgrounds: Vec<RectDisplayInfo>,
    underlines: Vec<RectDisplayInfo>,
    background_runs: Vec<DisplayTemp>,
    underline_runs: Vec<DisplayTemp>,
    widths: Vec<u32>,
    refused: Vec<Refused>,
}

impl View for Input {
    type V = Line;

    closed spec fn view(&self) -> Line {
        Line {
            text: self.text@,
            text_display: self.text_display@,
            backgrounds: self.backgrounds@,
            underlines: self.underlines@,
            background_runs: self.background_runs@,
            underline_runs: self.underline_runs@,
            widths: self.widths@,
            refused: self.refused@,
        }
    }
}

/// The pieces of text of one glyph run, see `prefixes`.
fn prefixes_of(run: FontDisplayInfo, list: &mut Vec<DisplayTemp>)
    requires
        run.start <= run.end,
    ensures
        final(list)@ == old(list)@ + prefixes(run),
{
    let mut at: usize = run.start;
    while at < run.end
        invariant
            run.start <= at <= run.end,
            list@.len() == old(list)@.len() + (at - run.start),
            forall|i: int| 0 <= i < old(list)@.len() ==> list@[i] == old(list)@[i],
            forall|k: int|
                0 <= k < at - run.start ==> list@[old(list)@.len() + k] == prefixes(run)[k],
        decreases run.end - at,
    {
        list.push(DisplayTemp::from(run.face_idx, run.start, at + 1));
        at += 1;
    }
    assert(list@ =~= old(list)@ + prefixes(run));
}

/// The widths that `metrics` gives for the pieces `pieces` of the text
/// `text`.
pub(crate) fn ask_widths<M: FontMetrics>(metrics: &M, text: &str, pieces: &Vec<DisplayTemp>) -> (widths:
    Vec<u32>)
    requires
        forall|j: int|
            0 <= j < pieces@.len() ==> (#[trigger] pieces@[j]).start <= pieces@[j].end
                <= text@.len(),
    ensures
        widths@.len() == pieces@.len(),
{
    let chars = to_chars(text);
    let mut widths: Vec<u32> = Vec::new();
    let mut i: usize = 0;
    while i < pieces.len()
        invariant
            i <= pieces.len(),
            widths@.len() == i,
            forall|j: int|
                0 <= j < pieces@.len() ==> (#[trigger] pieces@[j]).start <= pieces@[j].end
                    <= chars@.len(),
        decreases pieces.len() - i,
    {
        let piece = pieces[i];
        let chunk = substring(&chars, piece.start, piece.end);
        widths.push(metrics.measure(piece.idx, chunk.as_str()));
        i += 1;
    }
    widths
}

/// The pieces of text of a line, see `probes`.
fn probes_of(runs: &Vec<FontDisplayInfo>) -> (list: Vec<DisplayTemp>)
    requires
        forall|k: int| 0 <= k < runs@.len() ==> (#[trigger] runs@[k]).start <= runs@[k].end,
    ensures
        list@ == probes(runs@),
{
    let mut list: Vec<DisplayTemp> = Vec::new();
    let mut k: usize = 0;
    assert(runs@.take(0) == Seq::<FontDisplayInfo>::empty());
    while k < runs.len()
        invariant
            k <= runs.len(),
            forall|k: int| 0 <= k < runs@.len() ==> (#[trigger] runs@[k]).start <= runs@[k].end,
            list@ == probes(runs@.take(k as int)),
        decreases runs.len() - k,
    {
        prefixes_of(runs[k], &mut list);
        k += 1;
        assert(runs@.take(k as int).drop_last() == runs@.take(k - 1));
    }
    assert(runs@.take(k as int) == runs@);
    list
}

impl Input {
    #[verifier::type_invariant]
    spec fn inv(self) -> bool {
        self@.wf()
    }

    /// The line without text.
    pub fn empty() -> (line: Input)
        ensures
            line@ == Line::empty(),
            line@.wf(),
    {
        assert(bars(Seq::<DisplayTemp>::empty(), Seq::<FontDisplayInfo>::empty(), Seq::<u32>::empty())
            =~= Seq::<RectDisplayInfo>::empty());
        Input {
            text: String::new(),
            text_display: Vec::new(),
            backgrounds: Vec::new(),
            underlines: Vec::new(),
            background_runs: Vec::new(),
            underline_runs: Vec::new(),
            widths: Vec::new(),
            refused: Vec::new(),
        }
    }

    /// Empties the line.
    pub fn clear(&mut self)
        ensures
            final(self)@ == Line::empty(),
    {
        *self = Input::empty();
    }

    /// The text that is shown.
    pub fn text(&self) -> (text: &String)
        ensures
            text@ == self@.text,
    {
        &self.text
    }

    /// The glyph runs. They cover the text.
    pub fn text_display(&self) -> (runs: &Vec<FontDisplayInfo>)
        ensures
            runs@ == self@.text_display,
            partition(runs@, self@.text.len() as int),
    {
        proof {
            use_type_invariant(self);
        }
        &self.text_display
    }

    /// The background bars. There are none before the line has its widths.
    pub fn backgrounds(&self) -> (list: &Vec<RectDisplayInfo>)
        ensures
            list@ == self@.backgrounds,
    {
        &self.backgrounds
    }

    /// The underline bars. There are none before the line has its widths.
    pub fn underlines(&self) -> (list: &Vec<RectDisplayInfo>)
        ensures
            list@ == self@.underlines,
    {
        &self.underlines
    }

    /// The directives of the markup that changed nothing, because they
    /// asked for a value that is not on offer.
    pub fn refused(&self) -> (list: &Vec<Refused>)
        ensures
            list@ == self@.refused,
    {
        &self.refused
    }

    /// Whether the line has its widths.
    pub fn is_measured(&self) -> (measured: bool)
        ensures
            measured == self@.measured(),
            self@.wf(),
    {
        proof {
            use_type_invariant(self);
            lemma_chain_len(self@.text_display, 0, self@.text.len() as int);
        }
        self.widths.len() == self.count()
    }

    /// The number of positions of the text.
    fn count(&self) -> (count: usize)
        ensures
            count == self@.text.len(),
    {
        proof {
            use_type_invariant(self);
        }
        let runs = self.text_display.len();
        if runs == 0 {
            0
        } else {
            self.text_display[runs - 1].end
        }
    }

    /// The pixel width of the line: the widths of its glyph runs together,
    /// and 0 before the line has its widths.
    pub fn len(&self) -> (width: u64)
        ensures
            width == self@.len(),
    {
        proof {
            use_type_invariant(self);
            lemma_chain_len(self@.text_display, 0, self@.text.len() as int);
        }
        if !self.is_measured() {
            return 0;
        }
        let mut width: u64 = 0;
        let mut k: usize = 0;
        assert(self.text_display@.skip(0) == self.text_display@);
        while k < self.text_display.len()
            invariant
                k <= self.text_display.len() <= self.widths@.len() <= u32::MAX,
                partition(self.text_display@, self.widths@.len() as int),
                width <= k * u32::MAX,
                width + total_width(self.text_display@.skip(k as int), self.widths@) == total_width(
                    self.text_display@,
                    self.widths@,
                ),
            decreases self.text_display.len() - k,
        {
            let run = self.text_display[k];
            proof {
                let rest = self.text_display@.skip(k as int);
                assert(rest[0] == run);
                assert(rest.drop_first() == self.text_display@.skip(k + 1));
                crate::glyphs::lemma_chain_tiles(self.text_display@, 0, self.widths@.len() as int);
                crate::runs::lemma_tiles_within(
                    crate::glyphs::spans(self.text_display@),
                    0,
                    self.widths@.len() as int,
                    k as int,
                );
            }
            width = width + self.widths[run.end - 1] as u64;
            k += 1;
        }
        width
    }

    /// The pixels at which the glyph runs start, from the start of the line,
    /// one for each glyph run; none before the line has its widths.
    pub fn offsets(&self) -> (list: Vec<u64>)
        ensures
            list@.len() == if self@.measured() {
                self@.text_display.len()
            } else {
                0
            },
            forall|k: int| 0 <= k < list@.len() ==> list@[k] == self@.offset(k),
    {
        proof {
            use_type_invariant(self);
            lemma_chain_len(self@.text_display, 0, self@.text.len() as int);
        }
        let mut list: Vec<u64> = Vec::new();
        if !self.is_measured() {
            return list;
        }
        let mut width: u64 = 0;
        let mut k: usize = 0;
        assert(self.text_display@.take(0) == Seq::<FontDisplayInfo>::empty());
        while k < self.text_display.len()
            invariant
                k <= self.text_display.len() <= self.widths@.len() <= u32::MAX,
                partition(self.text_display@, self.widths@.len() as int),
                self.text_display@ == self@.text_display,
                self.widths@ == self@.widths,
                width <= k * u32::MAX,
                width == total_width(self.text_display@.take(k as int), self.widths@),
                list@.len() == k,
                forall|j: int| 0 <= j < k ==> list@[j] == self@.offset(j),
            decreases self.text_display.len() - k,
        {
            let run = self.text_display[k];
            proof {
                crate::glyphs::lemma_chain_tiles(self.text_display@, 0, self.widths@.len() as int);
                crate::runs::lemma_tiles_within(
                    crate::glyphs::spans(self.text_display@),
                    0,
                    self.widths@.len() as int,
                    k as int,
                );
                lemma_total_push(self.text_display@.take(k as int), run, self.widths@);
                assert(self.text_display@.take(k + 1) == self.text_display@.take(k as int).push(run));
            }
            list.push(width);
            width = width + self.widths[run.end - 1] as u64;
            k += 1;
        }
        list
    }

    /// Reads the markup of `input` and lays the line out, for a bar with the
    /// colours `colours` and `faces` fonts, and with the default faces
    /// `def_font_map`.
    ///
    /// Where `def_font_map` knows every character of the text, the line is
    /// laid out and the answer lists the pieces of text to measure. Else the
    /// line is left empty and the answer lists the characters that are not
    /// known, each once. No markup is refused.
    pub fn parse_string(
        &mut self,
        def_font_map: &FontMap,
        colours: &ColourPalette,
        faces: usize,
        input: &str,
    ) -> (request: Request)
        ensures
            final(self)@.wf(),
            match request {
                Request::Glyphs(chars) => {
                    &&& !covers(def_font_map@, tokens(input@, colours.limits(faces)).text)
                    &&& chars@ == missing(
                        def_font_map@,
                        tokens(input@, colours.limits(faces)).text,
                    )
                    &&& final(self)@ == Line::empty()
                },
                Request::Widths(pieces) => {
                    &&& covers(def_font_map@, tokens(input@, colours.limits(faces)).text)
                    &&& final(self)@ == Line::laid_out(
                        input@,
                        colours.limits(faces),
                        defaults(def_font_map@, tokens(input@, colours.limits(faces)).text),
                    )
                    &&& pieces@ == probes(final(self)@.text_display)
                },
            },
    {
        let limits = Limits {
            background: colours.background,
            underline: colours.underline,
            font: colours.font,
            faces,
        };
        let markup = Markup::parse(input, &limits);
        match DisplayTemp::default_font_faces(
            def_font_map,
            markup.font_face.as_slice(),
            markup.text.as_str(),
        ) {
            None => {
                let chars = def_font_map.missing(markup.text.as_str());
                *self = Input::empty();
                Request::Glyphs(chars)
            },
            Some(face_runs) => {
                let (line, pieces) = Input::lay_out(markup, face_runs);
                *self = line;
                Request::Widths(pieces)
            },
        }
    }

    /// The line with the text, the colours and the bars of `markup` and with
    /// the face runs `face_runs`, and the pieces of its text to measure.
    pub(crate) fn lay_out(markup: Markup, face_runs: Vec<DisplayTemp>) -> (laid: (
        Input,
        Vec<DisplayTemp>,
    ))
        requires
            ordered(markup@.background, markup@.text.len() as int),
            ordered(markup@.underline, markup@.text.len() as int),
            tiles(markup@.font_colour, 0, markup@.text.len() as int),
            tiles(face_runs@, 0, markup@.text.len() as int),
        ensures
            laid.0@ == (Line {
                text: markup@.text,
                text_display: weave(markup@.font_colour, face_runs@),
                backgrounds: Seq::empty(),
                underlines: Seq::empty(),
                background_runs: markup@.background,
                underline_runs: markup@.underline,
                widths: Seq::empty(),
                refused: markup@.refused,
            }),
            laid.0@.wf(),
            laid.1@ == probes(laid.0@.text_display),
    {
        let text_display = FontDisplayInfo::generate_list(
            markup.font_colour.as_slice(),
            face_runs.as_slice(),
        );
        proof {
            lemma_weave_partition(markup@.font_colour, face_runs@, markup@.text.len() as int);
            assert forall|k: int| 0 <= k < text_display@.len() implies (
            #[trigger] text_display@[k]).start <= text_display@[k].end by {
                assert(text_display@[k].start < text_display@[k].end);
            }
        }
        let pieces = probes_of(&text_display);
        proof {
            if markup@.text.len() == 0 {
                if markup@.background.len() > 0 {
                    assert(markup@.background[0].start < markup@.background[0].end);
                }
                if markup@.underline.len() > 0 {
                    assert(markup@.underline[0].start < markup@.underline[0].end);
                }
                assert(bars(markup@.background, text_display@, Seq::<u32>::empty())
                    =~= Seq::<RectDisplayInfo>::empty());
                assert(bars(markup@.underline, text_display@, Seq::<u32>::empty())
                    =~= Seq::<RectDisplayInfo>::empty());
            }
        }
        let line = Input {
            text: markup.text,
            text_display,
            backgrounds: Vec::new(),
            underlines: Vec::new(),
            background_runs: markup.background,
            underline_runs: markup.underline,
            widths: Vec::new(),
            refused: markup.refused,
        };
        (line, pieces)
    }

    /// Gives the line its widths, one for each position of its text as
    /// `parse_string` asked for them, and with them its bars. A list of
    /// another length than the text, or of more than `u32::MAX` widths, is
    /// refused and leaves the line as it was.
    pub fn place(&mut self, widths: &[u32]) -> (placed: bool)
        ensures
            final(self)@.wf(),
            placed == (widths@.len() == old(self)@.text.len() && widths@.len() <= u32::MAX),
            final(self)@ == if placed {
                old(self)@.place(widths@)
            } else {
                old(self)@
            },
    {
        proof {
            use_type_invariant(&*self);
        }
        if widths.len() != self.count() || widths.len() > u32::MAX as usize {
            return false;
        }
        let backgrounds = RectDisplayInfo::gen_list(
            self.background_runs.as_slice(),
            self.text_display.as_slice(),
            widths,
        );
        let underlines = RectDisplayInfo::gen_list(
            self.underline_runs.as_slice(),
            self.text_display.as_slice(),
            widths,
        );
        let mut kept: Vec<u32> = Vec::new();
        let mut i: usize = 0;
        while i < widths.len()
            invariant
                i <= widths.len(),
                kept@ == widths@.take(i as int),
            decreases widths.len() - i,
        {
            kept.push(widths[i]);
            i += 1;
            assert(widths@.take(i as int) == widths@.take(i - 1).push(widths@[i - 1]));
        }
        assert(widths@.take(i as int) == widths@);
        let mut line = Input::empty();
        std::mem::swap(self, &mut line);
        let Input { text, text_display, background_runs, underline_runs, refused, .. } = line;
        *self = Input {
            text,
            text_display,
            backgrounds,
            underlines,
            background_runs,
            underline_runs,
            widths: kept,
            refused,
        };
        true
    }
}

/// What the fonts of a display can tell about text. Nothing is taken for
/// granted of the answers.
pub trait FontMetrics {
    /// Whether the font `face` can show `ch`.
    fn supports(&self, face: usize, ch: char) -> bool;

    /// The pixel width of `text` in the font `face`.
    fn measure(&self, face: usize, text: &str) -> u32;
}

/// Asks the fonts, from the first on, whether they can show `ch`, up to the
/// first that can. The answers come back in the order of the fonts: there
/// are no more of them than fonts, none but the last is a yes, and with
/// fewer answers than fonts the last one is a yes. So the default face that
/// follows from them is the font that said yes, and the first font where
/// none did.
pub(crate) fn ask_glyphs<M: FontMetrics>(metrics: &M, faces: usize, ch: char) -> (glyphs: Vec<bool>)
    ensures
        glyphs@.len() <= faces,
        forall|j: int| 0 <= j < glyphs@.len() - 1 ==> !glyphs@[j],
        glyphs@.len() < faces ==> glyphs@.len() > 0 && glyphs@.last(),
        default_face(glyphs@) == if glyphs@.len() > 0 && glyphs@.last() {
            glyphs@.len() - 1
        } else {
            0
        },
{
    let mut glyphs: Vec<bool> = Vec::new();
    let mut face: usize = 0;
    while face < faces
        invariant
            face <= faces,
            glyphs@.len() == face,
            forall|j: int| 0 <= j < face ==> !glyphs@[j],
        decreases faces - face,
    {
        let shows = metrics.supports(face, ch);
        glyphs.push(shows);
        if shows {
            proof {
                lemma_first_from(glyphs@, 0);
            }
            return glyphs;
        }
        face += 1;
    }
    proof {
        lemma_first_from(glyphs@, 0);
    }
    glyphs
}

impl Input {
    /// Makes the line of `input` in one go, asking `metrics` for what only
    /// the fonts can tell: for each character of the text that
    /// `def_font_map` does not know, which of the `faces` fonts can show it,
    /// and for each piece of text its width.
    ///
    /// Whatever the answers are: every character of the text has a face
    /// afterwards, with the faces that were known unchanged; the line is
    /// the line of `input` laid out with these faces; and it has its widths
    /// and its bars, unless its text has more than `u32::MAX` positions.
    pub fn parse_line<M: FontMetrics>(
        &mut self,
        metrics: &M,
        def_font_map: &mut FontMap,
        colours: &ColourPalette,
        faces: usize,
        input: &str,
    )
        ensures
            final(self)@.wf(),
            covers(final(def_font_map)@, tokens(input@, colours.limits(faces)).text),
            exists|glyphs: Seq<Seq<bool>>|
                final(def_font_map)@ == learnt(
                    old(def_font_map)@,
                    missing(old(def_font_map)@, tokens(input@, colours.limits(faces)).text),
                    glyphs,
                ),
            final(self)@.measured() <==> tokens(input@, colours.limits(faces)).text.len()
                <= u32::MAX,
            final(self)@ == if final(self)@.measured() {
                Line::laid_out(
                    input@,
                    colours.limits(faces),
                    defaults(final(def_font_map)@, tokens(input@, colours.limits(faces)).text),
                ).place(final(self)@.widths)
            } else {
                Line::laid_out(
                    input@,
                    colours.limits(faces),
                    defaults(final(def_font_map)@, tokens(input@, colours.limits(faces)).text),
                )
            },
    {
        let ghost text = tokens(input@, colours.limits(faces)).text;
        let ghost known = def_font_map@;
        let ghost mut answers: Seq<Seq<bool>> = Seq::empty();
        let pieces = match self.parse_string(def_font_map, colours, faces, input) {
            Request::Widths(pieces) => {
                proof {
                    lemma_missing(known, text);
                    assert(missing(known, text) =~= Seq::<char>::empty());
                }
                pieces
            },
            Request::Glyphs(chars) => {
                let mut k: usize = 0;
                assert(chars@.take(0) == Seq::<char>::empty());
                while k < chars.len()
                    invariant
                        k <= chars.len(),
                        answers.len() == k,
                        def_font_map@ == learnt(known, chars@.take(k as int), answers),
                    decreases chars.len() - k,
                {
                    let glyphs = ask_glyphs(metrics, faces, chars[k]);
                    def_font_map.learn(chars[k], glyphs.as_slice());
                    proof {
                        let more = answers.push(glyphs@);
                        assert(chars@.take(k + 1).drop_last() == chars@.take(k as int));
                        assert(more.drop_last() == answers);
                        answers = more;
                    }
                    k += 1;
                }
                proof {
                    assert(chars@.take(k as int) == chars@);
                    lemma_learnt_covers(known, text, answers);
                }
                match self.parse_string(def_font_map, colours, faces, input) {
                    Request::Widths(pieces) => pieces,
                    Request::Glyphs(_) => Vec::new(),
                }
            },
        };
        assert(def_font_map@ == learnt(known, missing(known, text), answers));
        proof {
            use_type_invariant(&*self);
            lemma_chain_len(self@.text_display, 0, self@.text.len() as int);
            lemma_probes(self@.text_display, 0, self@.text.len() as int);
        }
        let widths = ask_widths(metrics, self.text.as_str(), &pieces);
        self.place(widths.as_slice());
    }
}

} // verus!
