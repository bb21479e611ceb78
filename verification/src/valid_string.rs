//! A line of the bar that looks up no default face: its caller says, for
//! every character of the text, which face it has where the markup asks for
//! none.

use vstd::prelude::*;
use crate::glyphs::{partition, FontDisplayInfo};
use crate::chars::to_chars;
use crate::faces::default_font_idx;
use crate::input::{
    ask_glyphs, ask_widths, lemma_probes, probes, ColourPalette, FontMetrics, Input, Line,
};
use crate::markup::{tokens, Limits, Markup, Refused};
use crate::rects::RectDisplayInfo;
use crate::runs::DisplayTemp;

verus! {

/// A run of one channel, under the name that this kind of line has for it.
pub type DisplayType = DisplayTemp;

/// One line of the bar.
#[derive(Debug, PartialEq, Eq)]
pub struct ValidString {
    line: Input,
}

impl View for ValidString {
    type V = Line;

    closed spec fn view(&self) -> Line {
        self.line@
    }
}

impl ValidString {
    /// The line without text.
    pub fn empty() -> (line: ValidString)
        ensures
            line@ == Line::empty(),
            line@.wf(),
    {
        ValidString { line: Input::empty() }
    }

    /// The text that is shown.
    pub fn text(&self) -> (text: &String)
        ensures
            text@ == self@.text,
    {
        self.line.text()
    }

    /// The glyph runs. They cover the text.
    pub fn text_display(&self) -> (runs: &Vec<FontDisplayInfo>)
        ensures
            runs@ == self@.text_display,
            partition(runs@, self@.text.len() as int),
    {
        self.line.text_display()
    }

    /// The background bars. There are none before the line has its widths.
    pub fn backgrounds(&self) -> (list: &Vec<RectDisplayInfo>)
        ensures
            list@ == self@.backgrounds,
    {
        self.line.backgrounds()
    }

    /// The underline bars. There are none before the line has its widths.
    pub fn highlights(&self) -> (list: &Vec<RectDisplayInfo>)
        ensures
            list@ == self@.underlines,
    {
        self.line.underlines()
    }

    /// The directives of the markup that changed nothing, because they
    /// asked for a value that is not on offer.
    pub fn refused(&self) -> (list: &Vec<Refused>)
        ensures
            list@ == self@.refused,
    {
        self.line.refused()
    }

    /// Whether the line has its widths.
    pub fn is_measured(&self) -> (measured: bool)
        ensures
            measured == self@.measured(),
            self@.wf(),
    {
        self.line.is_measured()
    }

    /// The pixel width of the line: the widths of its glyph runs together,
    /// and 0 before the line has its widths.
    pub fn len(&self) -> (width: u64)
        ensures
            width == self@.len(),
    {
        self.line.len()
    }

    /// The text that `input` shows: what `parse_input_string` wants a
    /// default face for, character by character.
    pub fn shown(input: &str, colours: &ColourPalette, faces: usize) -> (text: String)
        ensures
            text@ == tokens(input@, colours.limits(faces)).text,
    {
        let limits = Limits {
            background: colours.background,
            underline: colours.underline,
            font: colours.font,
            faces,
        };
        Markup::parse(input, &limits).text
    }

    /// Reads the markup of `input` and makes the line of it, for a bar with
    /// the colours `colours` and `faces` fonts, where `default_font_faces`
    /// holds the default face of every character of the text. The answer
    /// lists the pieces of text to measure. Default faces for a text of
    /// another length are refused: there is no answer then, and the line is
    /// left empty.
    pub fn parse_input_string(
        colours: &ColourPalette,
        faces: usize,
        default_font_faces: Vec<usize>,
        input: &str,
    ) -> (parsed: (ValidString, Option<Vec<DisplayTemp>>))
        ensures
            parsed.0@.wf(),
            match parsed.1 {
                Some(pieces) => {
                    &&& default_font_faces@.len() == tokens(input@, colours.limits(faces)).text.len()
                    &&& parsed.0@ == Line::laid_out(
                        input@,
                        colours.limits(faces),
                        default_font_faces@,
                    )
                    &&& pieces@ == probes(parsed.0@.text_display)
                },
                None => {
                    &&& default_font_faces@.len() != tokens(input@, colours.limits(faces)).text.len()
                    &&& parsed.0@ == Line::empty()
                },
            },
    {
        let limits = Limits {
            background: colours.background,
            underline: colours.underline,
            font: colours.font,
            faces,
        };
        let markup = Markup::parse(input, &limits);
        let count = if markup.font_colour.len() == 0 {
            0
        } else {
            markup.font_colour[markup.font_colour.len() - 1].end
        };
        if default_font_faces.len() != count {
            return (ValidString::empty(), None);
        }
        let face_runs = DisplayType::merge_font_faces(default_font_faces, markup.font_face.as_slice());
        let (line, pieces) = Input::lay_out(markup, face_runs);
        (ValidString { line }, Some(pieces))
    }

    /// Makes the line of `input` in one go, asking `metrics` for what only
    /// the fonts can tell: for each character of the text, which of the
    /// `faces` fonts can show it, and for each piece of text its width.
    ///
    /// Whatever the answers are, the line is the line of `input` laid out
    /// with some default face for each position of its text; and it has its
    /// widths and its bars, unless its text has more than `u32::MAX`
    /// positions.
    pub fn parse_line<M: FontMetrics>(
        metrics: &M,
        colours: &ColourPalette,
        faces: usize,
        input: &str,
    ) -> (line: ValidString)
        ensures
            line@.wf(),
            line@.measured() <==> tokens(input@, colours.limits(faces)).text.len() <= u32::MAX,
            exists|default_faces: Seq<usize>|
                default_faces.len() == tokens(input@, colours.limits(faces)).text.len() && line@
                    == if line@.measured() {
                    Line::laid_out(input@, colours.limits(faces), default_faces).place(line@.widths)
                } else {
                    Line::laid_out(input@, colours.limits(faces), default_faces)
                },
    {
        let shown = ValidString::shown(input, colours, faces);
        let chars = to_chars(shown.as_str());
        let mut default_faces: Vec<usize> = Vec::new();
        let mut i: usize = 0;
        while i < chars.len()
            invariant
                i <= chars.len(),
                default_faces@.len() == i,
            decreases chars.len() - i,
        {
            let glyphs = ask_glyphs(metrics, faces, chars[i]);
            default_faces.push(default_font_idx(glyphs.as_slice()));
            i += 1;
        }
        let ghost chosen = default_faces@;
        let (mut line, pieces) = ValidString::parse_input_string(
            colours,
            faces,
            default_faces,
            input,
        );
        match pieces {
            Some(pieces) => {
                proof {
                    lemma_probes(line@.text_display, 0, line@.text.len() as int);
                }
                let widths = ask_widths(metrics, line.text().as_str(), &pieces);
                line.place(widths.as_slice());
            },
            None => {},
        }
        assert(line@ == if line@.measured() {
            Line::laid_out(input@, colours.limits(faces), chosen).place(line@.widths)
        } else {
            Line::laid_out(input@, colours.limits(faces), chosen)
        });
        line
    }

    /// Gives the line its widths, one for each position of its text as
    /// `parse_input_string` asked for them, and with them its bars. A list
    /// of another length than the text, or of more than `u32::MAX` widths,
    /// is refused and leaves the line as it was.
    pub fn place(&mut self, widths: &[u32]) -> (placed: bool)
        ensures
            final(self)@.wf(),
            placed == (widths@.len() == old(self)@.text.len() && widths@.len() <= u32::MAX),
            final(self)@ == if placed {
                old(self)@.place(widths@)
            } else {
                old(self)@
            },
    {
        self.line.place(widths)
    }
}

} // verus!
