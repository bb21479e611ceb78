//! The markup of one input line, read one character at a time.
//!
//! A line is plain text with blocks in braces. Inside a block, `B`, `H`, `F`
//! and `f` followed by a digit give the background colour, the underline
//! colour, the font colour and the font face a new value from here on; after
//! a `/`, the same letters take the value back. What stands outside the
//! blocks is the text that is shown.

use vstd::prelude::*;
use crate::chars::{code, to_chars};
use crate::runs::{bounded, lemma_tiles_push, ordered, tiles, DisplayTemp, DEFAULT};

verus! {

/// The four style channels of a line.
#[derive(Clone, Copy, Debug, PartialEq, Eq, Structural)]
pub enum IndexType {
    BackgroundColour,
    HighlightColour,
    FontColour,
    FontFace,
}

/// How many values each channel has on offer: the sizes of the three colour
/// lists and the number of fonts.
#[derive(Clone, Copy, Debug, PartialEq, Eq, Structural)]
pub struct Limits {
    pub background: usize,
    pub underline: usize,
    pub font: usize,
    pub faces: usize,
}

impl IndexType {
    /// The value a channel has where nothing was asked for: the first font
    /// colour, and `DEFAULT` for the others.
    pub open spec fn rest(self) -> usize {
        if self == IndexType::FontColour {
            0
        } else {
            DEFAULT
        }
    }

    /// Whether the channel's list keeps the runs on which nothing was asked
    /// for. The font channels do: every character needs a face and a colour.
    pub open spec fn keeps_rest(self) -> bool {
        self == IndexType::FontColour || self == IndexType::FontFace
    }

    /// The number of values the channel has on offer.
    pub open spec fn limit(self, limits: Limits) -> usize {
        match self {
            IndexType::BackgroundColour => limits.background,
            IndexType::HighlightColour => limits.underline,
            IndexType::FontColour => limits.font,
            IndexType::FontFace => limits.faces,
        }
    }

    fn rest_value(self) -> (idx: usize)
        ensures
            idx == self.rest(),
    {
        match self {
            IndexType::FontColour => 0,
            _ => DEFAULT,
        }
    }

    fn limit_of(self, limits: &Limits) -> (limit: usize)
        ensures
            limit == self.limit(*limits),
    {
        match self {
            IndexType::BackgroundColour => limits.background,
            IndexType::HighlightColour => limits.underline,
            IndexType::FontColour => limits.font,
            IndexType::FontFace => limits.faces,
        }
    }
}

/// Where the reader stands between two characters.
#[derive(Clone, Copy, Debug, PartialEq, Eq, Structural)]
pub enum Mode {
    /// Outside any block.
    Text,
    /// Inside a block, before a directive.
    Block,
    /// After a channel letter, waiting for its digit.
    Index(IndexType),
    /// Inside a block, after a `/`.
    Closing,
}

/// A directive that changed nothing, because it asked for a value that its
/// channel does not offer.
#[derive(Clone, Copy, Debug, PartialEq, Eq, Structural)]
pub struct Refused {
    /// The channel.
    pub kind: IndexType,
    /// The value that was asked for.
    pub idx: usize,
    /// The position in the text at which the directive stands.
    pub at: usize,
}

/// The value of the decimal digit `ch`, if it is one.
pub open spec fn digit(ch: char) -> Option<usize> {
    if 48 <= code(ch) <= 57 {
        Some((code(ch) - 48) as usize)
    } else {
        None
    }
}

/// The channel that the letter `ch` names, if it names one.
pub open spec fn channel(ch: char) -> Option<IndexType> {
    if ch == 'B' {
        Some(IndexType::BackgroundColour)
    } else if ch == 'H' {
        Some(IndexType::HighlightColour)
    } else if ch == 'F' {
        Some(IndexType::FontColour)
    } else if ch == 'f' {
        Some(IndexType::FontFace)
    } else {
        None
    }
}

/// One channel while a line is read: the runs that are closed, and the value
/// and the start of the run that is open.
pub struct Track {
    pub kind: IndexType,
    pub runs: Seq<DisplayTemp>,
    pub idx: usize,
    pub start: usize,
}

impl Track {
    /// A channel before the first character.
    pub open spec fn fresh(kind: IndexType) -> Track {
        Track { kind, runs: Seq::empty(), idx: kind.rest(), start: 0 }
    }

    /// The closed runs once the open run ends at `at`. An empty run is
    /// dropped, and so is one without a value where the channel keeps none.
    pub open spec fn close(self, at: usize) -> Seq<DisplayTemp> {
        if self.start < at && (self.idx != DEFAULT || self.kind.keeps_rest()) {
            self.runs.push(DisplayTemp { idx: self.idx, start: self.start, end: at })
        } else {
            self.runs
        }
    }

    /// The channel after its value changes to `idx` at position `at`.
    pub open spec fn switch(self, idx: usize, at: usize) -> Track {
        Track { kind: self.kind, runs: self.close(at), idx, start: at }
    }

    /// What holds of a channel after any number of characters, `len` of them
    /// text: its runs are in order, the open run starts where the last closed
    /// one could end, and every value is one the channel has on offer.
    pub open spec fn wf(self, len: int, limits: Limits) -> bool {
        &&& self.start <= len
        &&& self.idx < self.kind.limit(limits) || self.idx == self.kind.rest()
        &&& forall|i: int|
            0 <= i < self.runs.len() ==> (#[trigger] self.runs[i]).idx < self.kind.limit(limits)
                || self.runs[i].idx == self.kind.rest()
        &&& if self.kind.keeps_rest() {
            tiles(self.runs, 0, self.start as int)
        } else {
            &&& ordered(self.runs, self.start as int)
            &&& forall|i: int| 0 <= i < self.runs.len() ==> (#[trigger] self.runs[i]).idx != DEFAULT
        }
    }
}

/// The reader's whole state: its mode, the text so far and the four channels.
pub struct Scan {
    pub mode: Mode,
    pub text: Seq<char>,
    pub background: Track,
    pub underline: Track,
    pub font_colour: Track,
    pub font_face: Track,
    pub refused: Seq<Refused>,
}

impl Scan {
    /// The state before the first character.
    pub open spec fn start() -> Scan {
        Scan {
            mode: Mode::Text,
            text: Seq::empty(),
            background: Track::fresh(IndexType::BackgroundColour),
            underline: Track::fresh(IndexType::HighlightColour),
            font_colour: Track::fresh(IndexType::FontColour),
            font_face: Track::fresh(IndexType::FontFace),
            refused: Seq::empty(),
        }
    }

    /// The state after channel `kind` changes to `idx` at the end of the text
    /// so far.
    pub open spec fn switch(self, kind: IndexType, idx: usize) -> Scan {
        let at = self.text.len() as usize;
        match kind {
            IndexType::BackgroundColour => Scan { background: self.background.switch(idx, at), ..self },
            IndexType::HighlightColour => Scan { underline: self.underline.switch(idx, at), ..self },
            IndexType::FontColour => Scan { font_colour: self.font_colour.switch(idx, at), ..self },
            IndexType::FontFace => Scan { font_face: self.font_face.switch(idx, at), ..self },
        }
    }

    /// The state after one more character.
    ///
    /// Outside a block, `{` opens one and any other character is text. In a
    /// block, `/` turns to closing, a channel letter asks for a digit, `}`
    /// ends the block and anything else is passed over. A digit after a
    /// channel letter opens a run with that value if the channel offers it,
    /// and is noted as refused if not; it leads back into the block either
    /// way. Until a digit comes, every character is passed over. After a `/`, each channel letter takes that
    /// channel back to its rest value, `}` ends the block and anything else
    /// is passed over.
    pub open spec fn step(self, ch: char, limits: Limits) -> Scan {
        match self.mode {
            Mode::Text => if ch == '{' {
                Scan { mode: Mode::Block, ..self }
            } else {
                Scan { text: self.text.push(ch), ..self }
            },
            Mode::Block => if ch == '/' {
                Scan { mode: Mode::Closing, ..self }
            } else if ch == '}' {
                Scan { mode: Mode::Text, ..self }
            } else {
                match channel(ch) {
                    Some(kind) => Scan { mode: Mode::Index(kind), ..self },
                    None => self,
                }
            },
            Mode::Index(kind) => match digit(ch) {
                Some(d) => if d < kind.limit(limits) {
                    Scan { mode: Mode::Block, ..self.switch(kind, d) }
                } else {
                    Scan {
                        mode: Mode::Block,
                        refused: self.refused.push(
                            Refused { kind, idx: d, at: self.text.len() as usize },
                        ),
                        ..self
                    }
                },
                None => self,
            },
            Mode::Closing => if ch == '}' {
                Scan { mode: Mode::Text, ..self }
            } else {
                match channel(ch) {
                    Some(kind) => self.switch(kind, kind.rest()),
                    None => self,
                }
            },
        }
    }

    /// The state after all of `input`.
    pub open spec fn after(input: Seq<char>, limits: Limits) -> Scan
        decreases input.len(),
    {
        if input.len() == 0 {
            Scan::start()
        } else {
            Scan::after(input.drop_last(), limits).step(input.last(), limits)
        }
    }

    /// What holds of every state that is reached in at most `bound`
    /// characters.
    pub open spec fn wf(self, bound: int, limits: Limits) -> bool {
        &&& self.text.len() <= bound
        &&& self.background.kind == IndexType::BackgroundColour
        &&& self.underline.kind == IndexType::HighlightColour
        &&& self.font_colour.kind == IndexType::FontColour
        &&& self.font_face.kind == IndexType::FontFace
        &&& self.background.wf(self.text.len() as int, limits)
        &&& self.underline.wf(self.text.len() as int, limits)
        &&& self.font_colour.wf(self.text.len() as int, limits)
        &&& self.font_face.wf(self.text.len() as int, limits)
    }
}

/// What a line's markup comes to: the text that is shown, for each channel
/// the runs over that text's positions, and the directives that were
/// refused.
pub struct Tokens {
    pub text: Seq<char>,
    pub background: Seq<DisplayTemp>,
    pub underline: Seq<DisplayTemp>,
    pub font_colour: Seq<DisplayTemp>,
    pub font_face: Seq<DisplayTemp>,
    pub refused: Seq<Refused>,
}

impl Tokens {
    /// The background and underline runs are explicit, in order and apart;
    /// the font colour and font face runs tile the text; every value is on
    /// offer.
    pub open spec fn wf(self, limits: Limits) -> bool {
        let len = self.text.len() as int;
        &&& ordered(self.background, len)
        &&& ordered(self.underline, len)
        &&& tiles(self.font_colour, 0, len)
        &&& tiles(self.font_face, 0, len)
        &&& bounded(self.background, limits.background as int, false)
        &&& bounded(self.underline, limits.underline as int, false)
        &&& forall|i: int|
            0 <= i < self.font_colour.len() ==> (#[trigger] self.font_colour[i]).idx < limits.font
                || self.font_colour[i].idx == 0
        &&& bounded(self.font_face, limits.faces as int, true)
    }
}

/// The tokens of `input`: every channel's open run ends with the text.
pub open spec fn tokens(input: Seq<char>, limits: Limits) -> Tokens {
    let end = Scan::after(input, limits);
    let at = end.text.len() as usize;
    Tokens {
        text: end.text,
        background: end.background.close(at),
        underline: end.underline.close(at),
        font_colour: end.font_colour.close(at),
        font_face: end.font_face.close(at),
        refused: end.refused,
    }
}

/// A channel stays well formed when its value changes at the end of the text.
proof fn lemma_switch_wf(track: Track, idx: usize, len: int, limits: Limits)
    requires
        track.wf(len, limits),
        len <= usize::MAX,
        idx < track.kind.limit(limits) || idx == track.kind.rest(),
    ensures
        track.switch(idx, len as usize).wf(len, limits),
        track.kind.keeps_rest() ==> tiles(track.close(len as usize), 0, len),
        !track.kind.keeps_rest() ==> ordered(track.close(len as usize), len),
{
    let at = len as usize;
    let run = DisplayTemp { idx: track.idx, start: track.start, end: at };
    let closed = track.close(at);
    if track.kind.keeps_rest() {
        if track.start < at {
            lemma_tiles_push(track.runs, 0, track.start as int, run);
        }
    } else {
        if track.start < at && track.idx != DEFAULT {
            assert forall|i: int, j: int| 0 <= i < j < closed.len() implies (#[trigger] closed[i]).end
                <= (#[trigger] closed[j]).start by {
                if j < track.runs.len() {
                    assert(track.runs[i].end <= track.runs[j].start);
                } else {
                    assert(track.runs[i].end <= track.start);
                }
            }
            assert forall|i: int| 0 <= i < closed.len() implies (#[trigger] closed[i]).start
                < closed[i].end <= len by {
                if i < track.runs.len() {
                    assert(track.runs[i].start < track.runs[i].end <= track.start);
                }
            }
        } else {
            assert forall|i: int| 0 <= i < closed.len() implies (#[trigger] closed[i]).start
                < closed[i].end <= len by {
                assert(track.runs[i].start < track.runs[i].end <= track.start);
            }
        }
    }
}

/// A channel that was well formed for a text is so for a longer one.
proof fn lemma_track_grows(track: Track, len: int, limits: Limits)
    requires
        track.wf(len, limits),
    ensures
        track.wf(len + 1, limits),
{
}

/// One character keeps the state well formed.
pub proof fn lemma_step_wf(scan: Scan, ch: char, bound: int, limits: Limits)
    requires
        scan.wf(bound, limits),
        bound < usize::MAX,
    ensures
        scan.step(ch, limits).wf(bound + 1, limits),
{
    let len = scan.text.len() as int;
    let next = scan.step(ch, limits);
    if next.text.len() != len {
        lemma_track_grows(scan.background, len, limits);
        lemma_track_grows(scan.underline, len, limits);
        lemma_track_grows(scan.font_colour, len, limits);
        lemma_track_grows(scan.font_face, len, limits);
    } else {
        match scan.mode {
            Mode::Index(kind) => {
                if let Some(d) = digit(ch) {
                    if d < kind.limit(limits) {
                        lemma_switch_all(scan, kind, d, limits);
                    }
                }
            },
            Mode::Closing => {
                if let Some(kind) = channel(ch) {
                    lemma_switch_all(scan, kind, kind.rest(), limits);
                }
            },
            _ => {},
        }
    }
}

/// A change of one channel's value keeps the state well formed.
proof fn lemma_switch_all(scan: Scan, kind: IndexType, idx: usize, limits: Limits)
    requires
        scan.text.len() <= usize::MAX,
        scan.wf(scan.text.len() as int, limits),
        idx < kind.limit(limits) || idx == kind.rest(),
    ensures
        scan.switch(kind, idx).wf(scan.text.len() as int, limits),
{
    let len = scan.text.len() as int;
    match kind {
        IndexType::BackgroundColour => lemma_switch_wf(scan.background, idx, len, limits),
        IndexType::HighlightColour => lemma_switch_wf(scan.underline, idx, len, limits),
        IndexType::FontColour => lemma_switch_wf(scan.font_colour, idx, len, limits),
        IndexType::FontFace => lemma_switch_wf(scan.font_face, idx, len, limits),
    }
}

/// Every state reached from the start is well formed, and its text is no
/// longer than the input.
pub proof fn lemma_after_wf(input: Seq<char>, limits: Limits)
    requires
        input.len() <= usize::MAX,
    ensures
        Scan::after(input, limits).wf(input.len() as int, limits),
    decreases input.len(),
{
    if input.len() > 0 {
        lemma_after_wf(input.drop_last(), limits);
        lemma_step_wf(
            Scan::after(input.drop_last(), limits),
            input.last(),
            input.len() - 1,
            limits,
        );
    }
}

/// The tokens of any line are well formed: the font colour runs and the font
/// face runs each tile the text, the background and underline runs are in
/// order and apart, and every value is one that is on offer.
pub proof fn lemma_tokens_wf(input: Seq<char>, limits: Limits)
    requires
        input.len() <= usize::MAX,
    ensures
        tokens(input, limits).wf(limits),
        tokens(input, limits).text.len() <= input.len(),
{
    lemma_after_wf(input, limits);
    let end = Scan::after(input, limits);
    let len = end.text.len() as int;
    lemma_switch_wf(end.background, DEFAULT, len, limits);
    lemma_switch_wf(end.underline, DEFAULT, len, limits);
    lemma_switch_wf(end.font_colour, 0, len, limits);
    lemma_switch_wf(end.font_face, DEFAULT, len, limits);
}

/// Text without markup is shown as it is: after a text without a `{`, the
/// reader is outside any block, the text so far is that text, and no channel
/// has closed a run or changed its value.
pub proof fn lemma_plain_after(input: Seq<char>, limits: Limits)
    requires
        forall|i: int| 0 <= i < input.len() ==> input[i] != '{',
    ensures
        Scan::after(input, limits) == (Scan { text: input, ..Scan::start() }),
    decreases input.len(),
{
    if input.len() == 0 {
        assert(input =~= Seq::<char>::empty());
    } else {
        let front = input.drop_last();
        lemma_plain_after(front, limits);
        assert(input.last() == input[input.len() - 1]);
        assert(front.push(input.last()) =~= input);
    }
}

/// Text without markup is shown as it is: the tokens of a text without a
/// `{` are that text, no background and no underline, the first font colour
/// over all of it and no font face asked for on any of it.
pub proof fn lemma_plain_tokens(input: Seq<char>, limits: Limits)
    requires
        input.len() <= usize::MAX,
        forall|i: int| 0 <= i < input.len() ==> input[i] != '{',
    ensures
        tokens(input, limits).text == input,
        tokens(input, limits).background == Seq::<DisplayTemp>::empty(),
        tokens(input, limits).underline == Seq::<DisplayTemp>::empty(),
        tokens(input, limits).refused == Seq::<Refused>::empty(),
        tokens(input, limits).font_colour == if input.len() == 0 {
            Seq::<DisplayTemp>::empty()
        } else {
            seq![DisplayTemp { idx: 0, start: 0, end: input.len() as usize }]
        },
        tokens(input, limits).font_face == if input.len() == 0 {
            Seq::<DisplayTemp>::empty()
        } else {
            seq![DisplayTemp { idx: DEFAULT, start: 0, end: input.len() as usize }]
        },
{
    lemma_plain_after(input, limits);
    let t = tokens(input, limits);
    if input.len() > 0 {
        assert(t.font_colour =~= seq![DisplayTemp { idx: 0, start: 0, end: input.len() as usize }]);
        assert(t.font_face =~= seq![
            DisplayTemp { idx: DEFAULT, start: 0, end: input.len() as usize },
        ]);
    }
}

/// What is on offer does not change the text: a directive that asks for a
/// value that is not on offer is passed over like one that asks for a value
/// that is, so that the reader's mode and the text that is shown are the
/// same whatever the limits.
pub proof fn lemma_text_any_limits(input: Seq<char>, one: Limits, other: Limits)
    ensures
        Scan::after(input, one).mode == Scan::after(input, other).mode,
        Scan::after(input, one).text == Scan::after(input, other).text,
        tokens(input, one).text == tokens(input, other).text,
    decreases input.len(),
{
    if input.len() > 0 {
        lemma_text_any_limits(input.drop_last(), one, other);
    }
}

/// A channel as the reader keeps it.
struct Channel {
    kind: IndexType,
    runs: Vec<DisplayTemp>,
    idx: usize,
    start: usize,
}

impl View for Channel {
    type V = Track;

    closed spec fn view(&self) -> Track {
        Track { kind: self.kind, runs: self.runs@, idx: self.idx, start: self.start }
    }
}

impl Channel {
    fn new(kind: IndexType) -> (channel: Channel)
        ensures
            channel@ == Track::fresh(kind),
    {
        Channel { kind, runs: Vec::new(), idx: kind.rest_value(), start: 0 }
    }

    fn end_run(&mut self, at: usize)
        ensures
            final(self).runs@ == old(self)@.close(at),
            final(self).kind == old(self).kind,
            final(self).idx == old(self).idx,
            final(self).start == old(self).start,
    {
        let keeps = match self.kind {
            IndexType::FontColour => true,
            IndexType::FontFace => true,
            _ => false,
        };
        if self.start < at && (self.idx != DEFAULT || keeps) {
            self.runs.push(DisplayTemp::from(self.idx, self.start, at));
        }
    }

    fn switch(&mut self, idx: usize, at: usize)
        ensures
            final(self)@ == old(self)@.switch(idx, at),
    {
        self.end_run(at);
        self.idx = idx;
        self.start = at;
    }

    fn finish(self, at: usize) -> (runs: Vec<DisplayTemp>)
        ensures
            runs@ == self@.close(at),
    {
        let mut channel = self;
        channel.end_run(at);
        channel.runs
    }
}

/// The reader.
struct Scanner {
    mode: Mode,
    text: String,
    count: usize,
    background: Channel,
    underline: Channel,
    font_colour: Channel,
    font_face: Channel,
    refused: Vec<Refused>,
}

impl View for Scanner {
    type V = Scan;

    closed spec fn view(&self) -> Scan {
        Scan {
            mode: self.mode,
            text: self.text@,
            background: self.background@,
            underline: self.underline@,
            font_colour: self.font_colour@,
            font_face: self.font_face@,
            refused: self.refused@,
        }
    }
}

fn digit_of(ch: char) -> (d: Option<usize>)
    ensures
        d == digit(ch),
{
    let c = ch as u32;
    if 48 <= c && c <= 57 {
        Some((c - 48) as usize)
    } else {
        None
    }
}

fn channel_of(ch: char) -> (kind: Option<IndexType>)
    ensures
        kind == channel(ch),
{
    if ch == 'B' {
        Some(IndexType::BackgroundColour)
    } else if ch == 'H' {
        Some(IndexType::HighlightColour)
    } else if ch == 'F' {
        Some(IndexType::FontColour)
    } else if ch == 'f' {
        Some(IndexType::FontFace)
    } else {
        None
    }
}

impl Scanner {
    spec fn counted(&self) -> bool {
        self.count == self.text@.len()
    }

    fn new() -> (scanner: Scanner)
        ensures
            scanner@ == Scan::start(),
            scanner.counted(),
    {
        Scanner {
            mode: Mode::Text,
            text: String::new(),
            count: 0,
            background: Channel::new(IndexType::BackgroundColour),
            underline: Channel::new(IndexType::HighlightColour),
            font_colour: Channel::new(IndexType::FontColour),
            font_face: Channel::new(IndexType::FontFace),
            refused: Vec::new(),
        }
    }

    fn switch(&mut self, kind: IndexType, idx: usize)
        requires
            old(self).counted(),
        ensures
            final(self)@ == old(self)@.switch(kind, idx),
            final(self).counted(),
            final(self).count == old(self).count,
    {
        let at = self.count;
        match kind {
            IndexType::BackgroundColour => self.background.switch(idx, at),
            IndexType::HighlightColour => self.underline.switch(idx, at),
            IndexType::FontColour => self.font_colour.switch(idx, at),
            IndexType::FontFace => self.font_face.switch(idx, at),
        }
    }

    fn step(&mut self, ch: char, limits: &Limits)
        requires
            old(self).counted(),
            old(self).count < usize::MAX,
        ensures
            final(self)@ == old(self)@.step(ch, *limits),
            final(self).counted(),
            final(self).count <= old(self).count + 1,
    {
        match self.mode {
            Mode::Text => {
                if ch == '{' {
                    self.mode = Mode::Block;
                } else {
                    self.text.push(ch);
                    self.count += 1;
                }
            },
            Mode::Block => {
                if ch == '/' {
                    self.mode = Mode::Closing;
                } else if ch == '}' {
                    self.mode = Mode::Text;
                } else if let Some(kind) = channel_of(ch) {
                    self.mode = Mode::Index(kind);
                }
            },
            Mode::Index(kind) => {
                if let Some(d) = digit_of(ch) {
                    if d < kind.limit_of(limits) {
                        self.switch(kind, d);
                    } else {
                        self.refused.push(Refused { kind, idx: d, at: self.count });
                    }
                    self.mode = Mode::Block;
                }
            },
            Mode::Closing => {
                if ch == '}' {
                    self.mode = Mode::Text;
                } else if let Some(kind) = channel_of(ch) {
                    self.switch(kind, kind.rest_value());
                }
            },
        }
    }
}

/// The markup of one line, taken apart.
#[derive(Debug, PartialEq, Eq)]
pub struct Markup {
    /// The text that is shown.
    pub text: String,
    /// The runs with a background colour.
    pub background: Vec<DisplayTemp>,
    /// The runs with an underline colour.
    pub underline: Vec<DisplayTemp>,
    /// The font colour of every position.
    pub font_colour: Vec<DisplayTemp>,
    /// The font face of every position, `DEFAULT` where none was asked for.
    pub font_face: Vec<DisplayTemp>,
    /// The directives that asked for a value that is not on offer.
    pub refused: Vec<Refused>,
}

impl View for Markup {
    type V = Tokens;

    open spec fn view(&self) -> Tokens {
        Tokens {
            text: self.text@,
            background: self.background@,
            underline: self.underline@,
            font_colour: self.font_colour@,
            font_face: self.font_face@,
            refused: self.refused@,
        }
    }
}

impl Markup {
    /// Reads the markup of `input`. A directive that asks for a value that
    /// is not on offer changes nothing and is listed as refused; no input is
    /// refused as a whole.
    pub fn parse(input: &str, limits: &Limits) -> (markup: Markup)
        ensures
            markup@ == tokens(input@, *limits),
            markup@.wf(*limits),
            markup@.text.len() <= input@.len(),
    {
        let chars = to_chars(input);
        let mut scanner = Scanner::new();
        let mut i: usize = 0;
        assert(input@.take(0) == Seq::<char>::empty());
        while i < chars.len()
            invariant
                i <= chars.len(),
                chars@ == input@,
                scanner@ == Scan::after(input@.take(i as int), *limits),
                scanner.counted(),
                scanner.count <= i,
            decreases chars.len() - i,
        {
            scanner.step(chars[i], limits);
            i += 1;
            assert(input@.take(i as int).drop_last() == input@.take(i - 1));
        }
        assert(input@.take(i as int) == input@);
        proof {
            lemma_tokens_wf(input@, *limits);
        }
        let at = scanner.count;
        Markup {
            text: scanner.text,
            background: scanner.background.finish(at),
            underline: scanner.underline.finish(at),
            font_colour: scanner.font_colour.finish(at),
            font_face: scanner.font_face.finish(at),
            refused: scanner.refused,
        }
    }
}

} // verus!
