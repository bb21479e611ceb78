//! The settings of a bar, and the options that change them.

use vstd::prelude::*;
use crate::chars::{
    find, index_of, lemma_index_of, lowercase, same, substring, texts, to_chars, to_lowercase,
    trim, trimmed,
};
use crate::numbers::{int_text, parse_i32};

verus! {

/// No settings could be made.
#[derive(Clone, Copy, Debug, PartialEq, Eq, Structural)]
pub struct Error;

impl Error {
    /// What went wrong, in words.
    pub fn message(&self) -> (text: String)
        ensures
            text@ == "Could not generate config."@,
    {
        "Could not generate config.".to_owned()
    }
}

/// The settings of a bar.
#[derive(Debug)]
pub struct Config {
    /// Name of the bar.
    pub name: String,
    /// Whether the bar sits at the top of the screen, not at its bottom.
    pub top: bool,
    /// The monitor to show the bar on: a number or a name, or nothing.
    pub monitor: String,
    /// Height of the bar in pixels.
    pub height: i32,
    /// Height of the underlines in pixels.
    pub ul_height: i32,
    /// The fonts, by their names.
    pub fonts: Vec<String>,
    /// Distance in pixels from the top of the bar to the line the text
    /// stands on.
    pub font_y: i32,
    /// Colour of the bar.
    pub back_color: String,
    /// The font colours.
    pub ft_clrs: Vec<String>,
    /// The background colours.
    pub bg_clrs: Vec<String>,
    /// The underline colours.
    pub ul_clrs: Vec<String>,
}

/// What a `Config` holds.
pub struct Settings {
    pub name: Seq<char>,
    pub top: bool,
    pub monitor: Seq<char>,
    pub height: i32,
    pub ul_height: i32,
    pub fonts: Seq<Seq<char>>,
    pub font_y: i32,
    pub back_color: Seq<char>,
    pub ft_clrs: Seq<Seq<char>>,
    pub bg_clrs: Seq<Seq<char>>,
    pub ul_clrs: Seq<Seq<char>>,
}

impl View for Config {
    type V = Settings;

    open spec fn view(&self) -> Settings {
        Settings {
            name: self.name@,
            top: self.top,
            monitor: self.monitor@,
            height: self.height,
            ul_height: self.ul_height,
            fonts: texts(self.fonts@),
            font_y: self.font_y,
            back_color: self.back_color@,
            ft_clrs: texts(self.ft_clrs@),
            bg_clrs: texts(self.bg_clrs@),
            ul_clrs: texts(self.ul_clrs@),
        }
    }
}

/// Why an option changed nothing.
#[derive(Clone, Copy, Debug, PartialEq, Eq, Structural)]
pub enum Rejected {
    /// The position is neither `top` nor `bottom`.
    Position,
    /// The height is no number that fits 32 bits.
    Height,
    /// The underline height is no number that fits 32 bits.
    UnderlineHeight,
    /// The offset of the font is no number that fits 32 bits.
    FontY,
    /// There is no option of this name.
    Option,
    /// The line gives no value: it has no `=`.
    NoValue,
}

/// A line of a settings text that changed nothing, and why.
#[derive(Clone, Copy, Debug, PartialEq, Eq, Structural)]
pub struct Complaint {
    /// The number of the line, the first line being line 1.
    pub line: usize,
    /// Why the line changed nothing.
    pub rejected: Rejected,
}

/// `line` without the carriage return at its end, if it has one.
pub open spec fn without_return(line: Seq<char>) -> Seq<char> {
    if line.len() > 0 && line.last() == '\r' {
        line.drop_last()
    } else {
        line
    }
}

/// The settings that a text has led to so far, and the complaints about its
/// lines.
pub struct Reading {
    pub settings: Settings,
    pub complaints: Seq<Complaint>,
}

impl Reading {
    /// Before the first line: the default settings and no complaint.
    pub open spec fn start() -> Reading {
        Reading { settings: Settings::default(), complaints: Seq::empty() }
    }

    /// After the line `line`, which is line `number`.
    pub open spec fn line(self, number: nat, line: Seq<char>) -> Reading {
        let (settings, rejected) = self.settings.line(line);
        Reading {
            settings,
            complaints: match rejected {
                Some(rejected) => self.complaints.push(Complaint { line: number as usize, rejected }),
                None => self.complaints,
            },
        }
    }

    /// After the lines of `text`, of which the first is line `number`. A
    /// line ends at a line feed, or at a carriage return with a line feed
    /// behind it, or with the text.
    pub open spec fn lines(self, text: Seq<char>, number: nat) -> Reading
        decreases text.len(),
    {
        let end = index_of(text, '\n');
        if text.len() == 0 {
            self
        } else if 0 <= end < text.len() {
            self.line(number, without_return(text.take(end))).lines(text.skip(end + 1), number + 1)
        } else {
            self.line(number, text)
        }
    }
}

/// The settings that the text `text` asks for, and the complaints about its
/// lines: the default settings, changed line by line, and in the end
/// without the default entry of each list that has got another.
pub open spec fn read(text: Seq<char>) -> Reading {
    let end = Reading::start().lines(text, 1);
    Reading { settings: end.settings.without_defaults(), complaints: end.complaints }
}

impl Settings {
    /// The settings of a bar of which nothing was asked: at the top, 32
    /// pixels high, with one font, white text on black, and one colour each
    /// for backgrounds and underlines.
    pub open spec fn default() -> Settings {
        Settings {
            name: Seq::empty(),
            top: true,
            monitor: Seq::empty(),
            height: 32,
            ul_height: 4,
            fonts: seq!["mono:size=12"@],
            font_y: 20,
            back_color: "#000000"@,
            ft_clrs: seq!["#FFFFFF"@],
            bg_clrs: seq!["#0000FF"@],
            ul_clrs: seq!["#FF0000"@],
        }
    }

    /// The settings after the option `key` is given the value `val`, of
    /// which `lowered` is the lower case, and why nothing changed where
    /// nothing did. An option that takes one value has that value from then
    /// on; an option that takes many has one more.
    pub open spec fn set(self, key: Seq<char>, val: Seq<char>, lowered: Seq<char>) -> (
        Settings,
        Option<Rejected>,
    ) {
        if key == "name"@ {
            (Settings { name: val, ..self }, None)
        } else if key == "position"@ {
            if lowered == "top"@ {
                (Settings { top: true, ..self }, None)
            } else if lowered == "bottom"@ {
                (Settings { top: false, ..self }, None)
            } else {
                (self, Some(Rejected::Position))
            }
        } else if key == "monitor"@ {
            (Settings { monitor: val, ..self }, None)
        } else if key == "height"@ {
            match int_text(val) {
                Some(height) => (Settings { height, ..self }, None),
                None => (self, Some(Rejected::Height)),
            }
        } else if key == "underline_height"@ {
            match int_text(val) {
                Some(ul_height) => (Settings { ul_height, ..self }, None),
                None => (self, Some(Rejected::UnderlineHeight)),
            }
        } else if key == "font"@ {
            (Settings { fonts: self.fonts.push(val), ..self }, None)
        } else if key == "font_y"@ {
            match int_text(val) {
                Some(font_y) => (Settings { font_y, ..self }, None),
                None => (self, Some(Rejected::FontY)),
            }
        } else if key == "default_background"@ {
            (Settings { back_color: val, ..self }, None)
        } else if key == "ft_colour"@ {
            (Settings { ft_clrs: self.ft_clrs.push(val), ..self }, None)
        } else if key == "background_colour"@ {
            (Settings { bg_clrs: self.bg_clrs.push(val), ..self }, None)
        } else if key == "highlight_colour"@ {
            (Settings { ul_clrs: self.ul_clrs.push(val), ..self }, None)
        } else {
            (self, Some(Rejected::Option))
        }
    }

    /// The settings after the option `opt` is given the value `val`: the
    /// option's name counts without the white space around it and in lower
    /// case, the value without the white space around it.
    pub open spec fn change(self, opt: Seq<char>, val: Seq<char>) -> (Settings, Option<Rejected>) {
        self.set(lowercase(trimmed(opt)), trimmed(val), lowercase(trimmed(val)))
    }

    /// The settings after one line of a settings text, and why nothing
    /// changed where the line asked for a change and none was made. An empty
    /// line and a line that starts with `#` ask for none. Any other line
    /// gives an option the value behind its first `=`.
    pub open spec fn line(self, line: Seq<char>) -> (Settings, Option<Rejected>) {
        let at = index_of(line, '=');
        if line.len() == 0 || line[0] == '#' {
            (self, None)
        } else if at == line.len() {
            (self, Some(Rejected::NoValue))
        } else {
            self.change(line.take(at), line.skip(at + 1))
        }
    }

    /// The settings without the first entry of each list that has more than
    /// one: the default entry gives way once another is there.
    pub open spec fn without_defaults(self) -> Settings {
        Settings {
            fonts: if self.fonts.len() > 1 {
                self.fonts.drop_first()
            } else {
                self.fonts
            },
            ft_clrs: if self.ft_clrs.len() > 1 {
                self.ft_clrs.drop_first()
            } else {
                self.ft_clrs
            },
            bg_clrs: if self.bg_clrs.len() > 1 {
                self.bg_clrs.drop_first()
            } else {
                self.bg_clrs
            },
            ul_clrs: if self.ul_clrs.len() > 1 {
                self.ul_clrs.drop_first()
            } else {
                self.ul_clrs
            },
            ..self
        }
    }

    /// The settings after the list `key` is replaced by `vals`, and whether
    /// there is such a list.
    pub open spec fn put(self, key: Seq<char>, vals: Seq<Seq<char>>) -> (Settings, bool) {
        if key == "fonts"@ {
            (Settings { fonts: vals, ..self }, true)
        } else if key == "ft_colours"@ {
            (Settings { ft_clrs: vals, ..self }, true)
        } else if key == "bg_colours"@ {
            (Settings { bg_clrs: vals, ..self }, true)
        } else if key == "ul_colours"@ {
            (Settings { ul_clrs: vals, ..self }, true)
        } else {
            (self, false)
        }
    }
}

/// A list grows by one string.
proof fn lemma_texts_push(list: Seq<String>, s: String)
    ensures
        texts(list.push(s)) == texts(list).push(s@),
{
    assert(texts(list.push(s)) =~= texts(list).push(s@));
}

/// The list that holds `s` alone.
fn one(s: &str) -> (list: Vec<String>)
    ensures
        texts(list@) == seq![s@],
{
    let mut list: Vec<String> = Vec::new();
    list.push(s.to_owned());
    assert(texts(list@) =~= seq![s@]);
    list
}

impl Config {
    /// The settings of a bar of which nothing was asked.
    pub fn default() -> (config: Config)
        ensures
            config@ == Settings::default(),
    {
        Config {
            name: String::new(),
            top: true,
            monitor: String::new(),
            height: 32,
            ul_height: 4,
            fonts: one("mono:size=12"),
            font_y: 20,
            back_color: "#000000".to_owned(),
            ft_clrs: one("#FFFFFF"),
            bg_clrs: one("#0000FF"),
            ul_clrs: one("#FF0000"),
        }
    }

    /// Gives the option `key` the value `val`, of which `lowered` is the
    /// lower case. `key` is the option's name as it is written in lower
    /// case. The answer says why nothing changed, where nothing did.
    pub fn set(&mut self, key: &str, val: String, lowered: &str) -> (rejected: Option<Rejected>)
        ensures
            (final(self)@, rejected) == old(self)@.set(key@, val@, lowered@),
    {
        if same(key, "name") {
            self.name = val;
            None
        } else if same(key, "position") {
            if same(lowered, "top") {
                self.top = true;
                None
            } else if same(lowered, "bottom") {
                self.top = false;
                None
            } else {
                Some(Rejected::Position)
            }
        } else if same(key, "monitor") {
            self.monitor = val;
            None
        } else if same(key, "height") {
            match parse_i32(val.as_str()) {
                Some(height) => {
                    self.height = height;
                    None
                },
                None => Some(Rejected::Height),
            }
        } else if same(key, "underline_height") {
            match parse_i32(val.as_str()) {
                Some(height) => {
                    self.ul_height = height;
                    None
                },
                None => Some(Rejected::UnderlineHeight),
            }
        } else if same(key, "font") {
            proof {
                lemma_texts_push(self.fonts@, val);
            }
            self.fonts.push(val);
            None
        } else if same(key, "font_y") {
            match parse_i32(val.as_str()) {
                Some(y) => {
                    self.font_y = y;
                    None
                },
                None => Some(Rejected::FontY),
            }
        } else if same(key, "default_background") {
            self.back_color = val;
            None
        } else if same(key, "ft_colour") {
            proof {
                lemma_texts_push(self.ft_clrs@, val);
            }
            self.ft_clrs.push(val);
            None
        } else if same(key, "background_colour") {
            proof {
                lemma_texts_push(self.bg_clrs@, val);
            }
            self.bg_clrs.push(val);
            None
        } else if same(key, "highlight_colour") {
            proof {
                lemma_texts_push(self.ul_clrs@, val);
            }
            self.ul_clrs.push(val);
            None
        } else {
            Some(Rejected::Option)
        }
    }

    /// Gives the option `opt` the value `val`. White space around the two
    /// does not count, nor does the case of the option's name. The answer
    /// says why nothing changed, where nothing did.
    pub fn change_option(&mut self, opt: &str, val: &str) -> (rejected: Option<Rejected>)
        ensures
            (final(self)@, rejected) == old(self)@.change(opt@, val@),
    {
        let opt = trim(opt);
        let key = to_lowercase(opt.as_str());
        let val = trim(val);
        let lowered = to_lowercase(val.as_str());
        self.set(key.as_str(), val, lowered.as_str())
    }

    /// Replaces the list `key` by `vals`, and says whether there is such a
    /// list. `key` is the list's name as it is written in lower case.
    pub fn put(&mut self, key: &str, vals: Vec<String>) -> (known: bool)
        ensures
            (final(self)@, known) == old(self)@.put(key@, texts(vals@)),
    {
        if same(key, "fonts") {
            self.fonts = vals;
            true
        } else if same(key, "ft_colours") {
            self.ft_clrs = vals;
            true
        } else if same(key, "bg_colours") {
            self.bg_clrs = vals;
            true
        } else if same(key, "ul_colours") {
            self.ul_clrs = vals;
            true
        } else {
            false
        }
    }

    /// Replaces the list `opt` by `vals`, and says whether there is such a
    /// list. White space around the list's name does not count, nor does its
    /// case.
    pub fn replace_opt(&mut self, opt: &str, vals: Vec<String>) -> (known: bool)
        ensures
            (final(self)@, known) == old(self)@.put(lowercase(trimmed(opt@)), texts(vals@)),
    {
        let opt = trim(opt);
        let key = to_lowercase(opt.as_str());
        self.put(key.as_str(), vals)
    }

    /// Reads the line `from..to` of `text`, see `Settings::line`.
    fn line(&mut self, text: &Vec<char>, from: usize, to: usize) -> (rejected: Option<Rejected>)
        requires
            from <= to <= text.len(),
        ensures
            (final(self)@, rejected) == old(self)@.line(text@.subrange(from as int, to as int)),
    {
        let ghost line = text@.subrange(from as int, to as int);
        if from == to || text[from] == '#' {
            return None;
        }
        let at = find(text, from, to, '=');
        if at == to {
            return Some(Rejected::NoValue);
        }
        let opt = substring(text, from, at);
        let val = substring(text, at + 1, to);
        assert(line.take(at - from) == text@.subrange(from as int, at as int));
        assert(line.skip(at - from + 1) == text@.subrange(at + 1, to as int));
        self.change_option(opt.as_str(), val.as_str())
    }

    /// Drops the first entry of `list` if it has more than one.
    fn drop_default(list: &mut Vec<String>)
        ensures
            texts(final(list)@) == if texts(old(list)@).len() > 1 {
                texts(old(list)@).drop_first()
            } else {
                texts(old(list)@)
            },
    {
        if list.len() > 1 {
            list.remove(0);
            assert(texts(list@) =~= texts(old(list)@).drop_first());
        }
    }

    /// The settings that the text `contents` asks for, and the complaints
    /// about its lines. Every line gives one option its value, as
    /// `change_option` takes it, but for empty lines and lines that start
    /// with `#`. A list that has got an entry loses its default entry.
    pub fn from_text(contents: &str) -> (read: (Config, Vec<Complaint>))
        ensures
            read.0@ == self::read(contents@).settings,
            read.1@ == self::read(contents@).complaints,
    {
        let text = to_chars(contents);
        let mut config = Config::default();
        let mut complaints: Vec<Complaint> = Vec::new();
        let mut from: usize = 0;
        let mut feeds: usize = 0;
        assert(text@.skip(0) == text@);
        while from < text.len()
            invariant
                from <= text.len(),
                feeds <= from,
                text@ == contents@,
                (Reading { settings: config@, complaints: complaints@ }).lines(
                    text@.skip(from as int),
                    (feeds + 1) as nat,
                ) == Reading::start().lines(text@, 1),
            decreases text.len() - from,
        {
            let ghost rest = text@.skip(from as int);
            let ghost before = Reading { settings: config@, complaints: complaints@ };
            let end = find(&text, from, text.len(), '\n');
            assert(text@.subrange(from as int, text@.len() as int) == rest);
            let to = if end < text.len() && from < end && text[end - 1] == '\r' {
                end - 1
            } else {
                end
            };
            proof {
                lemma_index_of(rest, '\n');
                let whole = rest.take(end - from);
                assert(whole == text@.subrange(from as int, end as int));
                if end < text.len() {
                    if whole.len() > 0 {
                        assert(whole.last() == text@[end - 1]);
                    }
                    assert(without_return(whole) == text@.subrange(from as int, to as int));
                    assert(rest.skip(end - from + 1) == text@.skip(end + 1));
                } else {
                    assert(rest == text@.subrange(from as int, to as int));
                }
            }
            match config.line(&text, from, to) {
                Some(rejected) => {
                    complaints.push(Complaint { line: feeds + 1, rejected });
                },
                None => {},
            }
            if end < text.len() {
                from = end + 1;
                feeds += 1;
            } else {
                from = end;
                assert(text@.skip(from as int).len() == 0);
            }
        }
        Config::drop_default(&mut config.fonts);
        Config::drop_default(&mut config.ft_clrs);
        Config::drop_default(&mut config.bg_clrs);
        Config::drop_default(&mut config.ul_clrs);
        (config, complaints)
    }
}

} // verus!
