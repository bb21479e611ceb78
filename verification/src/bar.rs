//! What the bar decides while it runs: what a line of input asks for, where
//! the bar stands on the screen, and how much of the screen it keeps free.

use vstd::prelude::*;
use crate::chars::{find, from_chars, index_of, same, substring, to_chars, trim, trimmed};
use crate::numbers::{index_text, nat_text, parse_u32, parse_usize};

verus! {

/// The line to hand on for a line as it was read from the input: nothing for
/// an empty one, and else the line without the white space around it.
pub fn input_line(raw: &str) -> (line: Option<String>)
    ensures
        match line {
            Some(text) => raw@.len() > 0 && text@ == trimmed(raw@),
            None => raw@.len() == 0,
        },
{
    if raw.is_empty() {
        None
    } else {
        Some(trim(raw))
    }
}

/// Whether `s` starts with `prefix`.
pub open spec fn starts_with(s: Seq<char>, prefix: Seq<char>) -> bool {
    s.len() >= prefix.len() && s.take(prefix.len() as int) == prefix
}

/// The position of the first `<|>` in `s`, and the length of `s` where there
/// is none.
pub open spec fn mark_at(s: Seq<char>) -> int
    decreases s.len(),
{
    if s.len() < 3 {
        s.len() as int
    } else if s[0] == '<' && s[1] == '|' && s[2] == '>' {
        0
    } else {
        1 + mark_at(s.drop_first())
    }
}

/// The pieces of `s` between its marks `<|>`, found from the left.
pub open spec fn pieces(s: Seq<char>) -> Seq<Seq<char>>
    decreases s.len(),
{
    let at = mark_at(s);
    if 0 <= at && at + 3 <= s.len() {
        seq![s.take(at)] + pieces(s.skip(at + 3))
    } else {
        seq![s]
    }
}

/// What stands between the first `:` of `s` and the next, or the end.
pub open spec fn second_field(s: Seq<char>) -> Option<Seq<char>> {
    let first = index_of(s, ':');
    if 0 <= first < s.len() {
        let rest = s.skip(first + 1);
        Some(rest.take(index_of(rest, ':')))
    } else {
        None
    }
}

/// What a line of input asks the bar to do.
pub enum Order {
    /// To close.
    Quit,
    /// To note a process to end when the bar closes, if the line names one.
    Kill(Option<u32>),
    /// To show these texts. A part that is not there is emptied.
    Show { left: Seq<char>, center: Option<Seq<char>>, right: Option<Seq<char>> },
}

/// What the line `s` asks for. `QUIT NOW` asks to close. A line that starts
/// with `PLEASE KILL:` names a process by the number behind that colon, up
/// to the next colon if there is one. Any other line is shown: all of it on
/// the left if it has no mark `<|>`, its two pieces on the left and on the
/// right if it has one, and its first three pieces on the left, in the
/// centre and on the right if it has more.
pub open spec fn order(s: Seq<char>) -> Order {
    if s == "QUIT NOW"@ {
        Order::Quit
    } else if starts_with(s, "PLEASE KILL:"@) {
        Order::Kill(
            match second_field(s) {
                Some(field) => nat_text(field),
                None => None,
            },
        )
    } else {
        let parts = pieces(s);
        Order::Show {
            left: parts[0],
            center: if parts.len() >= 3 {
                Some(parts[1])
            } else {
                None
            },
            right: if parts.len() >= 3 {
                Some(parts[2])
            } else if parts.len() == 2 {
                Some(parts[1])
            } else {
                None
            },
        }
    }
}

/// What a line of input asks the bar to do, see `Order`.
#[derive(Debug, PartialEq, Eq)]
pub enum Message {
    Quit,
    Kill(Option<u32>),
    Show { left: String, center: Option<String>, right: Option<String> },
}

/// The text of a string that may not be there.
pub open spec fn text_of(s: Option<String>) -> Option<Seq<char>> {
    match s {
        Some(s) => Some(s@),
        None => None,
    }
}

impl View for Message {
    type V = Order;

    open spec fn view(&self) -> Order {
        match self {
            Message::Quit => Order::Quit,
            Message::Kill(id) => Order::Kill(*id),
            Message::Show { left, center, right } => Order::Show {
                left: left@,
                center: text_of(*center),
                right: text_of(*right),
            },
        }
    }
}

/// Whether the characters `v` start with `prefix`.
fn has_prefix(v: &Vec<char>, prefix: &str) -> (has: bool)
    ensures
        has == starts_with(v@, prefix@),
{
    let p = to_chars(prefix);
    if v.len() < p.len() {
        return false;
    }
    let mut i: usize = 0;
    while i < p.len()
        invariant
            i <= p.len() <= v.len(),
            p@ == prefix@,
            forall|j: int| 0 <= j < i ==> v@[j] == p@[j],
        decreases p.len() - i,
    {
        if v[i] != p[i] {
            assert(v@.take(p@.len() as int)[i as int] != p@[i as int]);
            return false;
        }
        i += 1;
    }
    assert(v@.take(p@.len() as int) =~= p@);
    true
}

/// The position of the first mark `<|>` in `v` from `from` on, and the
/// length of `v` where there is none.
fn find_mark(v: &Vec<char>, from: usize) -> (at: usize)
    requires
        from <= v.len(),
    ensures
        from <= at <= v.len(),
        at - from == mark_at(v@.skip(from as int)),
        at < v.len() ==> at + 3 <= v.len(),
{
    let mut at: usize = from;
    while v.len() - at >= 3 && !(v[at] == '<' && v[at + 1] == '|' && v[at + 2] == '>')
        invariant
            from <= at <= v.len(),
            mark_at(v@.skip(from as int)) == (at - from) + mark_at(v@.skip(at as int)),
        decreases v.len() - at,
    {
        assert(v@.skip(at as int).drop_first() == v@.skip(at + 1));
        at += 1;
    }
    if v.len() - at < 3 {
        v.len()
    } else {
        at
    }
}

/// A text has at least one piece.
proof fn lemma_pieces_first(s: Seq<char>)
    ensures
        pieces(s).len() >= 1,
{
}

impl Message {
    /// What the line `line` asks for, see `order`.
    pub fn read(line: &str) -> (message: Message)
        ensures
            message@ == order(line@),
    {
        let v = to_chars(line);
        if same(line, "QUIT NOW") {
            return Message::Quit;
        }
        if has_prefix(&v, "PLEASE KILL:") {
            let first = find(&v, 0, v.len(), ':');
            assert(v@.subrange(0, v@.len() as int) == v@);
            if first == v.len() {
                return Message::Kill(None);
            }
            let next = find(&v, first + 1, v.len(), ':');
            let field = substring(&v, first + 1, next);
            proof {
                let rest = v@.skip(first + 1);
                assert(rest == v@.subrange(first + 1, v@.len() as int));
                assert(rest.take(next - first - 1) == v@.subrange(first + 1, next as int));
            }
            return Message::Kill(parse_u32(field.as_str()));
        }
        let ghost all = v@;
        assert(all.skip(0) == all);
        let first = find_mark(&v, 0);
        if first == v.len() {
            return Message::Show { left: from_chars(&v), center: None, right: None };
        }
        let left = substring(&v, 0, first);
        let ghost rest = all.skip(first + 3);
        assert(all.take(first as int) == all.subrange(0, first as int));
        assert(pieces(all) == seq![all.take(first as int)] + pieces(rest));
        proof {
            lemma_pieces_first(rest);
        }
        let second = find_mark(&v, first + 3);
        if second == v.len() {
            let right = substring(&v, first + 3, v.len());
            assert(rest == all.subrange(first + 3, all.len() as int));
            assert(pieces(rest) == seq![rest]);
            return Message::Show { left, center: None, right: Some(right) };
        }
        let center = substring(&v, first + 3, second);
        let ghost last = all.skip(second + 3);
        assert(rest.take(second - first - 3) == all.subrange(first + 3, second as int));
        assert(rest.skip(second - first - 3 + 3) == last);
        assert(pieces(rest) == seq![rest.take(second - first - 3)] + pieces(last));
        proof {
            lemma_pieces_first(last);
        }
        let third = find_mark(&v, second + 3);
        let right = substring(&v, second + 3, third);
        proof {
            if third == v.len() {
                assert(last == all.subrange(second + 3, third as int));
            } else {
                assert(last.take(third - second - 3) == all.subrange(second + 3, third as int));
            }
        }
        Message::Show { left, center: Some(center), right: Some(right) }
    }
}

/// The monitor that the bar is asked to stand on.
#[derive(Debug, PartialEq, Eq)]
pub enum Monitor {
    /// None: the bar takes the whole display.
    Display,
    /// The screen with this number.
    Screen(usize),
    /// The output with this name.
    Output(String),
}

impl Monitor {
    /// The monitor that the setting `monitor` names: none where it is empty,
    /// a screen where it is a number, and else an output.
    pub fn read(monitor: &str) -> (choice: Monitor)
        ensures
            match choice {
                Monitor::Display => monitor@.len() == 0,
                Monitor::Screen(number) => monitor@.len() > 0 && index_text(monitor@) == Some(
                    number,
                ),
                Monitor::Output(name) => monitor@.len() > 0 && index_text(monitor@).is_none()
                    && name@ == monitor@,
            },
    {
        if monitor.is_empty() {
            Monitor::Display
        } else {
            match parse_usize(monitor) {
                Some(number) => Monitor::Screen(number),
                None => Monitor::Output(monitor.to_owned()),
            }
        }
    }
}

/// A rectangle of the display: a screen or an output.
#[derive(Clone, Copy, Debug, PartialEq, Eq, Structural)]
pub struct Screen {
    pub x: i32,
    pub y: i32,
    pub width: i32,
    pub height: i32,
}

/// Where the bar stands: its left edge, its upper edge and its width.
#[derive(Clone, Copy, Debug, PartialEq, Eq, Structural)]
pub struct Geometry {
    pub x: i32,
    pub y: i64,
    pub width: i32,
}

impl Geometry {
    /// The bar over the whole display: at its upper edge, or with its lower
    /// edge on the lower edge of the display.
    pub fn on_display(width: i32, height: i32, top: bool, bar_height: i32) -> (place: Geometry)
        ensures
            place.x == 0,
            place.width == width,
            place.y == if top {
                0
            } else {
                height - bar_height
            },
    {
        Geometry {
            x: 0,
            y: if top {
                0
            } else {
                height as i64 - bar_height as i64
            },
            width,
        }
    }

    /// The bar on one of the screens `screens`: on screen `number`, or on
    /// the first screen where there is no such screen; at its upper edge, or
    /// with its lower edge on the lower edge of the screen. Without a screen
    /// there is no place.
    pub fn on_screen(screens: &[Screen], number: usize, top: bool, bar_height: i32) -> (place:
        Option<Geometry>)
        ensures
            match place {
                Some(place) => {
                    let screen = if number < screens@.len() {
                        screens@[number as int]
                    } else {
                        screens@[0]
                    };
                    &&& screens@.len() > 0
                    &&& place.x == screen.x
                    &&& place.width == screen.width
                    &&& place.y == if top {
                        screen.y as int
                    } else {
                        screen.y + screen.height - bar_height
                    }
                },
                None => screens@.len() == 0,
            },
    {
        if screens.len() == 0 {
            return None;
        }
        let screen = if number < screens.len() {
            screens[number]
        } else {
            screens[0]
        };
        Some(
            Geometry {
                x: screen.x,
                y: if top {
                    screen.y as i64
                } else {
                    screen.y as i64 + screen.height as i64 - bar_height as i64
                },
                width: screen.width,
            },
        )
    }

    /// The bar on the output `output`: at its upper edge, or as far down as
    /// the output is higher than the bar.
    pub fn on_output(output: Screen, top: bool, bar_height: i32) -> (place: Geometry)
        ensures
            place.x == output.x,
            place.width == output.width,
            place.y == if top {
                output.y as int
            } else {
                output.height - bar_height
            },
    {
        Geometry {
            x: output.x,
            y: if top {
                output.y as i64
            } else {
                output.height as i64 - bar_height as i64
            },
            width: output.width,
        }
    }
}

/// The first of `names` that is `name`, by its place.
pub fn find_output(names: &Vec<String>, name: &str) -> (at: Option<usize>)
    ensures
        match at {
            Some(at) => at < names@.len() && names@[at as int]@ == name@ && forall|j: int|
                0 <= j < at ==> names@[j]@ != name@,
            None => forall|j: int| 0 <= j < names@.len() ==> names@[j]@ != name@,
        },
{
    let mut at: usize = 0;
    while at < names.len()
        invariant
            at <= names.len(),
            forall|j: int| 0 <= j < at ==> names@[j]@ != name@,
        decreases names.len() - at,
    {
        if same(names[at].as_str(), name) {
            return Some(at);
        }
        at += 1;
    }
    None
}

/// The twelve numbers that tell the window manager how much of the screen
/// the bar keeps free: its height at the top or at the bottom, and the first
/// and the last pixel column that it takes there.
pub open spec fn strut_of(top: bool, x: i32, width: i32, height: i32) -> Seq<i64> {
    if top {
        seq![0, 0, height as i64, 0, 0, 0, 0, 0, x as i64, (x + width - 1) as i64, 0, 0]
    } else {
        seq![0, 0, 0, height as i64, 0, 0, 0, 0, 0, 0, x as i64, (x + width - 1) as i64]
    }
}

/// The strut of the bar, see `strut_of`.
pub fn strut(top: bool, x: i32, width: i32, height: i32) -> (strut: [i64; 12])
    ensures
        strut@ == strut_of(top, x, width, height),
{
    let last = x as i64 + width as i64 - 1;
    let strut = if top {
        [0, 0, height as i64, 0, 0, 0, 0, 0, x as i64, last, 0, 0]
    } else {
        [0, 0, 0, height as i64, 0, 0, 0, 0, 0, 0, x as i64, last]
    };
    assert(strut@ =~= strut_of(top, x, width, height));
    strut
}

} // verus!
