use unibar::faces::FontMap;
use unibar::glyphs::FontDisplayInfo;
use unibar::input::{ColourPalette, FontMetrics, Input, Request};
use unibar::markup::{IndexType, Refused};
use unibar::rects::RectDisplayInfo;
use unibar::runs::DisplayTemp;

/// A set of pretend fonts: font `f` shows the characters for which
/// `shows(f, ch)` holds, and every character is `10 + f` pixels wide in it.
struct Fonts {
    count: usize,
    shows: fn(usize, char) -> bool,
}

impl Fonts {
    fn glyphs(&self, ch: char) -> Vec<bool> {
        (0..self.count).map(|f| (self.shows)(f, ch)).collect()
    }

    fn width(&self, face: usize, text: &str) -> u32 {
        (text.chars().count() * (10 + face)) as u32
    }
}

impl FontMetrics for Fonts {
    fn supports(&self, face: usize, ch: char) -> bool {
        (self.shows)(face, ch)
    }

    fn measure(&self, face: usize, text: &str) -> u32 {
        self.width(face, text)
    }
}

fn all(_: usize, _: char) -> bool {
    true
}

fn run_line(line: &mut Input, map: &mut FontMap, colours: &ColourPalette, fonts: &Fonts, raw: &str) {
    let pieces = loop {
        match line.parse_string(map, colours, fonts.count, raw) {
            Request::Glyphs(chars) => {
                assert!(!chars.is_empty());
                for ch in chars {
                    map.learn(ch, &fonts.glyphs(ch));
                }
            }
            Request::Widths(pieces) => break pieces,
        }
    };
    let chars: Vec<char> = line.text().chars().collect();
    let widths: Vec<u32> = pieces
        .iter()
        .map(|p| {
            let chunk: String = chars[p.start..p.end].iter().collect();
            fonts.width(p.idx, &chunk)
        })
        .collect();
    assert!(line.place(&widths));
}

fn palette(background: usize, underline: usize, font: usize) -> ColourPalette {
    ColourPalette { background, underline, font }
}

#[test]
fn plain_text_is_one_glyph_run() {
    let fonts = Fonts { count: 2, shows: |f, _| f == 1 };
    let mut map = FontMap::new();
    let mut line = Input::empty();
    run_line(&mut line, &mut map, &palette(3, 3, 3), &fonts, "hello");
    assert_eq!(line.text(), "hello");
    assert_eq!(
        line.text_display(),
        &vec![FontDisplayInfo { face_idx: 1, col_idx: 0, start: 0, end: 5 }]
    );
    assert!(line.backgrounds().is_empty());
    assert!(line.underlines().is_empty());
    assert_eq!(line.len(), 55);
}

#[test]
fn background_block_covers_its_text() {
    let fonts = Fonts { count: 1, shows: all };
    let mut map = FontMap::new();
    let mut line = Input::empty();
    run_line(&mut line, &mut map, &palette(3, 3, 3), &fonts, "{B1}hi{/B}there");
    assert_eq!(line.text(), "hithere");
    assert_eq!(line.backgrounds(), &vec![RectDisplayInfo { idx: 1, start: 0, end: 20 }]);
    assert!(line.underlines().is_empty());
    assert_eq!(
        line.text_display(),
        &vec![FontDisplayInfo { face_idx: 0, col_idx: 0, start: 0, end: 7 }]
    );
}

#[test]
fn font_colours_split_the_text() {
    let fonts = Fonts { count: 1, shows: all };
    let mut map = FontMap::new();
    let mut line = Input::empty();
    run_line(&mut line, &mut map, &palette(3, 3, 3), &fonts, "{F2}ab{F0}cd");
    assert_eq!(line.text(), "abcd");
    assert_eq!(
        line.text_display(),
        &vec![
            FontDisplayInfo { face_idx: 0, col_idx: 2, start: 0, end: 2 },
            FontDisplayInfo { face_idx: 0, col_idx: 0, start: 2, end: 4 },
        ]
    );
}

#[test]
fn directive_out_of_range_is_dropped() {
    let fonts = Fonts { count: 1, shows: all };
    let mut map = FontMap::new();
    let mut line = Input::empty();
    run_line(&mut line, &mut map, &palette(3, 3, 3), &fonts, "{B9}x");
    assert_eq!(line.text(), "x");
    assert!(line.backgrounds().is_empty());
    assert_eq!(
        line.refused(),
        &vec![Refused { kind: IndexType::BackgroundColour, idx: 9, at: 0 }]
    );
    assert_eq!(
        line.text_display(),
        &vec![FontDisplayInfo { face_idx: 0, col_idx: 0, start: 0, end: 1 }]
    );
}

#[test]
fn nested_channels_meet_in_one_glyph_run() {
    let fonts = Fonts { count: 3, shows: all };
    let mut map = FontMap::new();
    let mut line = Input::empty();
    run_line(&mut line, &mut map, &palette(3, 3, 3), &fonts, "{F1}{f2}mixed{/f}{/F}");
    assert_eq!(line.text(), "mixed");
    assert_eq!(
        line.text_display(),
        &vec![FontDisplayInfo { face_idx: 2, col_idx: 1, start: 0, end: 5 }]
    );
    assert_eq!(line.len(), 60);
}

#[test]
fn pieces_to_measure_follow_the_glyph_runs() {
    let fonts = Fonts { count: 2, shows: all };
    let mut map = FontMap::new();
    for ch in "abc".chars() {
        map.learn(ch, &fonts.glyphs(ch));
    }
    let mut line = Input::empty();
    match line.parse_string(&map, &palette(1, 1, 1), 2, "a{f1}bc") {
        Request::Widths(pieces) => assert_eq!(
            pieces,
            vec![
                DisplayTemp { idx: 0, start: 0, end: 1 },
                DisplayTemp { idx: 1, start: 1, end: 2 },
                DisplayTemp { idx: 1, start: 1, end: 3 },
            ]
        ),
        Request::Glyphs(_) => panic!("every character is known"),
    }
    assert!(!line.is_measured());
    assert_eq!(line.len(), 0);
}

#[test]
fn unknown_characters_are_asked_for_once_each() {
    let mut map = FontMap::new();
    map.learn('l', &[true]);
    let mut line = Input::empty();
    match line.parse_string(&map, &palette(1, 1, 1), 1, "{B0}hello") {
        Request::Glyphs(chars) => assert_eq!(chars, vec!['h', 'e', 'o']),
        Request::Widths(_) => panic!("three characters are not known"),
    }
    assert_eq!(line.text(), "");
    assert!(line.text_display().is_empty());
    assert!(line.is_measured());
}

#[test]
fn markup_characters_need_no_face() {
    let map = FontMap::new();
    let mut line = Input::empty();
    match line.parse_string(&map, &palette(3, 3, 3), 1, "{B1}{/B}{F2}") {
        Request::Widths(pieces) => assert!(pieces.is_empty()),
        Request::Glyphs(_) => panic!("there is no text"),
    }
    assert!(line.is_measured());
    assert!(line.place(&[]));
    assert_eq!(line.len(), 0);
}

#[test]
fn parsing_twice_gives_the_same_line() {
    let fonts = Fonts { count: 3, shows: |f, ch| f == 2 || (f == 1 && ch.is_ascii()) };
    let colours = palette(3, 3, 3);
    let raw = "{B1}ab{H2}c\u{3b1}{/B}{f0}d{/H}e{F2}\u{3b2}";
    let mut map = FontMap::new();
    let mut first = Input::empty();
    run_line(&mut first, &mut map, &colours, &fonts, raw);
    let mut second = Input::empty();
    match second.parse_string(&map, &colours, fonts.count, raw) {
        Request::Glyphs(_) => panic!("every character is known by now"),
        Request::Widths(_) => {}
    }
    run_line(&mut second, &mut map, &colours, &fonts, raw);
    assert_eq!(first, second);
    assert_eq!(first.text(), second.text());
    assert_eq!(first.text_display(), second.text_display());
    assert_eq!(first.backgrounds(), second.backgrounds());
    assert_eq!(first.underlines(), second.underlines());
    assert_eq!(first.len(), second.len());
    run_line(&mut first, &mut map, &colours, &fonts, raw);
    assert_eq!(first, second);
}

#[test]
fn default_faces_follow_the_fonts() {
    let fonts = Fonts { count: 3, shows: |f, ch| f == 2 || (f == 1 && ch.is_ascii()) };
    let mut map = FontMap::new();
    let mut line = Input::empty();
    run_line(&mut line, &mut map, &palette(3, 3, 3), &fonts, "ab\u{3b1}\u{3b2}c{f0}d{/f}e");
    assert_eq!(
        line.text_display(),
        &vec![
            FontDisplayInfo { face_idx: 1, col_idx: 0, start: 0, end: 2 },
            FontDisplayInfo { face_idx: 2, col_idx: 0, start: 2, end: 4 },
            FontDisplayInfo { face_idx: 1, col_idx: 0, start: 4, end: 5 },
            FontDisplayInfo { face_idx: 0, col_idx: 0, start: 5, end: 6 },
            FontDisplayInfo { face_idx: 1, col_idx: 0, start: 6, end: 7 },
        ]
    );
    assert_eq!(line.len(), 22 + 24 + 11 + 10 + 11);
    assert_eq!(line.offsets(), vec![0, 22, 46, 57, 67]);
    assert_eq!(map.get('a'), Some(1));
    assert_eq!(map.get('\u{3b1}'), Some(2));
    assert_eq!(map.get('{'), None);
}

#[test]
fn bars_of_both_kinds_are_placed() {
    let fonts = Fonts { count: 2, shows: all };
    let mut map = FontMap::new();
    let mut line = Input::empty();
    run_line(&mut line, &mut map, &palette(3, 3, 3), &fonts, "a{B2}bc{H1}d{/B}{f1}ef{/H}g");
    assert_eq!(line.text(), "abcdefg");
    assert_eq!(
        line.text_display(),
        &vec![
            FontDisplayInfo { face_idx: 0, col_idx: 0, start: 0, end: 4 },
            FontDisplayInfo { face_idx: 1, col_idx: 0, start: 4, end: 7 },
        ]
    );
    assert_eq!(line.backgrounds(), &vec![RectDisplayInfo { idx: 2, start: 10, end: 51 }]);
    assert_eq!(line.underlines(), &vec![RectDisplayInfo { idx: 1, start: 30, end: 62 }]);
    assert_eq!(line.len(), 73);
}

#[test]
fn glyph_runs_cover_the_text_of_every_line() {
    let fonts = Fonts { count: 3, shows: |f, ch| f == 2 || (f == 1 && ch.is_ascii()) };
    let mut map = FontMap::new();
    for raw in [
        "",
        "plain",
        "{F1}a{f2}b{/F}c{/f}d",
        "{B1}\u{3b1}{H1}b{/B}\u{3b2}{/H}",
        "{f0}a{f1}b{f2}c{F1}d{F2}e{F0}f",
        "{B}never",
        "x{/F/f/B/H}y",
    ] {
        let mut line = Input::empty();
        run_line(&mut line, &mut map, &palette(3, 3, 3), &fonts, raw);
        let mut at = 0;
        for g in line.text_display().iter() {
            assert_eq!(g.start, at);
            assert!(g.start < g.end);
            at = g.end;
        }
        assert_eq!(at, line.text().chars().count());
        for bar in line.backgrounds().iter().chain(line.underlines().iter()) {
            assert!(bar.start <= bar.end);
        }
        for list in [line.backgrounds(), line.underlines()] {
            for pair in list.windows(2) {
                assert!(pair[0].start <= pair[1].start);
                assert!(pair[0].end <= pair[1].end);
            }
        }
    }
}

#[test]
fn widths_of_another_length_are_refused() {
    let fonts = Fonts { count: 1, shows: all };
    let mut map = FontMap::new();
    for ch in "abc".chars() {
        map.learn(ch, &fonts.glyphs(ch));
    }
    let mut line = Input::empty();
    line.parse_string(&map, &palette(2, 2, 2), 1, "{B1}abc");
    assert!(!line.place(&[10, 20]));
    assert!(!line.place(&[10, 20, 30, 40]));
    assert!(!line.place(&[]));
    assert!(!line.is_measured());
    assert!(line.backgrounds().is_empty());
    assert_eq!(line.text(), "abc");
    assert!(line.place(&[10, 20, 30]));
    assert!(line.is_measured());
    assert_eq!(line.backgrounds(), &vec![RectDisplayInfo { idx: 1, start: 0, end: 30 }]);
    assert!(line.place(&[1, 2, 3]));
    assert_eq!(line.backgrounds(), &vec![RectDisplayInfo { idx: 1, start: 0, end: 3 }]);
    assert_eq!(line.len(), 3);
}

#[test]
fn clear_empties_the_line() {
    let fonts = Fonts { count: 1, shows: all };
    let mut map = FontMap::new();
    let mut line = Input::empty();
    run_line(&mut line, &mut map, &palette(3, 3, 3), &fonts, "{B1}{H1}abc");
    assert!(!line.backgrounds().is_empty());
    line.clear();
    assert_eq!(line.text(), "");
    assert!(line.text_display().is_empty());
    assert!(line.backgrounds().is_empty());
    assert!(line.underlines().is_empty());
    assert_eq!(line.len(), 0);
    assert!(line.offsets().is_empty());
}

#[test]
fn empty_line_is_empty() {
    let line = Input::empty();
    assert_eq!(line.text(), "");
    assert!(line.text_display().is_empty());
    assert!(line.backgrounds().is_empty());
    assert!(line.underlines().is_empty());
    assert!(line.is_measured());
    assert_eq!(line.len(), 0);
}

#[test]
fn empty_palette_has_no_colours() {
    assert_eq!(ColourPalette::empty(), palette(0, 0, 0));
}

#[test]
fn one_call_makes_the_whole_line() {
    let fonts = Fonts { count: 3, shows: |f, ch| f == 2 || (f == 1 && ch.is_ascii()) };
    let colours = palette(3, 3, 3);
    for raw in [
        "",
        "hello",
        "{B1}hi{/B}there",
        "a{B2}bc{H1}d{/B}{f1}ef{/H}g",
        "{B1}ab{H2}c\u{3b1}{/B}{f0}d{/H}e{F2}\u{3b2}",
        "{B9}x{F}y",
    ] {
        let mut map = FontMap::new();
        let mut stepwise = Input::empty();
        run_line(&mut stepwise, &mut map, &colours, &fonts, raw);
        let mut other_map = FontMap::new();
        let mut at_once = Input::empty();
        at_once.parse_line(&fonts, &mut other_map, &colours, fonts.count, raw);
        assert!(at_once.is_measured());
        assert_eq!(at_once, stepwise);
        for ch in at_once.text().chars() {
            assert_eq!(other_map.get(ch), map.get(ch));
            assert!(other_map.get(ch).is_some());
        }
        at_once.parse_line(&fonts, &mut other_map, &colours, fonts.count, raw);
        assert_eq!(at_once, stepwise);
    }
}

#[test]
fn one_call_keeps_the_faces_that_are_known() {
    let fonts = Fonts { count: 2, shows: all };
    let mut map = FontMap::new();
    map.learn('a', &[false, true]);
    let mut line = Input::empty();
    line.parse_line(&fonts, &mut map, &palette(1, 1, 1), fonts.count, "aba");
    assert_eq!(map.get('a'), Some(1));
    assert_eq!(map.get('b'), Some(0));
    assert_eq!(
        line.text_display(),
        &vec![
            FontDisplayInfo { face_idx: 1, col_idx: 0, start: 0, end: 1 },
            FontDisplayInfo { face_idx: 0, col_idx: 0, start: 1, end: 2 },
            FontDisplayInfo { face_idx: 1, col_idx: 0, start: 2, end: 3 },
        ]
    );
    assert_eq!(line.len(), 11 + 10 + 11);
}

#[test]
fn a_character_that_no_font_shows_gets_the_first_font() {
    let fonts = Fonts { count: 2, shows: |_, ch| ch != '?' };
    let mut map = FontMap::new();
    let mut line = Input::empty();
    line.parse_line(&fonts, &mut map, &palette(1, 1, 1), fonts.count, "a?");
    assert_eq!(map.get('?'), Some(0));
    assert_eq!(
        line.text_display(),
        &vec![FontDisplayInfo { face_idx: 0, col_idx: 0, start: 0, end: 2 }]
    );
}
