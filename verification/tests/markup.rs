use unibar::markup::{IndexType, Limits, Markup, Refused};
use unibar::runs::{DisplayTemp, DEFAULT};

fn limits() -> Limits {
    Limits { background: 3, underline: 2, font: 4, faces: 3 }
}

fn run(idx: usize, start: usize, end: usize) -> DisplayTemp {
    DisplayTemp { idx, start, end }
}

#[test]
fn text_without_markup_has_the_rest_values() {
    let m = Markup::parse("hello", &limits());
    assert_eq!(m.text, "hello");
    assert!(m.background.is_empty());
    assert!(m.underline.is_empty());
    assert_eq!(m.font_colour, vec![run(0, 0, 5)]);
    assert_eq!(m.font_face, vec![run(DEFAULT, 0, 5)]);
}

#[test]
fn empty_line_has_no_runs() {
    let m = Markup::parse("", &limits());
    assert_eq!(m.text, "");
    assert!(m.background.is_empty());
    assert!(m.underline.is_empty());
    assert!(m.font_colour.is_empty());
    assert!(m.font_face.is_empty());
}

#[test]
fn background_opens_and_closes() {
    let m = Markup::parse("{B1}hi{/B}there", &limits());
    assert_eq!(m.text, "hithere");
    assert_eq!(m.background, vec![run(1, 0, 2)]);
    assert!(m.underline.is_empty());
    assert_eq!(m.font_colour, vec![run(0, 0, 7)]);
    assert_eq!(m.font_face, vec![run(DEFAULT, 0, 7)]);
}

#[test]
fn font_colour_changes_without_closing() {
    let m = Markup::parse("{F2}ab{F0}cd", &limits());
    assert_eq!(m.text, "abcd");
    assert_eq!(m.font_colour, vec![run(2, 0, 2), run(0, 2, 4)]);
}

#[test]
fn value_that_is_not_on_offer_changes_nothing() {
    let m = Markup::parse("{B9}x", &limits());
    assert_eq!(m.text, "x");
    assert!(m.background.is_empty());
    let m = Markup::parse("{B3}x", &limits());
    assert!(m.background.is_empty());
    let m = Markup::parse("{B2}x", &limits());
    assert_eq!(m.background, vec![run(2, 0, 1)]);
    let m = Markup::parse("{H1}x{H2}y", &limits());
    assert_eq!(m.underline, vec![run(1, 0, 2)]);
}

#[test]
fn no_value_is_on_offer_in_an_empty_list() {
    let none = Limits { background: 0, underline: 0, font: 0, faces: 0 };
    let m = Markup::parse("{B0}{H0}{F0}{f0}x", &none);
    assert_eq!(m.text, "x");
    assert!(m.background.is_empty());
    assert!(m.underline.is_empty());
    assert_eq!(m.font_colour, vec![run(0, 0, 1)]);
    assert_eq!(m.font_face, vec![run(DEFAULT, 0, 1)]);
}

#[test]
fn one_block_holds_many_directives() {
    let m = Markup::parse("{B1H0F3f1}x", &limits());
    assert_eq!(m.text, "x");
    assert_eq!(m.background, vec![run(1, 0, 1)]);
    assert_eq!(m.underline, vec![run(0, 0, 1)]);
    assert_eq!(m.font_colour, vec![run(3, 0, 1)]);
    assert_eq!(m.font_face, vec![run(1, 0, 1)]);
}

#[test]
fn face_and_colour_are_tracked_apart() {
    let m = Markup::parse("{F1}{f2}mixed{/f}{/F}", &limits());
    assert_eq!(m.text, "mixed");
    assert_eq!(m.font_colour, vec![run(1, 0, 5)]);
    assert_eq!(m.font_face, vec![run(2, 0, 5)]);
}

#[test]
fn closing_takes_a_channel_back_to_rest() {
    let m = Markup::parse("a{f1}b{/f}c{F3}d{/F}e", &limits());
    assert_eq!(m.text, "abcde");
    assert_eq!(m.font_face, vec![run(DEFAULT, 0, 1), run(1, 1, 2), run(DEFAULT, 2, 5)]);
    assert_eq!(m.font_colour, vec![run(0, 0, 3), run(3, 3, 4), run(0, 4, 5)]);
}

#[test]
fn empty_runs_are_dropped() {
    let m = Markup::parse("{B1}{B2}x", &limits());
    assert_eq!(m.background, vec![run(2, 0, 1)]);
    let m = Markup::parse("x{B1}", &limits());
    assert!(m.background.is_empty());
    let m = Markup::parse("{F1}{F2}{F3}", &limits());
    assert!(m.font_colour.is_empty());
}

#[test]
fn a_brace_that_closes_nothing_is_text() {
    let m = Markup::parse("a}b", &limits());
    assert_eq!(m.text, "a}b");
}

#[test]
fn a_bare_closing_brace_leaves_the_channels() {
    let m = Markup::parse("{B1}a{}b", &limits());
    assert_eq!(m.text, "ab");
    assert_eq!(m.background, vec![run(1, 0, 2)]);
}

#[test]
fn unknown_letters_in_a_block_are_passed_over() {
    let m = Markup::parse("{xB1y}a", &limits());
    assert_eq!(m.text, "a");
    assert_eq!(m.background, vec![run(1, 0, 1)]);
}

#[test]
fn waiting_for_a_digit_passes_over_everything_else() {
    let m = Markup::parse("{Bxyz1}a", &limits());
    assert_eq!(m.text, "a");
    assert_eq!(m.background, vec![run(1, 0, 1)]);
    let m = Markup::parse("{B}abc1}d", &limits());
    assert_eq!(m.text, "d");
    assert_eq!(m.background, vec![run(1, 0, 1)]);
    let m = Markup::parse("{F}never a digit", &limits());
    assert_eq!(m.text, "");
    assert!(m.font_colour.is_empty());
}

#[test]
fn closing_lasts_to_the_end_of_the_block() {
    let m = Markup::parse("{B1}a{/BF2}b", &limits());
    assert_eq!(m.text, "ab");
    assert_eq!(m.background, vec![run(1, 0, 1)]);
    assert_eq!(m.font_colour, vec![run(0, 0, 1), run(0, 1, 2)]);
    let m = Markup::parse("{/xB}a{B1}b", &limits());
    assert_eq!(m.text, "ab");
    assert_eq!(m.background, vec![run(1, 1, 2)]);
}

#[test]
fn a_block_that_never_ends_swallows_the_rest() {
    let m = Markup::parse("ab{B1 and more", &limits());
    assert_eq!(m.text, "ab");
    assert!(m.background.is_empty());
    assert_eq!(m.font_colour, vec![run(0, 0, 2)]);
}

#[test]
fn positions_count_characters_not_bytes() {
    let m = Markup::parse("{B1}\u{e9}{/B}\u{fc}\u{1f600}", &limits());
    assert_eq!(m.text, "\u{e9}\u{fc}\u{1f600}");
    assert_eq!(m.background, vec![run(1, 0, 1)]);
    assert_eq!(m.font_colour, vec![run(0, 0, 3)]);
}

#[test]
fn only_ascii_digits_are_digits() {
    let m = Markup::parse("{B\u{661}1}x", &limits());
    assert_eq!(m.text, "x");
    assert_eq!(m.background, vec![run(1, 0, 1)]);
}

#[test]
fn font_runs_tile_the_text() {
    for raw in ["", "a", "{F1}a{F2}b{/F}c", "{f1}{f2}ab{/f}{f0}c{/f}", "{B1}x{H1}y{/B}z{/H}"] {
        let m = Markup::parse(raw, &limits());
        let len = m.text.chars().count();
        for runs in [&m.font_colour, &m.font_face] {
            let mut at = 0;
            for r in runs.iter() {
                assert_eq!(r.start, at);
                assert!(r.start < r.end);
                at = r.end;
            }
            assert_eq!(at, len);
        }
    }
}

#[test]
fn refused_directives_are_listed() {
    let m = Markup::parse("a{B3}b{H2F9}c{f3}{B1}", &limits());
    assert_eq!(m.text, "abc");
    assert_eq!(
        m.refused,
        vec![
            Refused { kind: IndexType::BackgroundColour, idx: 3, at: 1 },
            Refused { kind: IndexType::HighlightColour, idx: 2, at: 2 },
            Refused { kind: IndexType::FontColour, idx: 9, at: 2 },
            Refused { kind: IndexType::FontFace, idx: 3, at: 3 },
        ]
    );
    assert!(m.background.is_empty());
    assert!(m.underline.is_empty());
    let m = Markup::parse("{B0}{H1}{F3}{f2}x{/B}", &limits());
    assert!(m.refused.is_empty());
}
