use unibar::glyphs::FontDisplayInfo;
use unibar::input::{ColourPalette, FontMetrics};
use unibar::rects::RectDisplayInfo;
use unibar::runs::DisplayTemp;
use unibar::valid_string::{DisplayType, ValidString};

fn colours() -> ColourPalette {
    ColourPalette { background: 2, underline: 2, font: 2 }
}

#[test]
fn valid_string_starts_empty() {
    let line = ValidString::empty();
    assert_eq!(line.text(), "");
    assert!(line.text_display().is_empty());
    assert!(line.backgrounds().is_empty());
    assert!(line.highlights().is_empty());
    assert_eq!(line.len(), 0);
}

#[test]
fn valid_string_shows_the_text_of_the_markup() {
    assert_eq!(ValidString::shown("{B1}ab{/B}c", &colours(), 2), "abc");
    assert_eq!(ValidString::shown("{F}abc", &colours(), 2), "");
}

#[test]
fn valid_string_takes_default_faces_from_its_caller() {
    let (mut line, pieces) =
        ValidString::parse_input_string(&colours(), 2, vec![0, 1, 1, 0], "{H1}a{f0}b{/f}c{/H}d");
    assert_eq!(
        pieces,
        Some(vec![
            DisplayTemp { idx: 0, start: 0, end: 1 },
            DisplayTemp { idx: 0, start: 0, end: 2 },
            DisplayTemp { idx: 1, start: 2, end: 3 },
            DisplayTemp { idx: 0, start: 3, end: 4 },
        ])
    );
    assert_eq!(line.text(), "abcd");
    assert_eq!(
        line.text_display(),
        &vec![
            FontDisplayInfo { face_idx: 0, col_idx: 0, start: 0, end: 2 },
            FontDisplayInfo { face_idx: 1, col_idx: 0, start: 2, end: 3 },
            FontDisplayInfo { face_idx: 0, col_idx: 0, start: 3, end: 4 },
        ]
    );
    assert!(line.highlights().is_empty());
    assert!(line.place(&[5, 11, 7, 6]));
    assert_eq!(line.highlights(), &vec![RectDisplayInfo { idx: 1, start: 0, end: 24 }]);
    assert_eq!(line.len(), 24);
}

#[test]
fn valid_string_refuses_faces_for_another_text() {
    let (line, pieces) = ValidString::parse_input_string(&colours(), 2, vec![0, 0], "abc");
    assert_eq!(pieces, None);
    assert_eq!(line.text(), "");
    let (line, pieces) = ValidString::parse_input_string(&colours(), 2, vec![0], "");
    assert_eq!(pieces, None);
    assert_eq!(line.text(), "");
    let (line, pieces) = ValidString::parse_input_string(&colours(), 2, vec![], "{B1}");
    assert_eq!(pieces, Some(vec![]));
    assert_eq!(line.text(), "");
}

#[test]
fn display_type_is_a_run() {
    let run: DisplayType = DisplayTemp::from(1, 2, 3);
    assert_eq!(run, DisplayType { idx: 1, start: 2, end: 3 });
}

/// Two pretend fonts: the first shows lower case letters, the second shows
/// everything; a character is 5 pixels wide in the first and 7 in the second.
struct TwoFonts;

impl FontMetrics for TwoFonts {
    fn supports(&self, face: usize, ch: char) -> bool {
        face == 1 || ch.is_ascii_lowercase()
    }

    fn measure(&self, face: usize, text: &str) -> u32 {
        text.chars().count() as u32 * if face == 0 { 5 } else { 7 }
    }
}

#[test]
fn valid_string_is_made_in_one_call() {
    let line = ValidString::parse_line(&TwoFonts, &colours(), 2, "{B1}ab{/B}CD{H0}e");
    assert_eq!(line.text(), "abCDe");
    assert_eq!(
        line.text_display(),
        &vec![
            FontDisplayInfo { face_idx: 0, col_idx: 0, start: 0, end: 2 },
            FontDisplayInfo { face_idx: 1, col_idx: 0, start: 2, end: 4 },
            FontDisplayInfo { face_idx: 0, col_idx: 0, start: 4, end: 5 },
        ]
    );
    assert_eq!(line.backgrounds(), &vec![RectDisplayInfo { idx: 1, start: 0, end: 17 }]);
    assert_eq!(line.highlights(), &vec![RectDisplayInfo { idx: 0, start: 24, end: 29 }]);
    assert_eq!(line.len(), 29);
    assert!(line.refused().is_empty());
}
