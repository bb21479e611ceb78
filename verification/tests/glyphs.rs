use unibar::glyphs::FontDisplayInfo;
use unibar::rects::RectDisplayInfo;
use unibar::runs::DisplayTemp;

fn run(idx: usize, start: usize, end: usize) -> DisplayTemp {
    DisplayTemp { idx, start, end }
}

fn glyph(face_idx: usize, col_idx: usize, start: usize, end: usize) -> FontDisplayInfo {
    FontDisplayInfo { face_idx, col_idx, start, end }
}

fn bar(idx: usize, start: u64, end: u64) -> RectDisplayInfo {
    RectDisplayInfo { idx, start, end }
}

#[test]
fn display_temp_from_keeps_its_arguments() {
    assert_eq!(DisplayTemp::from(3, 1, 2), run(3, 1, 2));
}

#[test]
fn glyph_runs_are_what_colours_and_faces_have_in_common() {
    let cols = [run(0, 0, 2), run(1, 2, 5)];
    let faces = [run(0, 0, 3), run(1, 3, 5)];
    assert_eq!(
        FontDisplayInfo::generate_list(&cols, &faces),
        vec![glyph(0, 0, 0, 2), glyph(0, 1, 2, 3), glyph(1, 1, 3, 5)]
    );
}

#[test]
fn glyph_runs_of_equal_lists_are_those_lists() {
    let cols = [run(4, 0, 2), run(5, 2, 3)];
    let faces = [run(1, 0, 2), run(0, 2, 3)];
    assert_eq!(
        FontDisplayInfo::generate_list(&cols, &faces),
        vec![glyph(1, 4, 0, 2), glyph(0, 5, 2, 3)]
    );
}

#[test]
fn one_colour_over_many_faces() {
    let cols = [run(2, 0, 6)];
    let faces = [run(0, 0, 1), run(1, 1, 4), run(0, 4, 6)];
    assert_eq!(
        FontDisplayInfo::generate_list(&cols, &faces),
        vec![glyph(0, 2, 0, 1), glyph(1, 2, 1, 4), glyph(0, 2, 4, 6)]
    );
}

#[test]
fn no_runs_give_no_glyph_runs() {
    assert_eq!(FontDisplayInfo::generate_list(&[], &[]), vec![]);
    assert_eq!(FontDisplayInfo::generate_list(&[run(0, 0, 1)], &[]), vec![]);
    assert_eq!(FontDisplayInfo::generate_list(&[], &[run(0, 0, 1)]), vec![]);
}

#[test]
fn glyph_runs_cover_the_text_once() {
    let cols = [run(0, 0, 1), run(1, 1, 2), run(2, 2, 7), run(0, 7, 9)];
    let faces = [run(0, 0, 4), run(1, 4, 5), run(2, 5, 9)];
    let list = FontDisplayInfo::generate_list(&cols, &faces);
    let mut at = 0;
    for g in list.iter() {
        assert_eq!(g.start, at);
        assert!(g.start < g.end);
        at = g.end;
    }
    assert_eq!(at, 9);
    assert_eq!(list.len(), 6);
}

/// Two glyph runs over five characters: the first three 10 pixels each in
/// face 0, the last two 11 pixels each in face 1.
fn two_runs() -> (Vec<FontDisplayInfo>, Vec<u32>) {
    (vec![glyph(0, 0, 0, 3), glyph(1, 0, 3, 5)], vec![10, 20, 30, 11, 22])
}

#[test]
fn bar_inside_the_text() {
    let (runs, widths) = two_runs();
    assert_eq!(RectDisplayInfo::gen_list(&[run(1, 1, 4)], &runs, &widths), vec![bar(1, 10, 41)]);
    assert_eq!(RectDisplayInfo::gen_list(&[run(1, 1, 2)], &runs, &widths), vec![bar(1, 10, 20)]);
}

#[test]
fn bar_that_ends_where_a_glyph_run_starts_takes_one_more_glyph() {
    let (runs, widths) = two_runs();
    assert_eq!(RectDisplayInfo::gen_list(&[run(2, 0, 3)], &runs, &widths), vec![bar(2, 0, 41)]);
}

#[test]
fn bar_to_the_end_of_the_text() {
    let (runs, widths) = two_runs();
    assert_eq!(RectDisplayInfo::gen_list(&[run(0, 3, 5)], &runs, &widths), vec![bar(0, 30, 52)]);
    assert_eq!(RectDisplayInfo::gen_list(&[run(0, 0, 5)], &runs, &widths), vec![bar(0, 0, 52)]);
}

#[test]
fn bars_keep_the_order_of_their_runs() {
    let (runs, widths) = two_runs();
    let rects = [run(1, 0, 1), run(0, 2, 4), run(1, 4, 5)];
    assert_eq!(
        RectDisplayInfo::gen_list(&rects, &runs, &widths),
        vec![bar(1, 0, 10), bar(0, 20, 41), bar(1, 41, 52)]
    );
    assert_eq!(RectDisplayInfo::gen_list(&[], &runs, &widths), vec![]);
}

#[test]
fn bars_run_forward_where_widths_do_not_shrink() {
    let (runs, widths) = two_runs();
    for start in 0..5 {
        for end in start + 1..6 {
            let list = RectDisplayInfo::gen_list(&[run(0, start, end)], &runs, &widths);
            assert!(list[0].start <= list[0].end);
        }
    }
}

#[test]
fn bar_runs_backward_where_a_width_shrinks() {
    let runs = vec![glyph(0, 0, 0, 3)];
    let widths = vec![10, 4, 12];
    assert_eq!(RectDisplayInfo::gen_list(&[run(0, 1, 2)], &runs, &widths), vec![bar(0, 10, 4)]);
}
