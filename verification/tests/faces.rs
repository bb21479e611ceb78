use unibar::faces::{default_font_idx, FontMap};
use unibar::runs::{DisplayTemp, DEFAULT};

fn run(idx: usize, start: usize, end: usize) -> DisplayTemp {
    DisplayTemp { idx, start, end }
}

#[test]
fn default_face_is_the_first_font_with_a_glyph() {
    assert_eq!(default_font_idx(&[false, true, true]), 1);
    assert_eq!(default_font_idx(&[true, true]), 0);
    assert_eq!(default_font_idx(&[false, false, true]), 2);
}

#[test]
fn default_face_is_the_first_font_where_none_has_a_glyph() {
    assert_eq!(default_font_idx(&[false, false]), 0);
    assert_eq!(default_font_idx(&[]), 0);
}

#[test]
fn font_map_learns_once() {
    let mut map = FontMap::new();
    assert_eq!(map.get('a'), None);
    map.learn('a', &[false, true]);
    assert_eq!(map.get('a'), Some(1));
    map.learn('a', &[true, true]);
    assert_eq!(map.get('a'), Some(1));
    assert_eq!(map.get('b'), None);
    map.learn('b', &[false, false]);
    assert_eq!(map.get('b'), Some(0));
}

#[test]
fn missing_lists_unknown_characters_once_in_order() {
    let mut map = FontMap::new();
    map.learn('a', &[true]);
    assert_eq!(map.missing("cabcab"), vec!['c', 'b']);
    assert_eq!(map.missing("aaa"), Vec::<char>::new());
    assert_eq!(map.missing(""), Vec::<char>::new());
    map.learn('c', &[true]);
    map.learn('b', &[true]);
    assert_eq!(map.missing("cabcab"), Vec::<char>::new());
}

#[test]
fn default_faces_are_encoded_as_runs() {
    let mut map = FontMap::new();
    map.learn('a', &[true, true]);
    map.learn('b', &[false, true]);
    let runs = DisplayTemp::default_font_faces(&map, &[], "aabba");
    assert_eq!(runs, Some(vec![run(0, 0, 2), run(1, 2, 4), run(0, 4, 5)]));
    assert_eq!(DisplayTemp::default_font_faces(&map, &[], ""), Some(vec![]));
}

#[test]
fn explicit_faces_win_over_default_faces() {
    let mut map = FontMap::new();
    map.learn('a', &[true, true]);
    map.learn('b', &[false, true]);
    let expl = [run(DEFAULT, 0, 1), run(1, 1, 2), run(DEFAULT, 2, 3)];
    assert_eq!(
        DisplayTemp::default_font_faces(&map, &expl, "aab"),
        Some(vec![run(0, 0, 1), run(1, 1, 3)])
    );
    let expl = [run(2, 0, 3)];
    assert_eq!(DisplayTemp::default_font_faces(&map, &expl, "aab"), Some(vec![run(2, 0, 3)]));
}

#[test]
fn faces_need_every_character_known() {
    let mut map = FontMap::new();
    map.learn('a', &[true]);
    assert_eq!(DisplayTemp::default_font_faces(&map, &[], "ab"), None);
    assert_eq!(DisplayTemp::default_font_faces(&map, &[run(0, 0, 2)], "ab"), None);
}

#[test]
fn merging_paints_later_runs_over_earlier_ones() {
    let expl = [run(1, 0, 3), run(2, 1, 2)];
    assert_eq!(
        DisplayTemp::merge_font_faces(vec![0, 0, 0], &expl),
        vec![run(1, 0, 1), run(2, 1, 2), run(1, 2, 3)]
    );
}

#[test]
fn merging_cuts_runs_off_at_the_end_of_the_text() {
    assert_eq!(
        DisplayTemp::merge_font_faces(vec![0, 0, 0], &[run(2, 1, 10)]),
        vec![run(0, 0, 1), run(2, 1, 3)]
    );
    assert_eq!(
        DisplayTemp::merge_font_faces(vec![0, 0, 0], &[run(2, 7, 10)]),
        vec![run(0, 0, 3)]
    );
    assert_eq!(DisplayTemp::merge_font_faces(vec![], &[run(2, 0, 1)]), vec![]);
}

#[test]
fn merging_joins_neighbours_with_one_face() {
    assert_eq!(
        DisplayTemp::merge_font_faces(vec![0, 1, 1, 0], &[run(1, 0, 1), run(1, 3, 4)]),
        vec![run(1, 0, 4)]
    );
    assert_eq!(
        DisplayTemp::merge_font_faces(vec![3, 3, 4, 4, 3], &[]),
        vec![run(3, 0, 2), run(4, 2, 4), run(3, 4, 5)]
    );
}
