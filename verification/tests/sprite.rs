use bevy_crossterm::sprite::{segment_lines, widest_line, Sprite};

fn cells(sprite: &Sprite, row: usize) -> Vec<String> {
    sprite.graphemes()[row].iter().map(|span| sprite.grapheme(span).to_string()).collect()
}

fn texts(cells: &[&str]) -> Vec<String> {
    cells.iter().map(|cell| cell.to_string()).collect()
}

#[test]
fn two_lines_of_two_cells() {
    let sprite = Sprite::new("AB\nCD");
    assert_eq!(sprite.data(), "AB\nCD");
    assert_eq!(sprite.width(), 2);
    assert_eq!(sprite.height(), 2);
    assert_eq!(cells(&sprite, 0), texts(&["A", "B"]));
    assert_eq!(cells(&sprite, 1), texts(&["C", "D"]));
    assert_eq!(sprite.graphemes()[0], vec![(0, 1), (1, 2)]);
    assert_eq!(sprite.graphemes()[1], vec![(3, 4), (4, 5)]);
}

#[test]
fn combining_marks_stay_with_their_letter() {
    let sprite = Sprite::new("a\u{310}e\u{301}o\u{308}\u{332}");
    assert_eq!(sprite.data().len(), 11);
    assert_eq!(sprite.width(), 3);
    assert_eq!(sprite.height(), 1);
    assert_eq!(cells(&sprite, 0), texts(&["a\u{310}", "e\u{301}", "o\u{308}\u{332}"]));
    assert_eq!(sprite.graphemes()[0], vec![(0, 3), (3, 6), (6, 11)]);
}

#[test]
fn flags_and_joined_emoji_are_one_cell_each() {
    let sprite = Sprite::new("🇷🇺🇸🇹\n👨\u{200d}👩\u{200d}👧");
    assert_eq!(sprite.width(), 2);
    assert_eq!(sprite.height(), 2);
    assert_eq!(cells(&sprite, 0), texts(&["🇷🇺", "🇸🇹"]));
    assert_eq!(cells(&sprite, 1), texts(&["👨\u{200d}👩\u{200d}👧"]));
}

#[test]
fn every_kind_of_line_break_ends_a_line() {
    let sprite = Sprite::new("ab\r\ncde\rf\ng");
    assert_eq!(sprite.height(), 4);
    assert_eq!(sprite.width(), 3);
    assert_eq!(cells(&sprite, 0), texts(&["a", "b"]));
    assert_eq!(cells(&sprite, 1), texts(&["c", "d", "e"]));
    assert_eq!(cells(&sprite, 2), texts(&["f"]));
    assert_eq!(cells(&sprite, 3), texts(&["g"]));
}

#[test]
fn empty_lines_count_but_a_trailing_break_adds_none() {
    let sprite = Sprite::new("\n\nX\n");
    assert_eq!(sprite.height(), 3);
    assert_eq!(sprite.width(), 1);
    assert!(sprite.graphemes()[0].is_empty());
    assert!(sprite.graphemes()[1].is_empty());
    assert_eq!(cells(&sprite, 2), texts(&["X"]));
}

#[test]
fn the_empty_text_has_no_line() {
    let sprite = Sprite::new("");
    assert_eq!(sprite.width(), 0);
    assert_eq!(sprite.height(), 0);
    assert!(sprite.graphemes().is_empty());
    assert_eq!(Sprite::default(), sprite);
}

#[test]
fn centers_are_half_the_size_rounded_down() {
    let sprite = Sprite::new("12345\n12\n123");
    assert_eq!(sprite.width(), 5);
    assert_eq!(sprite.height(), 3);
    assert_eq!(sprite.x_center(), 2);
    assert_eq!(sprite.y_center(), 1);
}

#[test]
fn update_lays_the_new_text_out() {
    let mut sprite = Sprite::new("AB\nCD");
    sprite.update("xyz");
    assert_eq!(sprite.data(), "xyz");
    assert_eq!(sprite.width(), 3);
    assert_eq!(sprite.height(), 1);
    assert_eq!(cells(&sprite, 0), texts(&["x", "y", "z"]));
    assert_eq!(sprite, Sprite::new("xyz"));
}

#[test]
fn lines_are_cut_where_the_given_pieces_begin() {
    let lines = segment_lines("héllo\nyo", &vec![0, 1, 3, 5, 6, 7, 8]);
    assert_eq!(lines, vec![vec![(0, 1), (1, 3), (3, 5), (5, 6)], vec![(7, 8), (8, 9)]]);
    assert_eq!(widest_line(&lines), 4);
    assert_eq!(widest_line(&Vec::new()), 0);
}
