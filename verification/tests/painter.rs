use bevy_crossterm::command::{spaces, Command};
use bevy_crossterm::components::{
    EntitiesToRedraw, EntityDepth, LiveEntity, Position, PreviousEntityDetails, PreviousPosition,
    PreviousSize, PreviousWindowColors, Visible,
};
use bevy_crossterm::painter::{change_style_if_needed, clip, draw_entity, off_screen};
use bevy_crossterm::redraw::calculate_entities_to_redraw;
use bevy_crossterm::render::{clear_entity, crossterm_render};
use bevy_crossterm::sprite::Sprite;
use bevy_crossterm::style::{Attribute, Attributes, Color, Colors, Style, StyleMap};
use bevy_crossterm::{CrosstermWindow, CrosstermWindowSettings, Cursor};

fn window(width: u16, height: u16) -> CrosstermWindow {
    CrosstermWindow::new(width, height, &CrosstermWindowSettings::default())
}

fn live<'a>(x: i32, y: i32, sprite: &'a Sprite, stylemap: &'a StyleMap) -> LiveEntity<'a> {
    LiveEntity {
        entity: 7,
        position: Position::new(x, y, 0),
        sprite_id: 1,
        stylemap_id: 2,
        sprite: Some(sprite),
        stylemap: Some(stylemap),
        visible: Visible::default(),
        added: false,
        changed: false,
    }
}

fn painted(entity: &LiveEntity, window: &CrosstermWindow) -> Vec<Command> {
    let mut term = Vec::new();
    draw_entity(entity, &mut term, window);
    term
}

fn print(text: &str) -> Command {
    Command::Print(text.to_string())
}

fn reset() -> Attributes {
    Attributes::from_attribute(Attribute::Reset)
}

fn header() -> Vec<Command> {
    vec![
        Command::ResetAttributes,
        Command::SetAttributes(reset()),
        Command::SetColors(Colors::term_colors()),
    ]
}

fn blank_row(x: u16, y: u16, count: usize) -> Vec<Command> {
    vec![
        Command::ResetAttributes,
        Command::SetColors(Colors::term_colors()),
        Command::MoveTo(x, y),
        print(&" ".repeat(count)),
    ]
}

#[test]
fn a_sprite_is_painted_line_by_line() {
    let sprite = Sprite::new("AB\nCD");
    let stylemap = StyleMap::default();
    let mut expected = header();
    expected.extend(vec![
        Command::MoveTo(1, 0),
        print("A"),
        print("B"),
        Command::MoveTo(1, 1),
        print("C"),
        print("D"),
    ]);
    assert_eq!(painted(&live(1, 0, &sprite, &stylemap), &window(80, 24)), expected);
}

#[test]
fn painting_is_added_behind_what_is_there() {
    let sprite = Sprite::new("A");
    let stylemap = StyleMap::default();
    let mut term = vec![Command::Hide];
    draw_entity(&live(0, 0, &sprite, &stylemap), &mut term, &window(80, 24));
    let mut expected = vec![Command::Hide];
    expected.extend(header());
    expected.extend(vec![Command::MoveTo(0, 0), print("A")]);
    assert_eq!(term, expected);
}

#[test]
fn short_lines_are_padded_to_the_width_of_the_sprite() {
    let sprite = Sprite::new("ABC\nD\n\nEF");
    let stylemap = StyleMap::default();
    let mut expected = header();
    expected.extend(vec![
        Command::MoveTo(2, 3),
        print("A"),
        print("B"),
        print("C"),
        Command::MoveTo(2, 4),
        print("D"),
        print(" "),
        print(" "),
        Command::MoveTo(2, 5),
        print(" "),
        print(" "),
        print(" "),
        Command::MoveTo(2, 6),
        print("E"),
        print("F"),
        print(" "),
    ]);
    assert_eq!(painted(&live(2, 3, &sprite, &stylemap), &window(80, 24)), expected);
}

#[test]
fn grapheme_clusters_are_written_whole() {
    let sprite = Sprite::new("e\u{301}🇷🇺");
    let stylemap = StyleMap::default();
    let mut expected = header();
    expected.extend(vec![Command::MoveTo(0, 0), print("e\u{301}"), print("🇷🇺")]);
    assert_eq!(painted(&live(0, 0, &sprite, &stylemap), &window(80, 24)), expected);
}

#[test]
fn blank_cells_of_a_transparent_sprite_show_through() {
    let sprite = Sprite::new("A B\n C");
    let stylemap = StyleMap::default();
    let mut entity = live(0, 0, &sprite, &stylemap);
    entity.visible = Visible::transparent();
    let mut expected = header();
    expected.extend(vec![
        Command::MoveTo(0, 0),
        print("A"),
        Command::MoveRight(1),
        print("B"),
        Command::MoveTo(0, 1),
        Command::MoveRight(1),
        print("C"),
        Command::MoveRight(1),
    ]);
    assert_eq!(painted(&entity, &window(80, 24)), expected);

    entity.visible = Visible::default();
    let mut opaque = header();
    opaque.extend(vec![
        Command::MoveTo(0, 0),
        print("A"),
        print(" "),
        print("B"),
        Command::MoveTo(0, 1),
        print(" "),
        print("C"),
        print(" "),
    ]);
    assert_eq!(painted(&entity, &window(80, 24)), opaque);
}

#[test]
fn a_blank_cell_with_a_style_of_its_own_is_painted_all_the_same() {
    let sprite = Sprite::new("A B\n");
    let on_red = Style::new(Colors::bg(Color::Red), reset());
    let plain = Style::default();
    let stylemap = StyleMap::new(plain, vec![vec![plain, on_red, plain, on_red]]);
    let mut entity = live(0, 0, &sprite, &stylemap);
    entity.visible = Visible::transparent();
    let red = Colors { foreground: Some(Color::Reset), background: Some(Color::Red) };
    let mut expected = header();
    expected.extend(vec![
        Command::MoveTo(0, 0),
        print("A"),
        Command::SetColors(red),
        print(" "),
        Command::SetColors(Colors::term_colors()),
        print("B"),
    ]);
    assert_eq!(painted(&entity, &window(80, 24)), expected);
}

#[test]
fn a_style_is_asked_for_only_where_it_changes() {
    let sprite = Sprite::new("ABCD\nEF");
    let bold = Style::new(Colors::default(), Attributes::from_attribute(Attribute::Bold));
    let red = Style::new(Colors::fg(Color::Red), Attributes::from_attribute(Attribute::Bold));
    let stylemap = StyleMap::new(Style::default(), vec![vec![bold, bold, red, red], vec![red]]);
    let red_colors = Colors { foreground: Some(Color::Red), background: Some(Color::Reset) };
    let mut expected = header();
    expected.extend(vec![
        Command::MoveTo(0, 0),
        Command::SetAttributes(Attributes::from_attribute(Attribute::Bold)),
        print("A"),
        print("B"),
        Command::SetColors(red_colors),
        print("C"),
        print("D"),
        Command::MoveTo(0, 1),
        print("E"),
        Command::SetAttributes(reset()),
        Command::SetColors(Colors::term_colors()),
        print("F"),
        print(" "),
        print(" "),
    ]);
    assert_eq!(painted(&live(0, 0, &sprite, &stylemap), &window(80, 24)), expected);
}

#[test]
fn unset_colors_are_those_of_the_window() {
    let sprite = Sprite::new("A");
    let stylemap = StyleMap::with_fg(Color::Green);
    let mut settings = CrosstermWindowSettings::default();
    settings.set_colors(Colors::new(Color::White, Color::Blue));
    let window = CrosstermWindow::new(80, 24, &settings);
    assert_eq!(
        painted(&live(0, 0, &sprite, &stylemap), &window),
        vec![
            Command::ResetAttributes,
            Command::SetAttributes(reset()),
            Command::SetColors(Colors::new(Color::Green, Color::Blue)),
            Command::MoveTo(0, 0),
            print("A"),
        ]
    );
}

#[test]
fn a_sprite_is_cut_at_the_left_and_the_top_edge() {
    let sprite = Sprite::new("ABCD\nEFGH\nIJKL");
    let stylemap = StyleMap::default();
    let mut expected = header();
    expected.extend(vec![
        Command::MoveTo(0, 0),
        print("G"),
        print("H"),
        Command::MoveTo(0, 1),
        print("K"),
        print("L"),
    ]);
    assert_eq!(painted(&live(-2, -1, &sprite, &stylemap), &window(10, 5)), expected);
}

#[test]
fn a_sprite_is_cut_at_the_right_and_the_bottom_edge() {
    let sprite = Sprite::new("ABCD\nEFGH\nIJKL");
    let stylemap = StyleMap::default();
    let mut expected = header();
    expected.extend(vec![
        Command::MoveTo(7, 3),
        print("A"),
        print("B"),
        print("C"),
        Command::MoveTo(7, 4),
        print("E"),
        print("F"),
        print("G"),
    ]);
    assert_eq!(painted(&live(7, 3, &sprite, &stylemap), &window(10, 5)), expected);
}

#[test]
fn a_short_line_left_of_the_window_paints_only_its_padding() {
    let sprite = Sprite::new("AB\nCDEFGH");
    let stylemap = StyleMap::default();
    let mut expected = header();
    expected.extend(vec![
        Command::MoveTo(0, 2),
        print(" "),
        print(" "),
        Command::MoveTo(0, 3),
        print("G"),
        print("H"),
    ]);
    assert_eq!(painted(&live(-4, 2, &sprite, &stylemap), &window(10, 5)), expected);
}

#[test]
fn a_sprite_outside_the_window_is_not_painted() {
    let sprite = Sprite::new("ABCD\nEFGH\nIJKL");
    let stylemap = StyleMap::default();
    let window = window(10, 5);
    for (x, y) in [(10, 0), (0, 5), (-4, 0), (0, -3), (i32::MAX, 0), (i32::MIN, i32::MIN)] {
        assert_eq!(painted(&live(x, y, &sprite, &stylemap), &window), vec![]);
    }
    let nothing = Sprite::new("");
    assert_eq!(painted(&live(3, 3, &nothing, &stylemap), &window), vec![]);
    assert_eq!(painted(&live(-1, 0, &sprite, &stylemap), &self::window(0, 5)), vec![]);
}

#[test]
fn what_is_invisible_or_not_loaded_is_not_painted() {
    let sprite = Sprite::new("A");
    let stylemap = StyleMap::default();
    let window = window(10, 5);
    let mut hidden = live(0, 0, &sprite, &stylemap);
    hidden.visible = Visible::invisible();
    assert_eq!(painted(&hidden, &window), vec![]);
    let mut no_sprite = live(0, 0, &sprite, &stylemap);
    no_sprite.sprite = None;
    assert_eq!(painted(&no_sprite, &window), vec![]);
    let mut no_stylemap = live(0, 0, &sprite, &stylemap);
    no_stylemap.stylemap = None;
    assert_eq!(painted(&no_stylemap, &window), vec![]);
}

#[test]
fn clipping_keeps_the_cells_inside_the_limit() {
    assert_eq!(clip(0, 4, 10), (0, 4));
    assert_eq!(clip(-2, 4, 10), (2, 4));
    assert_eq!(clip(8, 4, 10), (0, 2));
    assert_eq!(clip(-3, 20, 10), (3, 13));
    assert_eq!(clip(10, 4, 10), (0, 0));
    assert_eq!(clip(-4, 4, 10), (0, 0));
    assert_eq!(clip(3, 0, 10), (0, 0));
    assert_eq!(clip(i32::MIN, usize::MAX, u16::MAX), (2147483648, 2147549183));
    assert_eq!(clip(i32::MAX, usize::MAX, u16::MAX), (0, 0));
    assert!(off_screen(10, 0, 4, 3, 10, 5));
    assert!(off_screen(0, 0, 0, 3, 10, 5));
    assert!(!off_screen(9, 4, 4, 3, 10, 5));
    assert!(!off_screen(-3, -2, 4, 3, 10, 5));
}

#[test]
fn changing_the_style_asks_for_what_differs() {
    let bold = Attributes::from_attribute(Attribute::Bold);
    let plain = Style::new(Colors::fg(Color::Red), reset());
    let mut term = Vec::new();
    let mut last = plain;
    change_style_if_needed(&mut term, &mut last, &plain);
    assert_eq!(term, vec![]);
    let next = Style::new(Colors::fg(Color::Red), bold);
    change_style_if_needed(&mut term, &mut last, &next);
    assert_eq!(term, vec![Command::SetAttributes(bold)]);
    assert_eq!(last, next);
    let other = Style::new(Colors::bg(Color::Blue), reset());
    change_style_if_needed(&mut term, &mut last, &other);
    assert_eq!(
        term,
        vec![
            Command::SetAttributes(bold),
            Command::SetAttributes(reset()),
            Command::SetColors(Colors::bg(Color::Blue)),
        ]
    );
    assert_eq!(last, other);
}

#[test]
fn erasing_blanks_the_place_where_the_entity_was() {
    let mut history = PreviousEntityDetails::default();
    history.0.insert(
        7,
        (PreviousPosition { x: 0, y: 0, z: 0 }, PreviousSize { width: 2, height: 2 }),
    );
    let mut term = Vec::new();
    clear_entity(7, &mut term, &window(80, 24), &history);
    let mut expected = blank_row(0, 0, 2);
    expected.extend(blank_row(0, 1, 2));
    assert_eq!(term, expected);
    clear_entity(8, &mut term, &window(80, 24), &history);
    assert_eq!(term, expected);
}

#[test]
fn erasing_stays_inside_the_window() {
    let mut history = PreviousEntityDetails::default();
    let size = PreviousSize { width: 6, height: 4 };
    history.0.insert(1, (PreviousPosition { x: -2, y: -3, z: 0 }, size));
    history.0.insert(2, (PreviousPosition { x: 7, y: 3, z: 0 }, size));
    history.0.insert(3, (PreviousPosition { x: 10, y: 0, z: 0 }, size));
    history.0.insert(4, (PreviousPosition { x: 0, y: -4, z: 0 }, size));
    let window = window(10, 5);
    let mut term = Vec::new();
    clear_entity(1, &mut term, &window, &history);
    assert_eq!(term, blank_row(0, 0, 4));
    let mut term = Vec::new();
    clear_entity(2, &mut term, &window, &history);
    let mut expected = blank_row(7, 3, 3);
    expected.extend(blank_row(7, 4, 3));
    assert_eq!(term, expected);
    let mut term = Vec::new();
    clear_entity(3, &mut term, &window, &history);
    clear_entity(4, &mut term, &window, &history);
    assert_eq!(term, vec![]);
}

#[test]
fn erasing_uses_the_colors_of_the_window() {
    let mut history = PreviousEntityDetails::default();
    history.0.insert(
        1,
        (PreviousPosition { x: 1, y: 1, z: 0 }, PreviousSize { width: 3, height: 1 }),
    );
    let mut settings = CrosstermWindowSettings::default();
    settings.set_colors(Colors::new(Color::White, Color::Blue));
    let window = CrosstermWindow::new(80, 24, &settings);
    let mut term = Vec::new();
    clear_entity(1, &mut term, &window, &history);
    assert_eq!(
        term,
        vec![
            Command::ResetAttributes,
            Command::SetColors(Colors::new(Color::White, Color::Blue)),
            Command::MoveTo(1, 1),
            print("   "),
        ]
    );
}

#[test]
fn spaces_are_as_many_as_asked_for() {
    assert_eq!(spaces(0), "");
    assert_eq!(spaces(1), " ");
    assert_eq!(spaces(5), "     ");
    assert_eq!(spaces(300).len(), 300);
}

#[test]
fn a_moved_sprite_is_erased_where_it_was_and_painted_where_it_is() {
    let sprite = Sprite::new("AB\nCD");
    let stylemap = StyleMap::default();
    let window = window(80, 24);
    let mut history = PreviousEntityDetails::default();
    history.0.insert(
        7,
        (PreviousPosition { x: 0, y: 0, z: 0 }, PreviousSize { width: 2, height: 2 }),
    );
    let mut moved = live(1, 0, &sprite, &stylemap);
    moved.changed = true;
    let all = vec![moved];
    let mut prev_colors = PreviousWindowColors::default();
    let mut plan = EntitiesToRedraw::default();
    calculate_entities_to_redraw(
        &mut prev_colors,
        &mut plan,
        &history,
        &window,
        false,
        &vec![],
        &vec![],
        &all,
        &vec![],
    );
    let term = crossterm_render(&plan, &window, &Cursor::default(), &history, &all);
    let mut expected = vec![Command::Hide];
    expected.extend(blank_row(0, 0, 2));
    expected.extend(blank_row(0, 1, 2));
    expected.extend(header());
    expected.extend(vec![
        Command::MoveTo(1, 0),
        print("A"),
        print("B"),
        Command::MoveTo(1, 1),
        print("C"),
        print("D"),
        Command::Hide,
    ]);
    assert_eq!(term, expected);
}

#[test]
fn a_frame_erases_first_and_paints_in_the_given_order() {
    let a = Sprite::new("a");
    let b = Sprite::new("b");
    let stylemap = StyleMap::default();
    let window = window(80, 24);
    let mut history = PreviousEntityDetails::default();
    history.0.insert(
        9,
        (PreviousPosition { x: 4, y: 4, z: 0 }, PreviousSize { width: 1, height: 1 }),
    );
    let mut first = live(0, 0, &a, &stylemap);
    first.entity = 1;
    let mut second = live(1, 0, &b, &stylemap);
    second.entity = 2;
    let mut twin = live(5, 5, &a, &stylemap);
    twin.entity = 2;
    let all = vec![first, second, twin];
    let plan = EntitiesToRedraw {
        full_redraw: true,
        to_clear: vec![9, 3],
        to_draw: vec![
            EntityDepth { entity: 2, z: 0 },
            EntityDepth { entity: 8, z: 1 },
            EntityDepth { entity: 1, z: 2 },
        ],
    };
    let cursor = Cursor { x: 3, y: 2, hidden: false };
    let term = crossterm_render(&plan, &window, &cursor, &history, &all);
    let mut expected = vec![Command::Hide, Command::ResetAttributes, Command::ClearAll];
    expected.extend(blank_row(4, 4, 1));
    expected.extend(header());
    expected.extend(vec![Command::MoveTo(1, 0), print("b")]);
    expected.extend(header());
    expected.extend(vec![Command::MoveTo(0, 0), print("a")]);
    expected.extend(vec![Command::MoveTo(3, 2), Command::Show]);
    assert_eq!(term, expected);
}

#[test]
fn the_cursor_is_shown_only_inside_the_window() {
    let window = window(10, 5);
    let history = PreviousEntityDetails::default();
    let plan = EntitiesToRedraw::default();
    let frame = |cursor: Cursor| crossterm_render(&plan, &window, &cursor, &history, &vec![]);
    assert_eq!(frame(Cursor { x: 0, y: 0, hidden: true }), vec![Command::Hide]);
    assert_eq!(
        frame(Cursor { x: 9, y: 4, hidden: false }),
        vec![Command::MoveTo(9, 4), Command::Show]
    );
    assert_eq!(frame(Cursor { x: 10, y: 4, hidden: false }), vec![]);
    assert_eq!(frame(Cursor { x: 9, y: 5, hidden: false }), vec![]);
    assert_eq!(frame(Cursor { x: -1, y: 0, hidden: false }), vec![]);
}
