use bevy_crossterm::components::{Position, Visible};
use bevy_crossterm::style::{Color, Colors};
use bevy_crossterm::{CrosstermWindow, CrosstermWindowSettings, Cursor};

#[test]
fn settings_start_with_the_colors_of_the_terminal_and_no_title() {
    let settings = CrosstermWindowSettings::default();
    assert_eq!(settings.colors(), Colors::term_colors());
    assert_eq!(settings.title(), &None);
}

#[test]
fn settings_are_changed_one_after_the_other() {
    let mut settings = CrosstermWindowSettings::default();
    settings.set_title("demo").set_colors(Colors::new(Color::White, Color::Blue));
    assert_eq!(settings.title(), &Some("demo".to_string()));
    assert_eq!(settings.colors(), Colors::new(Color::White, Color::Blue));
    settings.set_colors(Colors::fg(Color::Red)).set_title("other");
    assert_eq!(settings.title(), &Some("other".to_string()));
    assert_eq!(settings.colors(), Colors::fg(Color::Red));
}

#[test]
fn a_window_takes_its_colors_and_title_from_the_settings() {
    let mut settings = CrosstermWindowSettings::default();
    settings.set_title("demo").set_colors(Colors::new(Color::White, Color::Blue));
    let window = CrosstermWindow::new(81, 25, &settings);
    assert_eq!(window.width(), 81);
    assert_eq!(window.height(), 25);
    assert_eq!(window.title(), Some("demo"));
    assert_eq!(window.colors(), Colors::new(Color::White, Color::Blue));
    assert_eq!(window.x_center(), 40);
    assert_eq!(window.y_center(), 12);
    let plain = CrosstermWindow::new(0, 1, &CrosstermWindowSettings::default());
    assert_eq!(plain.title(), None);
    assert_eq!(plain.x_center(), 0);
    assert_eq!(plain.y_center(), 0);
}

#[test]
fn a_window_can_change_its_colors_and_its_size() {
    let mut window = CrosstermWindow::new(80, 24, &CrosstermWindowSettings::default());
    window.set_colors(Colors::bg(Color::Green));
    assert_eq!(window.colors(), Colors::bg(Color::Green));
    assert_eq!((window.width(), window.height()), (80, 24));
    window.resize(100, 30);
    assert_eq!((window.width(), window.height()), (100, 30));
    assert_eq!(window.colors(), Colors::bg(Color::Green));
}

#[test]
fn positions_default_to_the_origin() {
    assert_eq!(Position::new(1, 2, 3), Position { x: 1, y: 2, z: 3 });
    assert_eq!(Position::with_x(4), Position { x: 4, y: 0, z: 0 });
    assert_eq!(Position::with_y(5), Position { x: 0, y: 5, z: 0 });
    assert_eq!(Position::with_xy(6, 7), Position { x: 6, y: 7, z: 0 });
    assert_eq!(Position::default(), Position { x: 0, y: 0, z: 0 });
}

#[test]
fn entities_are_visible_and_opaque_unless_told_otherwise() {
    assert_eq!(Visible::default(), Visible { is_visible: true, is_transparent: false });
    assert_eq!(Visible::invisible(), Visible { is_visible: false, is_transparent: false });
    assert_eq!(Visible::transparent(), Visible { is_visible: true, is_transparent: true });
}

#[test]
fn the_cursor_starts_hidden() {
    assert_eq!(Cursor::default(), Cursor { x: 0, y: 0, hidden: true });
}
