use bevy_crossterm::asset_loaders::{LoadError, SpriteLoader, StyleMapLoader};
use bevy_crossterm::runner::{handle_event, remaining_delay, Reaction, TerminalEvent};
use bevy_crossterm::sprite::Sprite;
use bevy_crossterm::{CrosstermWindow, CrosstermWindowSettings};

#[test]
fn a_sprite_is_loaded_from_text() {
    let sprite = SpriteLoader.load("AB\nCD".as_bytes());
    assert_eq!(sprite, Ok(Sprite::new("AB\nCD")));
    let accented = SpriteLoader.load(&[0x65, 0xcc, 0x81, 0x21]).unwrap();
    assert_eq!(accented.data(), "e\u{301}!");
    assert_eq!(accented.width(), 2);
}

#[test]
fn bytes_that_are_no_text_are_refused() {
    assert_eq!(SpriteLoader.load(&[0x41, 0xff, 0x42]), Err(LoadError::InvalidUtf8));
    assert_eq!(SpriteLoader.load(&[0xe2, 0x82]), Err(LoadError::InvalidUtf8));
    assert_eq!(SpriteLoader.load(&[0xed, 0xa0, 0x80]), Err(LoadError::InvalidUtf8));
}

#[test]
fn loaders_name_their_extensions() {
    assert_eq!(SpriteLoader.extensions(), vec!["txt"]);
    assert_eq!(StyleMapLoader.extensions(), vec!["stylemap"]);
}

#[test]
fn control_c_asks_to_exit() {
    let mut window = CrosstermWindow::new(80, 24, &CrosstermWindowSettings::default());
    let quiet = Reaction { exit: false, resized: false };
    let key = |character, control| TerminalEvent::Key { character, control };
    assert_eq!(
        handle_event(&mut window, key(Some('c'), true)),
        Reaction { exit: true, resized: false }
    );
    assert_eq!(handle_event(&mut window, key(Some('c'), false)), quiet);
    assert_eq!(handle_event(&mut window, key(Some('C'), true)), quiet);
    assert_eq!(handle_event(&mut window, key(Some('d'), true)), quiet);
    assert_eq!(handle_event(&mut window, key(None, true)), quiet);
    assert_eq!(handle_event(&mut window, TerminalEvent::Mouse), quiet);
    assert_eq!((window.width(), window.height()), (80, 24));
}

#[test]
fn a_resize_gives_the_window_its_new_size() {
    let mut window = CrosstermWindow::new(80, 24, &CrosstermWindowSettings::default());
    let reaction = handle_event(&mut window, TerminalEvent::Resize { width: 132, height: 43 });
    assert_eq!(reaction, Reaction { exit: false, resized: true });
    assert_eq!((window.width(), window.height()), (132, 43));
}

#[test]
fn the_loop_waits_for_the_rest_of_the_frame() {
    assert_eq!(remaining_delay(Some(16_000_000), 4_000_000), Some(12_000_000));
    assert_eq!(remaining_delay(Some(16_000_000), 16_000_000), None);
    assert_eq!(remaining_delay(Some(16_000_000), 20_000_000), None);
    assert_eq!(remaining_delay(Some(1), 0), Some(1));
    assert_eq!(remaining_delay(None, 0), None);
}
