use bevy_crossterm::components::{
    AssetEvent, EntitiesToRedraw, EntityDepth, LiveEntity, Position, PreviousEntityDetails,
    PreviousPosition, PreviousSize, PreviousWindowColors, Visible,
};
use bevy_crossterm::redraw::calculate_entities_to_redraw;
use bevy_crossterm::sprite::Sprite;
use bevy_crossterm::style::{Color, Colors, StyleMap};
use bevy_crossterm::window::CrosstermWindow;
use bevy_crossterm::window_settings::CrosstermWindowSettings;

fn window(width: u16, height: u16) -> CrosstermWindow {
    CrosstermWindow::new(width, height, &CrosstermWindowSettings::default())
}

fn live<'a>(
    entity: u64,
    x: i32,
    y: i32,
    z: i32,
    sprite: &'a Sprite,
    stylemap: &'a StyleMap,
) -> LiveEntity<'a> {
    LiveEntity {
        entity,
        position: Position::new(x, y, z),
        sprite_id: entity,
        stylemap_id: 1000 + entity,
        sprite: Some(sprite),
        stylemap: Some(stylemap),
        visible: Visible::default(),
        added: false,
        changed: false,
    }
}

fn remember(history: &mut PreviousEntityDetails, entity: u64, x: i32, y: i32, w: usize, h: usize) {
    history.0.insert(
        entity,
        (PreviousPosition { x, y, z: 0 }, PreviousSize { width: w, height: h }),
    );
}

fn plan(
    history: &PreviousEntityDetails,
    resized: bool,
    sprite_events: &Vec<AssetEvent>,
    stylemap_events: &Vec<AssetEvent>,
    all: &Vec<LiveEntity>,
    removed: &Vec<u64>,
) -> EntitiesToRedraw {
    let mut prev_colors = PreviousWindowColors::default();
    let mut entities = EntitiesToRedraw::default();
    calculate_entities_to_redraw(
        &mut prev_colors,
        &mut entities,
        history,
        &window(80, 24),
        resized,
        sprite_events,
        stylemap_events,
        all,
        removed,
    );
    entities
}

fn drawn(plan: &EntitiesToRedraw) -> Vec<u64> {
    plan.to_draw.iter().map(|entry| entry.entity).collect()
}

#[test]
fn quiet_frame_erases_and_paints_nothing() {
    let block = Sprite::new("AAAAA\nAAAAA\nAAAAA");
    let style = StyleMap::default();
    let mut history = PreviousEntityDetails::default();
    remember(&mut history, 1, 0, 0, 5, 3);
    remember(&mut history, 2, 3, 0, 5, 3);
    let all = vec![live(1, 0, 0, 0, &block, &style), live(2, 3, 0, 1, &block, &style)];
    let plan = plan(&history, false, &vec![], &vec![], &all, &vec![]);
    assert!(!plan.full_redraw);
    assert!(plan.to_clear.is_empty());
    assert!(plan.to_draw.is_empty());
}

#[test]
fn resize_paints_every_entity_by_depth() {
    let block = Sprite::new("AAAAA\nAAAAA\nAAAAA");
    let style = StyleMap::default();
    let history = PreviousEntityDetails::default();
    let mut hidden = live(4, 0, 0, -3, &block, &style);
    hidden.visible = Visible::invisible();
    let all = vec![
        live(1, 0, 0, 5, &block, &style),
        live(2, 3, 0, 1, &block, &style),
        live(3, 50, 9, 5, &block, &style),
        hidden,
    ];
    let plan = plan(&history, true, &vec![], &vec![], &all, &vec![9]);
    assert!(plan.full_redraw);
    assert!(plan.to_clear.is_empty());
    assert_eq!(
        plan.to_draw,
        vec![
            EntityDepth { entity: 4, z: -3 },
            EntityDepth { entity: 2, z: 1 },
            EntityDepth { entity: 1, z: 5 },
            EntityDepth { entity: 3, z: 5 },
        ]
    );
}

#[test]
fn new_window_colors_paint_the_whole_screen() {
    let block = Sprite::new("AAAAA");
    let style = StyleMap::default();
    let history = PreviousEntityDetails::default();
    let all = vec![live(1, 0, 0, 0, &block, &style)];
    let mut settings = CrosstermWindowSettings::default();
    settings.set_colors(Colors::new(Color::White, Color::Blue));
    let window = CrosstermWindow::new(80, 24, &settings);
    let mut prev_colors = PreviousWindowColors::default();
    let mut entities = EntitiesToRedraw::default();
    calculate_entities_to_redraw(
        &mut prev_colors,
        &mut entities,
        &history,
        &window,
        false,
        &vec![],
        &vec![],
        &all,
        &vec![],
    );
    assert!(entities.full_redraw);
    assert_eq!(drawn(&entities), vec![1]);
    assert_eq!(prev_colors.0, Colors::new(Color::White, Color::Blue));
    calculate_entities_to_redraw(
        &mut prev_colors,
        &mut entities,
        &history,
        &window,
        false,
        &vec![],
        &vec![],
        &all,
        &vec![],
    );
    assert!(!entities.full_redraw);
    assert!(entities.to_clear.is_empty());
    assert!(entities.to_draw.is_empty());
}

#[test]
fn moving_off_an_entity_repaints_it_and_what_it_touches() {
    let block = Sprite::new("AAAAA\nAAAAA\nAAAAA");
    let bar = Sprite::new("CCCCCCCC\nCCCCCCCC\nCCCCCCCC");
    let style = StyleMap::default();
    let mut history = PreviousEntityDetails::default();
    remember(&mut history, 1, 0, 0, 5, 3);
    remember(&mut history, 2, 10, 0, 5, 3);
    remember(&mut history, 3, 4, 0, 8, 3);
    let mut mover = live(2, 3, 0, 2, &block, &style);
    mover.changed = true;
    let all = vec![live(1, 0, 0, 1, &block, &style), mover, live(3, 4, 0, 0, &bar, &style)];
    let plan = plan(&history, false, &vec![], &vec![], &all, &vec![]);
    assert!(!plan.full_redraw);
    assert_eq!(plan.to_clear, vec![2]);
    assert_eq!(drawn(&plan), vec![3, 1, 2]);
}

#[test]
fn an_entity_away_from_the_vacated_place_is_left_alone() {
    let block = Sprite::new("AAAAA\nAAAAA\nAAAAA");
    let style = StyleMap::default();
    let mut history = PreviousEntityDetails::default();
    remember(&mut history, 1, 0, 0, 5, 3);
    remember(&mut history, 2, 10, 0, 5, 3);
    let mut mover = live(2, 3, 0, 2, &block, &style);
    mover.changed = true;
    let all = vec![live(1, 0, 0, 1, &block, &style), mover];
    let plan = plan(&history, false, &vec![], &vec![], &all, &vec![]);
    assert_eq!(plan.to_clear, vec![2]);
    assert_eq!(drawn(&plan), vec![2]);
}

#[test]
fn touching_edges_do_not_collide() {
    let block = Sprite::new("AAAAA\nAAAAA\nAAAAA");
    let style = StyleMap::default();
    let mut history = PreviousEntityDetails::default();
    remember(&mut history, 1, 5, 0, 5, 3);
    remember(&mut history, 2, 0, 0, 5, 3);
    let mut mover = live(2, 0, 10, 0, &block, &style);
    mover.changed = true;
    let all = vec![live(1, 5, 0, 0, &block, &style), mover];
    let plan = plan(&history, false, &vec![], &vec![], &all, &vec![]);
    assert_eq!(drawn(&plan), vec![2]);
}

#[test]
fn moving_a_sprite_erases_the_old_place_and_paints_the_new() {
    let sprite = Sprite::new("AB\nCD");
    let style = StyleMap::default();
    let mut history = PreviousEntityDetails::default();
    remember(&mut history, 7, 0, 0, 2, 2);
    let mut mover = live(7, 1, 0, 0, &sprite, &style);
    mover.changed = true;
    let all = vec![mover];
    let plan = plan(&history, false, &vec![], &vec![], &all, &vec![]);
    assert_eq!(plan.to_clear, vec![7]);
    assert_eq!(plan.to_draw, vec![EntityDepth { entity: 7, z: 0 }]);
}

#[test]
fn asset_events_mark_the_entities_that_name_the_asset() {
    let block = Sprite::new("AAAAA");
    let style = StyleMap::default();
    let mut history = PreviousEntityDetails::default();
    remember(&mut history, 1, 0, 0, 5, 1);
    remember(&mut history, 2, 20, 0, 5, 1);
    remember(&mut history, 3, 40, 0, 5, 1);
    let all = vec![
        live(1, 0, 0, 0, &block, &style),
        live(2, 20, 0, 0, &block, &style),
        live(3, 40, 0, 0, &block, &style),
    ];
    let sprite_events = vec![
        AssetEvent::Modified { handle: 1 },
        AssetEvent::Removed { handle: 2 },
    ];
    let stylemap_events = vec![AssetEvent::Created { handle: 1003 }];
    let plan = plan(&history, false, &sprite_events, &stylemap_events, &all, &vec![]);
    assert_eq!(plan.to_clear, vec![1]);
    assert_eq!(drawn(&plan), vec![1, 3]);
}

#[test]
fn removed_entities_are_erased_once() {
    let block = Sprite::new("AAAAA");
    let style = StyleMap::default();
    let mut history = PreviousEntityDetails::default();
    remember(&mut history, 1, 0, 0, 5, 1);
    remember(&mut history, 8, 0, 0, 5, 1);
    let mut changed = live(1, 0, 5, 0, &block, &style);
    changed.changed = true;
    let all = vec![changed];
    let plan = plan(&history, false, &vec![], &vec![], &all, &vec![8, 1, 8]);
    assert_eq!(plan.to_clear, vec![1, 8]);
    assert_eq!(drawn(&plan), vec![1]);
}

#[test]
fn added_entities_are_painted_without_erasing() {
    let block = Sprite::new("AAAAA");
    let style = StyleMap::default();
    let history = PreviousEntityDetails::default();
    let mut fresh = live(1, 0, 0, 0, &block, &style);
    fresh.added = true;
    let mut waiting = live(2, 0, 0, 1, &block, &style);
    waiting.added = true;
    waiting.sprite = None;
    let all = vec![fresh, waiting];
    let plan = plan(&history, false, &vec![], &vec![], &all, &vec![]);
    assert!(plan.to_clear.is_empty());
    assert_eq!(drawn(&plan), vec![1, 2]);
}

#[test]
fn a_chain_of_collisions_is_followed_to_its_end() {
    let cell = Sprite::new("XXXX");
    let style = StyleMap::default();
    let mut history = PreviousEntityDetails::default();
    for entity in 0..40u64 {
        remember(&mut history, entity, 3 * entity as i32, 0, 4, 1);
    }
    let mut all: Vec<LiveEntity> = (0..40u64)
        .map(|entity| live(entity, 3 * entity as i32, 0, 40 - entity as i32, &cell, &style))
        .collect();
    all[0].changed = true;
    let plan = plan(&history, false, &vec![], &vec![], &all, &vec![]);
    assert_eq!(plan.to_clear, vec![0]);
    let mut painted = drawn(&plan);
    assert_eq!(painted, (0..40u64).rev().collect::<Vec<u64>>());
    painted.sort();
    assert_eq!(painted, (0..40u64).collect::<Vec<u64>>());
}
