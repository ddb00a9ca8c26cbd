//! What an entity on the screen is made of, and what the renderer remembers
//! of it from one frame to the next.

use crate::sprite::Sprite;
use crate::style::{Colors, StyleMap};
use std::collections::HashMap;
use vstd::prelude::*;

verus! {

/// The identity of an entity.
pub type Entity = u64;

/// The identity of an asset: a sprite or a style map.
pub type AssetId = u64;

/// Where an entity is. `z` is the drawing order: entities are painted from
/// the lowest `z` to the highest, so a higher one hides a lower one.
#[derive(Copy, Clone, Debug, PartialEq, Eq, Structural, Default)]
pub struct Position {
    pub x: i32,
    pub y: i32,
    pub z: i32,
}

impl Position {
    pub fn new(x: i32, y: i32, z: i32) -> (position: Position)
        ensures
            position == (Position { x, y, z }),
    {
        Position { x, y, z }
    }

    pub fn with_x(x: i32) -> (position: Position)
        ensures
            position == (Position { x, y: 0, z: 0 }),
    {
        Position { x, y: 0, z: 0 }
    }

    pub fn with_y(y: i32) -> (position: Position)
        ensures
            position == (Position { x: 0, y, z: 0 }),
    {
        Position { x: 0, y, z: 0 }
    }

    pub fn with_xy(x: i32, y: i32) -> (position: Position)
        ensures
            position == (Position { x, y, z: 0 }),
    {
        Position { x, y, z: 0 }
    }
}

/// Whether an entity is drawn at all, and whether its blank cells let what is
/// behind them show through.
#[derive(Copy, Clone, Debug, PartialEq, Eq, Structural)]
pub struct Visible {
    pub is_visible: bool,
    pub is_transparent: bool,
}

impl Default for Visible {
    fn default() -> (visible: Self)
        ensures
            visible == (Visible { is_visible: true, is_transparent: false }),
    {
        Visible { is_visible: true, is_transparent: false }
    }
}

impl Visible {
    pub fn invisible() -> (visible: Visible)
        ensures
            visible == (Visible { is_visible: false, is_transparent: false }),
    {
        Visible { is_transparent: false, is_visible: false }
    }

    pub fn transparent() -> (visible: Visible)
        ensures
            visible == (Visible { is_visible: true, is_transparent: true }),
    {
        Visible { is_visible: true, is_transparent: true }
    }
}

/// What an entity is made of. The sprite and the style map are named by the
/// identities of their assets.
#[derive(Copy, Clone, Debug, PartialEq, Eq, Structural)]
pub struct SpriteBundle {
    pub sprite: AssetId,
    pub position: Position,
    pub stylemap: AssetId,
    pub visible: Visible,
}

/// One entity as the host reports it for a frame.
#[derive(Copy, Clone, Debug)]
pub struct LiveEntity<'a> {
    pub entity: Entity,
    pub position: Position,
    /// The sprite asset that the entity names.
    pub sprite_id: AssetId,
    /// The style map asset that the entity names.
    pub stylemap_id: AssetId,
    /// The sprite, once its asset has loaded.
    pub sprite: Option<&'a Sprite>,
    /// The style map, once its asset has loaded.
    pub stylemap: Option<&'a StyleMap>,
    pub visible: Visible,
    /// The entity was created in this frame.
    pub added: bool,
    /// The position, the visibility or one of the two asset identities of the
    /// entity changed in this frame.
    pub changed: bool,
}

/// What happened to an asset in a frame.
#[derive(Copy, Clone, Debug, PartialEq, Eq, Structural)]
pub enum AssetEvent {
    /// The asset became available.
    Created { handle: AssetId },
    /// The content of an asset that was available before was replaced.
    Modified { handle: AssetId },
    /// The asset went away.
    Removed { handle: AssetId },
}

/// Where an entity was when it was last painted.
#[derive(Copy, Clone, Debug, PartialEq, Eq, Structural, Default)]
pub struct PreviousPosition {
    pub x: i32,
    pub y: i32,
    pub z: i32,
}

/// How large an entity was when it was last painted, in cells.
#[derive(Copy, Clone, Debug, PartialEq, Eq, Structural, Default)]
pub struct PreviousSize {
    pub width: usize,
    pub height: usize,
}

/// For each entity that has been seen with a loaded sprite, where it was and
/// how large it was when it was last painted.
pub struct PreviousEntityDetails(pub HashMap<Entity, (PreviousPosition, PreviousSize)>);

impl View for PreviousEntityDetails {
    type V = Map<Entity, (PreviousPosition, PreviousSize)>;

    open spec fn view(&self) -> Self::V {
        self.0@
    }
}

impl Default for PreviousEntityDetails {
    fn default() -> (details: Self)
        ensures
            details@ == Map::<Entity, (PreviousPosition, PreviousSize)>::empty(),
    {
        PreviousEntityDetails(HashMap::new())
    }
}

/// The window colors that the last frame was painted with.
#[derive(Copy, Clone, Debug)]
pub struct PreviousWindowColors(pub Colors);

impl Default for PreviousWindowColors {
    fn default() -> (colors: Self)
        ensures
            colors.0 == (Colors {
                foreground: Some(crate::style::Color::Reset),
                background: Some(crate::style::Color::Reset),
            }),
    {
        PreviousWindowColors(Colors::term_colors())
    }
}

/// An entity and its drawing order.
#[derive(Copy, Clone, Debug, PartialEq, Eq, Structural)]
pub struct EntityDepth {
    pub entity: Entity,
    pub z: i32,
}

/// What a frame has to erase and to paint.
#[derive(Clone, Debug, PartialEq, Eq)]
pub struct EntitiesToRedraw {
    /// The whole screen is erased before anything is painted.
    pub full_redraw: bool,
    /// The entities whose last painted rectangle is erased. None occurs twice.
    pub to_clear: Vec<Entity>,
    /// The entities to paint, in painting order: ascending by `z`.
    pub to_draw: Vec<EntityDepth>,
}

impl Default for EntitiesToRedraw {
    fn default() -> (plan: Self)
        ensures
            !plan.full_redraw,
            plan.to_clear@.len() == 0,
            plan.to_draw@.len() == 0,
    {
        EntitiesToRedraw { full_redraw: false, to_clear: Vec::new(), to_draw: Vec::new() }
    }
}

} // verus!
