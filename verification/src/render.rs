//! The requests of a whole frame: what is erased, what is painted, and where
//! the cursor ends up.

use crate::collision::History;
use crate::command::{lemma_push_command, spaces, views, Command, CommandView};
use crate::components::{
    EntitiesToRedraw, Entity, EntityDepth, LiveEntity, PreviousEntityDetails, PreviousPosition,
    PreviousSize,
};
use crate::cursor::Cursor;
use crate::painter::{clip, draw_entity, entity_commands, spec_clip};
use crate::style::Colors;
use crate::window::CrosstermWindow;
use std::collections::HashMap;
use vstd::prelude::*;

verus! {

/// The requests that blank `count` cells of one line, from `column` on: with
/// every attribute off and in the colors of the window.
pub open spec fn blank_row(column: u16, line: u16, count: u16, ambient: Colors) -> Seq<
    CommandView,
> {
    seq![
        CommandView::ResetAttributes,
        CommandView::SetColors(ambient),
        CommandView::MoveTo(column, line),
        CommandView::Print(Seq::new(count as nat, |i: int| ' ')),
    ]
}

/// The requests that blank `count` cells from `column` on in each of the
/// lines `from_row` up to, not including, `to_row` of a rectangle whose top
/// line is at `y`, from top to bottom.
pub open spec fn blank_rows(
    column: u16,
    count: u16,
    y: i32,
    from_row: int,
    to_row: int,
    ambient: Colors,
) -> Seq<CommandView>
    decreases to_row - from_row,
{
    if to_row <= from_row {
        Seq::empty()
    } else {
        blank_rows(column, count, y, from_row, to_row - 1, ambient) + blank_row(
            column,
            (y + to_row - 1) as u16,
            count,
            ambient,
        )
    }
}

/// The requests that erase what an entity left where it was last painted:
/// they blank the part of that rectangle that lies in the window, line by
/// line, and are none where no part of it does.
pub open spec fn clear_commands(
    details: (PreviousPosition, PreviousSize),
    window: &CrosstermWindow,
) -> Seq<CommandView> {
    let (from_row, to_row) = spec_clip(details.0.y, details.1.height, window.spec_height());
    let (from_col, to_col) = spec_clip(details.0.x, details.1.width, window.spec_width());
    if from_row < to_row && from_col < to_col {
        blank_rows(
            (details.0.x + from_col) as u16,
            (to_col - from_col) as u16,
            details.0.y,
            from_row,
            to_row,
            window.spec_colors(),
        )
    } else {
        Seq::empty()
    }
}

/// The requests that erase an entity: none where it was never painted.
pub open spec fn erase_commands(history: History, entity: Entity, window: &CrosstermWindow) -> Seq<
    CommandView,
> {
    if history.contains_key(entity) {
        clear_commands(history[entity], window)
    } else {
        Seq::empty()
    }
}

/// Whether `all[i]` is the first entity of `all` with the identity `id`.
pub open spec fn is_first(all: Seq<LiveEntity>, id: Entity, i: int) -> bool {
    &&& 0 <= i < all.len()
    &&& all[i].entity == id
    &&& forall|j: int| 0 <= j < i ==> (#[trigger] all[j]).entity != id
}

/// The first entity of `all` with the identity `id`, if there is one.
pub open spec fn find_entity(all: Seq<LiveEntity>, id: Entity) -> Option<LiveEntity> {
    if exists|i: int| is_first(all, id, i) {
        Some(all[choose|i: int| is_first(all, id, i)])
    } else {
        None
    }
}

/// The requests that erase the first `n` entities of `to_clear`, one after
/// the other.
pub open spec fn erase_all(
    to_clear: Seq<Entity>,
    history: History,
    window: &CrosstermWindow,
    n: int,
) -> Seq<CommandView>
    decreases n,
{
    if n <= 0 {
        Seq::empty()
    } else {
        erase_all(to_clear, history, window, n - 1) + erase_commands(
            history,
            to_clear[n - 1],
            window,
        )
    }
}

/// The requests that paint the entity `id`: none where `all` has no such
/// entity.
pub open spec fn paint_commands(all: Seq<LiveEntity>, id: Entity, window: &CrosstermWindow) -> Seq<
    CommandView,
> {
    match find_entity(all, id) {
        Some(entity) => entity_commands(entity, window),
        None => Seq::empty(),
    }
}

/// The requests that paint the first `n` entities of `to_draw`, one after the
/// other.
pub open spec fn paint_all(
    to_draw: Seq<EntityDepth>,
    all: Seq<LiveEntity>,
    window: &CrosstermWindow,
    n: int,
) -> Seq<CommandView>
    decreases n,
{
    if n <= 0 {
        Seq::empty()
    } else {
        paint_all(to_draw, all, window, n - 1) + paint_commands(all, to_draw[n - 1].entity, window)
    }
}

/// The requests that leave the cursor as it should be: hidden; or shown
/// where it is, if that is inside the window; or left alone.
pub open spec fn cursor_commands(cursor: Cursor, window: &CrosstermWindow) -> Seq<CommandView> {
    if cursor.hidden {
        seq![CommandView::Hide]
    } else if 0 <= cursor.x < window.spec_width() && 0 <= cursor.y < window.spec_height() {
        seq![CommandView::MoveTo(cursor.x as u16, cursor.y as u16), CommandView::Show]
    } else {
        Seq::empty()
    }
}

/// The requests of a frame, in order: the cursor is hidden if anything is
/// painted; the screen is erased if it is painted anew as a whole; the
/// entities to erase are erased; the entities to paint are painted, in their
/// order; and the cursor is left as it should be.
pub open spec fn frame_commands(
    plan: &EntitiesToRedraw,
    window: &CrosstermWindow,
    cursor: Cursor,
    history: History,
    all: Seq<LiveEntity>,
) -> Seq<CommandView> {
    let conceal = if plan.to_draw@.len() > 0 {
        seq![CommandView::Hide]
    } else {
        Seq::empty()
    };
    let wipe = if plan.full_redraw {
        seq![CommandView::ResetAttributes, CommandView::ClearAll]
    } else {
        Seq::empty()
    };
    conceal + wipe + erase_all(plan.to_clear@, history, window, plan.to_clear@.len() as int)
        + paint_all(plan.to_draw@, all, window, plan.to_draw@.len() as int) + cursor_commands(
        cursor,
        window,
    )
}

/// Erases what `entity` left where it was last painted. An entity that was
/// never painted is passed over.
pub fn clear_entity(
    entity: Entity,
    term: &mut Vec<Command>,
    window: &CrosstermWindow,
    previous_details: &PreviousEntityDetails,
)
    ensures
        views(final(term)@) == views(old(term)@) + erase_commands(
            previous_details@,
            entity,
            window,
        ),
{
    broadcast use vstd::std_specs::hash::group_hash_axioms;

    let ghost before = term@;
    assert(views(before) + Seq::<CommandView>::empty() =~= views(before));
    let details = match previous_details.0.get(&entity) {
        Some(details) => *details,
        None => {
            return ;
        },
    };
    let (prev_pos, prev_size) = details;
    let (from_row, to_row) = clip(prev_pos.y, prev_size.height, window.height());
    let (from_col, to_col) = clip(prev_pos.x, prev_size.width, window.width());
    if from_row >= to_row || from_col >= to_col {
        return ;
    }
    let column: u16 = (prev_pos.x as i64 + from_col as i64) as u16;
    let count: u16 = (to_col - from_col) as u16;
    let ambient: Colors = window.colors();
    let mut row: usize = from_row;
    while row < to_row
        invariant
            from_row <= row <= to_row,
            0 <= prev_pos.y + from_row,
            prev_pos.y + to_row <= window.spec_height(),
            views(term@) == views(before) + blank_rows(
                column,
                count,
                prev_pos.y,
                from_row as int,
                row as int,
                ambient,
            ),
        decreases to_row - row,
    {
        let line: u16 = (prev_pos.y as i64 + row as i64) as u16;
        let ghost erased = views(term@);
        proof {
            lemma_push_command(term@, Command::ResetAttributes);
        }
        term.push(Command::ResetAttributes);
        proof {
            lemma_push_command(term@, Command::SetColors(ambient));
        }
        term.push(Command::SetColors(ambient));
        proof {
            lemma_push_command(term@, Command::MoveTo(column, line));
        }
        term.push(Command::MoveTo(column, line));
        let blank = Command::Print(spaces(count));
        proof {
            lemma_push_command(term@, blank);
        }
        term.push(blank);
        row += 1;
        assert(views(term@) =~= erased + blank_row(column, line, count, ambient));
        assert(views(term@) =~= views(before) + blank_rows(
            column,
            count,
            prev_pos.y,
            from_row as int,
            row as int,
            ambient,
        ));
    }
}

/// Where in `all` the first entity of each identity stands.
fn first_positions(all: &Vec<LiveEntity>) -> (positions: HashMap<Entity, usize>)
    ensures
        forall|id: Entity|
            positions@.contains_key(id) ==> is_first(all@, id, #[trigger] positions@[id] as int),
        forall|i: int| 0 <= i < all@.len() ==> positions@.contains_key((#[trigger] all@[i]).entity),
{
    broadcast use vstd::std_specs::hash::group_hash_axioms;

    let mut positions: HashMap<Entity, usize> = HashMap::new();
    let mut i: usize = 0;
    while i < all.len()
        invariant
            i <= all.len(),
            forall|id: Entity|
                positions@.contains_key(id) ==> is_first(
                    all@,
                    id,
                    #[trigger] positions@[id] as int,
                ) && positions@[id] < i,
            forall|k: int| 0 <= k < i ==> positions@.contains_key((#[trigger] all@[k]).entity),
        decreases all.len() - i,
    {
        let id: Entity = all[i].entity;
        if !positions.contains_key(&id) {
            positions.insert(id, i);
        }
        i += 1;
    }
    positions
}

/// The requests of a frame: what `changed_entities` says to erase and to
/// paint, and what leaves the cursor as it should be.
pub fn crossterm_render(
    changed_entities: &EntitiesToRedraw,
    window: &CrosstermWindow,
    cursor: &Cursor,
    previous_details: &PreviousEntityDetails,
    all: &Vec<LiveEntity>,
) -> (term: Vec<Command>)
    ensures
        views(term@) == frame_commands(changed_entities, window, *cursor, previous_details@, all@),
{
    broadcast use vstd::std_specs::hash::group_hash_axioms;

    let mut term: Vec<Command> = Vec::new();
    assert(views(term@) =~= Seq::<CommandView>::empty());

    // While anything is painted the cursor stays out of the way.
    if changed_entities.to_draw.len() > 0 {
        proof {
            lemma_push_command(term@, Command::Hide);
        }
        term.push(Command::Hide);
    }
    // A frame that paints the whole screen anew starts from a blank one.
    if changed_entities.full_redraw {
        proof {
            lemma_push_command(term@, Command::ResetAttributes);
        }
        term.push(Command::ResetAttributes);
        proof {
            lemma_push_command(term@, Command::ClearAll);
        }
        term.push(Command::ClearAll);
    }
    let ghost start = views(term@);
    assert(start =~= (if changed_entities.to_draw@.len() > 0 {
        seq![CommandView::Hide]
    } else {
        Seq::<CommandView>::empty()
    }) + (if changed_entities.full_redraw {
        seq![CommandView::ResetAttributes, CommandView::ClearAll]
    } else {
        Seq::<CommandView>::empty()
    }));

    // First everything that is erased, so that nothing painted is lost.
    let mut i: usize = 0;
    assert(start + Seq::<CommandView>::empty() =~= start);
    while i < changed_entities.to_clear.len()
        invariant
            i <= changed_entities.to_clear.len(),
            views(term@) == start + erase_all(
                changed_entities.to_clear@,
                previous_details@,
                window,
                i as int,
            ),
        decreases changed_entities.to_clear.len() - i,
    {
        let ghost erased = erase_all(changed_entities.to_clear@, previous_details@, window, i as int);
        clear_entity(changed_entities.to_clear[i], &mut term, window, previous_details);
        assert(views(term@) =~= start + (erased + erase_commands(
            previous_details@,
            changed_entities.to_clear@[i as int],
            window,
        )));
        i += 1;
    }
    let ghost erased = views(term@);

    // Then the entities, in their order.
    let positions = first_positions(all);
    let mut i: usize = 0;
    assert(erased + Seq::<CommandView>::empty() =~= erased);
    while i < changed_entities.to_draw.len()
        invariant
            i <= changed_entities.to_draw.len(),
            forall|id: Entity|
                positions@.contains_key(id) ==> is_first(
                    all@,
                    id,
                    #[trigger] positions@[id] as int,
                ),
            forall|k: int|
                0 <= k < all@.len() ==> positions@.contains_key((#[trigger] all@[k]).entity),
            views(term@) == erased + paint_all(changed_entities.to_draw@, all@, window, i as int),
        decreases changed_entities.to_draw.len() - i,
    {
        let ghost painted = paint_all(changed_entities.to_draw@, all@, window, i as int);
        let ghost previous = views(term@);
        let id: Entity = changed_entities.to_draw[i].entity;
        match positions.get(&id) {
            Some(position) => {
                proof {
                    let found = choose|k: int| is_first(all@, id, k);
                    assert(is_first(all@, id, *position as int));
                    if found < *position {
                        assert(all@[found].entity == id);
                    }
                    if *position < found {
                        assert(all@[*position as int].entity == id);
                    }
                }
                draw_entity(&all[*position], &mut term, window);
            },
            None => {
                proof {
                    if exists|k: int| is_first(all@, id, k) {
                        let found = choose|k: int| is_first(all@, id, k);
                        assert(positions@.contains_key(all@[found].entity));
                    }
                    assert(previous + Seq::<CommandView>::empty() =~= previous);
                }
            },
        }
        assert(views(term@) =~= erased + (painted + paint_commands(all@, id, window)));
        i += 1;
    }
    let ghost painted = views(term@);

    // Last the cursor.
    if !cursor.hidden {
        if cursor.x >= 0 && cursor.x < window.width() as i32 && cursor.y >= 0 && cursor.y
            < window.height() as i32 {
            proof {
                lemma_push_command(term@, Command::MoveTo(cursor.x as u16, cursor.y as u16));
            }
            term.push(Command::MoveTo(cursor.x as u16, cursor.y as u16));
            proof {
                lemma_push_command(term@, Command::Show);
            }
            term.push(Command::Show);
        }
    } else {
        proof {
            lemma_push_command(term@, Command::Hide);
        }
        term.push(Command::Hide);
    }
    assert(views(term@) =~= painted + cursor_commands(*cursor, window));
    assert(views(term@) =~= frame_commands(
        changed_entities,
        window,
        *cursor,
        previous_details@,
        all@,
    ));
    term
}

} // verus!
