//! Turning what a frame has to erase and to paint into requests to the
//! terminal.

use crate::command::{lemma_push_command, views, Command, CommandView};
use crate::components::LiveEntity;
use crate::sprite::{Span, Sprite};
use crate::style::{Colors, Style, StyleMap};
use crate::window::CrosstermWindow;
use vstd::prelude::*;
use vstd::utf8::{decode_utf8, encode_utf8_decode_utf8};

verus! {

/// Of `len` cells in a row, the first of which is at coordinate `start`, the
/// ones that lie at the coordinates 0 up to, not including, `limit`: the index
/// of the first of them and the index just past the last. Both are 0 where
/// none does.
pub open spec fn spec_clip(start: i32, len: usize, limit: u16) -> (int, int) {
    let first: int = if start < 0 {
        -start
    } else {
        0
    };
    let last: int = if limit - start < len {
        limit - start
    } else {
        len as int
    };
    if first < last {
        (first, last)
    } else {
        (0, 0)
    }
}

/// Of `len` cells in a row, the first of which is at coordinate `start`, the
/// ones that lie at the coordinates 0 up to, not including, `limit`.
pub fn clip(start: i32, len: usize, limit: u16) -> (visible: (usize, usize))
    ensures
        (visible.0 as int, visible.1 as int) == spec_clip(start, len, limit),
        visible.0 <= visible.1 <= len,
        visible.0 < visible.1 ==> 0 <= start + visible.0 && start + visible.1 <= limit,
{
    let first: i64 = if start < 0 {
        -(start as i64)
    } else {
        0
    };
    let room: i64 = limit as i64 - start as i64;
    if room <= first {
        return (0, 0);
    }
    let room: usize = room as usize;
    let last: usize = if room < len {
        room
    } else {
        len
    };
    let first: usize = first as usize;
    if first < last {
        (first, last)
    } else {
        (0, 0)
    }
}

/// The style that a cell is painted in: the colors that `style` leaves unset
/// are those of the window.
pub open spec fn effective_style(style: Style, ambient: Colors) -> Style {
    Style { attributes: style.attributes, colors: style.colors.spec_with_default(ambient) }
}

/// The requests that take the terminal from the style `last` to the style
/// `next`: one for the attributes if they differ, then one for the colors if
/// they differ.
pub open spec fn style_change(last: Style, next: Style) -> Seq<CommandView> {
    let attributes = if next.attributes != last.attributes {
        seq![CommandView::SetAttributes(next.attributes)]
    } else {
        Seq::empty()
    };
    let colors = if next.colors != last.colors {
        seq![CommandView::SetColors(next.colors)]
    } else {
        Seq::empty()
    };
    attributes + colors
}

/// Whether the cell at column `col` of line `row` is blank: a space, or
/// padding behind the end of a line that is shorter than the sprite is wide.
pub open spec fn cell_is_blank(sprite: &Sprite, row: int, col: int) -> bool {
    let line = sprite.spec_graphemes()[row];
    col >= line.len() || sprite.spec_bytes().subrange(line[col].0 as int, line[col].1 as int)
        == seq![0x20u8]
}

/// The text of the cell at column `col` of line `row`: its grapheme cluster,
/// or a space where the line has ended.
pub open spec fn cell_text(sprite: &Sprite, row: int, col: int) -> Seq<char> {
    let line = sprite.spec_graphemes()[row];
    if col < line.len() {
        decode_utf8(sprite.spec_bytes().subrange(line[col].0 as int, line[col].1 as int))
    } else {
        seq![' ']
    }
}

/// Whether the cell lets what is behind it show through: the entity is
/// transparent, the cell is blank, and the style map has no style of its own
/// for the cell.
pub open spec fn shows_through(
    sprite: &Sprite,
    stylemap: &StyleMap,
    transparent: bool,
    row: int,
    col: int,
) -> bool {
    transparent && stylemap.spec_style_at(col, row) is None && cell_is_blank(sprite, row, col)
}

/// The requests that paint one cell with the cursor on it, and the style that
/// the terminal is in afterwards. A cell that shows through is stepped over.
/// Any other cell is written in its style, after the requests that change to
/// that style from the style `last`.
pub open spec fn cell_commands(
    sprite: &Sprite,
    stylemap: &StyleMap,
    transparent: bool,
    ambient: Colors,
    row: int,
    col: int,
    last: Style,
) -> (Seq<CommandView>, Style) {
    if shows_through(sprite, stylemap, transparent, row, col) {
        (seq![CommandView::MoveRight(1)], last)
    } else {
        let style = effective_style(stylemap.spec_style_for(col, row), ambient);
        (style_change(last, style).push(CommandView::Print(cell_text(sprite, row, col))), style)
    }
}

/// The requests that paint the cells of the columns `from` up to, not
/// including, `to` of line `row`, one after the other, and the style that the
/// terminal is in afterwards.
pub open spec fn span_commands(
    sprite: &Sprite,
    stylemap: &StyleMap,
    transparent: bool,
    ambient: Colors,
    row: int,
    from: int,
    to: int,
    last: Style,
) -> (Seq<CommandView>, Style)
    decreases to - from,
{
    if to <= from {
        (Seq::empty(), last)
    } else {
        let (front, style) = span_commands(
            sprite,
            stylemap,
            transparent,
            ambient,
            row,
            from,
            to - 1,
            last,
        );
        let (cell, style) = cell_commands(sprite, stylemap, transparent, ambient, row, to - 1, style);
        (front + cell, style)
    }
}

/// The requests that paint line `row` of a sprite whose left column is at
/// `x` and whose top line is at `y`, in a window of `window_width` columns:
/// one that moves the cursor to the first cell of the line that lies in the
/// window, then those that paint the cells that lie in the window.
pub open spec fn row_commands(
    sprite: &Sprite,
    stylemap: &StyleMap,
    transparent: bool,
    ambient: Colors,
    x: i32,
    y: i32,
    window_width: u16,
    row: int,
    last: Style,
) -> (Seq<CommandView>, Style) {
    let (from, to) = spec_clip(x, sprite.spec_width(), window_width);
    let (cells, style) = span_commands(sprite, stylemap, transparent, ambient, row, from, to, last);
    (seq![CommandView::MoveTo((x + from) as u16, (y + row) as u16)] + cells, style)
}

/// The requests that paint the lines `from_row` up to, not including,
/// `to_row`, from top to bottom, and the style that the terminal is in
/// afterwards.
pub open spec fn rows_commands(
    sprite: &Sprite,
    stylemap: &StyleMap,
    transparent: bool,
    ambient: Colors,
    x: i32,
    y: i32,
    window_width: u16,
    from_row: int,
    to_row: int,
    last: Style,
) -> (Seq<CommandView>, Style)
    decreases to_row - from_row,
{
    if to_row <= from_row {
        (Seq::empty(), last)
    } else {
        let (front, style) = rows_commands(
            sprite,
            stylemap,
            transparent,
            ambient,
            x,
            y,
            window_width,
            from_row,
            to_row - 1,
            last,
        );
        let (row, style) = row_commands(
            sprite,
            stylemap,
            transparent,
            ambient,
            x,
            y,
            window_width,
            to_row - 1,
            style,
        );
        (front + row, style)
    }
}

/// Whether no cell of a rectangle lies in the window: the rectangle or the
/// window is empty, or the rectangle begins behind the right or the bottom
/// edge of the window, or it ends before the left or the top edge.
pub open spec fn is_off_screen(
    x: i32,
    y: i32,
    width: usize,
    height: usize,
    window_width: u16,
    window_height: u16,
) -> bool {
    ||| width == 0 || height == 0 || window_width == 0 || window_height == 0
    ||| y >= window_height || y + height <= 0
    ||| x >= window_width || x + width <= 0
}

/// Whether an entity is painted at all: it is visible, its sprite and its
/// style map have loaded, and at least one of its cells lies in the window.
pub open spec fn is_painted(entity: LiveEntity, window: &CrosstermWindow) -> bool {
    &&& entity.visible.is_visible
    &&& entity.sprite is Some
    &&& entity.stylemap is Some
    &&& !is_off_screen(
        entity.position.x,
        entity.position.y,
        entity.sprite->0.spec_width(),
        entity.sprite->0.spec_height(),
        window.spec_width(),
        window.spec_height(),
    )
}

/// The requests that paint an entity: none where it is not painted at all;
/// else those that set the style of its style map, then those that paint its
/// lines that lie in the window.
pub open spec fn entity_commands(entity: LiveEntity, window: &CrosstermWindow) -> Seq<CommandView> {
    if is_painted(entity, window) {
        let sprite = entity.sprite->0;
        let stylemap = entity.stylemap->0;
        let first = effective_style(stylemap.style, window.spec_colors());
        let (from_row, to_row) = spec_clip(
            entity.position.y,
            sprite.spec_height(),
            window.spec_height(),
        );
        seq![
            CommandView::ResetAttributes,
            CommandView::SetAttributes(first.attributes),
            CommandView::SetColors(first.colors),
        ] + rows_commands(
            sprite,
            stylemap,
            entity.visible.is_transparent,
            window.spec_colors(),
            entity.position.x,
            entity.position.y,
            window.spec_width(),
            from_row,
            to_row,
            first,
        ).0
    } else {
        Seq::empty()
    }
}

/// Whether no cell of a rectangle lies in the window.
pub fn off_screen(
    x: i32,
    y: i32,
    width: usize,
    height: usize,
    window_width: u16,
    window_height: u16,
) -> (outside: bool)
    ensures
        outside == is_off_screen(x, y, width, height, window_width, window_height),
        !outside ==> spec_clip(x, width, window_width).0 < spec_clip(x, width, window_width).1,
        !outside ==> spec_clip(y, height, window_height).0 < spec_clip(
            y,
            height,
            window_height,
        ).1,
{
    let (from_row, to_row) = clip(y, height, window_height);
    let (from_col, to_col) = clip(x, width, window_width);
    from_row >= to_row || from_col >= to_col
}

/// Asks the terminal for the style `current_style`, as far as it differs from
/// `previous_style`, the style that it is in.
pub fn change_style_if_needed(
    term: &mut Vec<Command>,
    previous_style: &mut Style,
    current_style: &Style,
)
    ensures
        views(final(term)@) == views(old(term)@) + style_change(
            *old(previous_style),
            *current_style,
        ),
        *final(previous_style) == *current_style,
{
    let ghost before = term@;
    if current_style.attributes != previous_style.attributes {
        proof {
            lemma_push_command(term@, Command::SetAttributes(current_style.attributes));
        }
        term.push(Command::SetAttributes(current_style.attributes));
        previous_style.attributes = current_style.attributes;
    }
    if current_style.colors != previous_style.colors {
        proof {
            lemma_push_command(term@, Command::SetColors(current_style.colors));
        }
        term.push(Command::SetColors(current_style.colors));
        previous_style.colors = current_style.colors;
    }
    assert(views(term@) =~= views(before) + style_change(*old(previous_style), *current_style));
}

/// Paints the cell at column `col` of line `row`, with the cursor on it.
fn draw_cell(
    sprite: &Sprite,
    stylemap: &StyleMap,
    transparent: bool,
    ambient: Colors,
    row: usize,
    col: usize,
    term: &mut Vec<Command>,
    previous_style: &mut Style,
)
    requires
        row < sprite.spec_height(),
    ensures
        views(final(term)@) == views(old(term)@) + cell_commands(
            sprite,
            stylemap,
            transparent,
            ambient,
            row as int,
            col as int,
            *old(previous_style),
        ).0,
        *final(previous_style) == cell_commands(
            sprite,
            stylemap,
            transparent,
            ambient,
            row as int,
            col as int,
            *old(previous_style),
        ).1,
{
    let ghost before = term@;
    let lines = sprite.graphemes();
    let line = &lines[row];
    assert(line@ == sprite.spec_graphemes()[row as int]);
    let data = sprite.data();
    let bytes = data.as_bytes();
    let in_line = col < line.len();
    let blank = if in_line {
        let span: Span = line[col];
        assert(crate::sprite::is_span_of(sprite.spec_bytes(), span));
        let is_space = span.1 - span.0 == 1 && bytes[span.0] == 0x20;
        proof {
            let piece = sprite.spec_bytes().subrange(span.0 as int, span.1 as int);
            if is_space {
                assert(piece =~= seq![0x20u8]);
            } else if piece.len() == 1 {
                assert(piece[0] != seq![0x20u8][0]);
            } else {
                assert(seq![0x20u8].len() == 1);
            }
        }
        is_space
    } else {
        true
    };
    assert(blank == cell_is_blank(sprite, row as int, col as int));
    let covered = match stylemap.style_at(col, row) {
        Some(_) => true,
        None => false,
    };
    if transparent && !covered && blank {
        proof {
            lemma_push_command(term@, Command::MoveRight(1));
        }
        term.push(Command::MoveRight(1));
        assert(views(term@) =~= views(before) + seq![CommandView::MoveRight(1)]);
        return ;
    }
    let style = stylemap.style_for(col, row);
    let style = Style { attributes: style.attributes, colors: style.colors.with_default(ambient) };
    change_style_if_needed(term, previous_style, &style);
    let text: String = if in_line {
        let piece = sprite.grapheme(&line[col]);
        proof {
            encode_utf8_decode_utf8(piece@);
        }
        piece.to_owned()
    } else {
        proof {
            reveal_strlit(" ");
            assert(" "@ =~= seq![' ']);
        }
        " ".to_owned()
    };
    assert(text@ == cell_text(sprite, row as int, col as int));
    proof {
        lemma_push_command(term@, Command::Print(text));
    }
    term.push(Command::Print(text));
    assert(views(term@) =~= views(before) + cell_commands(
        sprite,
        stylemap,
        transparent,
        ambient,
        row as int,
        col as int,
        *old(previous_style),
    ).0);
}

/// Paints the part of line `row` that lies in the window.
fn draw_row(
    sprite: &Sprite,
    stylemap: &StyleMap,
    transparent: bool,
    ambient: Colors,
    x: i32,
    y: i32,
    window_width: u16,
    window_height: u16,
    row: usize,
    term: &mut Vec<Command>,
    previous_style: &mut Style,
)
    requires
        row < sprite.spec_height(),
        0 <= y + row < window_height,
        !is_off_screen(
            x,
            y,
            sprite.spec_width(),
            sprite.spec_height(),
            window_width,
            window_height,
        ),
    ensures
        views(final(term)@) == views(old(term)@) + row_commands(
            sprite,
            stylemap,
            transparent,
            ambient,
            x,
            y,
            window_width,
            row as int,
            *old(previous_style),
        ).0,
        *final(previous_style) == row_commands(
            sprite,
            stylemap,
            transparent,
            ambient,
            x,
            y,
            window_width,
            row as int,
            *old(previous_style),
        ).1,
{
    let ghost before = term@;
    let ghost first_style = *previous_style;
    let (from, to) = clip(x, sprite.width(), window_width);
    let column: u16 = (x as i64 + from as i64) as u16;
    let line: u16 = (y as i64 + row as i64) as u16;
    proof {
        lemma_push_command(term@, Command::MoveTo(column, line));
    }
    term.push(Command::MoveTo(column, line));
    let ghost moved = views(term@);
    assert(moved =~= views(before) + seq![CommandView::MoveTo(column, line)]);
    let mut col: usize = from;
    while col < to
        invariant
            from <= col <= to,
            row < sprite.spec_height(),
            views(term@) == moved + span_commands(
                sprite,
                stylemap,
                transparent,
                ambient,
                row as int,
                from as int,
                col as int,
                first_style,
            ).0,
            *previous_style == span_commands(
                sprite,
                stylemap,
                transparent,
                ambient,
                row as int,
                from as int,
                col as int,
                first_style,
            ).1,
        decreases to - col,
    {
        let ghost painted = span_commands(
            sprite,
            stylemap,
            transparent,
            ambient,
            row as int,
            from as int,
            col as int,
            first_style,
        );
        draw_cell(sprite, stylemap, transparent, ambient, row, col, term, previous_style);
        col += 1;
        assert(views(term@) =~= moved + span_commands(
            sprite,
            stylemap,
            transparent,
            ambient,
            row as int,
            from as int,
            col as int,
            first_style,
        ).0);
    }
    assert(views(term@) =~= views(before) + row_commands(
        sprite,
        stylemap,
        transparent,
        ambient,
        x,
        y,
        window_width,
        row as int,
        first_style,
    ).0);
}

/// Paints an entity: nothing where it is invisible, where its sprite or its
/// style map has not loaded, or where none of its cells lies in the window;
/// else the part of it that lies in the window, line by line. A style is
/// asked for only where it differs from the one that the terminal is in.
pub fn draw_entity(entity: &LiveEntity, term: &mut Vec<Command>, window: &CrosstermWindow)
    ensures
        views(final(term)@) == views(old(term)@) + entity_commands(*entity, window),
{
    let ghost before = term@;
    assert(views(before) + Seq::<CommandView>::empty() =~= views(before));
    if !entity.visible.is_visible {
        return ;
    }
    let sprite: &Sprite = match entity.sprite {
        Some(sprite) => sprite,
        None => {
            return ;
        },
    };
    let x: i32 = entity.position.x;
    let y: i32 = entity.position.y;
    if off_screen(x, y, sprite.width(), sprite.height(), window.width(), window.height()) {
        return ;
    }
    let stylemap: &StyleMap = match entity.stylemap {
        Some(stylemap) => stylemap,
        None => {
            return ;
        },
    };
    let ambient: Colors = window.colors();
    let first = Style {
        attributes: stylemap.style.attributes,
        colors: stylemap.style.colors.with_default(ambient),
    };
    proof {
        lemma_push_command(term@, Command::ResetAttributes);
    }
    term.push(Command::ResetAttributes);
    proof {
        lemma_push_command(term@, Command::SetAttributes(first.attributes));
    }
    term.push(Command::SetAttributes(first.attributes));
    proof {
        lemma_push_command(term@, Command::SetColors(first.colors));
    }
    term.push(Command::SetColors(first.colors));
    let ghost styled = views(term@);
    assert(styled =~= views(before) + seq![
        CommandView::ResetAttributes,
        CommandView::SetAttributes(first.attributes),
        CommandView::SetColors(first.colors),
    ]);
    let mut previous_style = first;
    let (from_row, to_row) = clip(y, sprite.height(), window.height());
    let mut row: usize = from_row;
    while row < to_row
        invariant
            from_row <= row <= to_row <= sprite.spec_height(),
            from_row < to_row ==> 0 <= y + from_row && y + to_row <= window.spec_height(),
            x == entity.position.x,
            y == entity.position.y,
            ambient == window.spec_colors(),
            !is_off_screen(
                x,
                y,
                sprite.spec_width(),
                sprite.spec_height(),
                window.spec_width(),
                window.spec_height(),
            ),
            views(term@) == styled + rows_commands(
                sprite,
                stylemap,
                entity.visible.is_transparent,
                ambient,
                x,
                y,
                window.spec_width(),
                from_row as int,
                row as int,
                first,
            ).0,
            previous_style == rows_commands(
                sprite,
                stylemap,
                entity.visible.is_transparent,
                ambient,
                x,
                y,
                window.spec_width(),
                from_row as int,
                row as int,
                first,
            ).1,
        decreases to_row - row,
    {
        draw_row(
            sprite,
            stylemap,
            entity.visible.is_transparent,
            ambient,
            x,
            y,
            window.width(),
            window.height(),
            row,
            term,
            &mut previous_style,
        );
        row += 1;
        assert(views(term@) =~= styled + rows_commands(
            sprite,
            stylemap,
            entity.visible.is_transparent,
            ambient,
            x,
            y,
            window.spec_width(),
            from_row as int,
            row as int,
            first,
        ).0);
    }
    assert(views(term@) =~= views(before) + entity_commands(*entity, window));
}

/// How far a request carries the cursor to the right: by one cell where it
/// writes a text, a grapheme cluster taking one cell, and by as many cells as
/// a step to the right says.
pub open spec fn cursor_step(command: CommandView) -> int {
    match command {
        CommandView::Print(_) => 1,
        CommandView::MoveRight(columns) => columns as int,
        _ => 0,
    }
}

/// How far the requests carry the cursor to the right, all in all.
pub open spec fn cells_advanced(commands: Seq<CommandView>) -> int
    decreases commands.len(),
{
    if commands.len() == 0 {
        0
    } else {
        cells_advanced(commands.drop_last()) + cursor_step(commands.last())
    }
}

proof fn lemma_cells_advanced_one(command: CommandView)
    ensures
        cells_advanced(seq![command]) == cursor_step(command),
{
    reveal_with_fuel(cells_advanced, 2);
    assert(seq![command].drop_last() =~= Seq::<CommandView>::empty());
    assert(seq![command].last() == command);
}

proof fn lemma_cells_advanced_add(front: Seq<CommandView>, back: Seq<CommandView>)
    ensures
        cells_advanced(front + back) == cells_advanced(front) + cells_advanced(back),
    decreases back.len(),
{
    if back.len() == 0 {
        assert(front + back =~= front);
    } else {
        lemma_cells_advanced_add(front, back.drop_last());
        assert((front + back).drop_last() =~= front + back.drop_last());
    }
}

proof fn lemma_cell_advances_by_one(
    sprite: &Sprite,
    stylemap: &StyleMap,
    transparent: bool,
    ambient: Colors,
    row: int,
    col: int,
    last: Style,
)
    ensures
        cells_advanced(cell_commands(sprite, stylemap, transparent, ambient, row, col, last).0)
            == 1,
{
    let commands = cell_commands(sprite, stylemap, transparent, ambient, row, col, last).0;
    if shows_through(sprite, stylemap, transparent, row, col) {
        lemma_cells_advanced_one(CommandView::MoveRight(1));
    } else {
        let style = effective_style(stylemap.spec_style_for(col, row), ambient);
        let change = style_change(last, style);
        assert(commands.drop_last() =~= change);
        let attributes: Seq<CommandView> = if style.attributes != last.attributes {
            seq![CommandView::SetAttributes(style.attributes)]
        } else {
            Seq::empty()
        };
        let colors: Seq<CommandView> = if style.colors != last.colors {
            seq![CommandView::SetColors(style.colors)]
        } else {
            Seq::empty()
        };
        lemma_cells_advanced_one(CommandView::SetAttributes(style.attributes));
        lemma_cells_advanced_one(CommandView::SetColors(style.colors));
        lemma_cells_advanced_add(attributes, colors);
    }
}

proof fn lemma_span_advances_by_its_length(
    sprite: &Sprite,
    stylemap: &StyleMap,
    transparent: bool,
    ambient: Colors,
    row: int,
    from: int,
    to: int,
    last: Style,
)
    requires
        from <= to,
    ensures
        cells_advanced(
            span_commands(sprite, stylemap, transparent, ambient, row, from, to, last).0,
        ) == to - from,
    decreases to - from,
{
    if from < to {
        lemma_span_advances_by_its_length(
            sprite,
            stylemap,
            transparent,
            ambient,
            row,
            from,
            to - 1,
            last,
        );
        let (front, style) = span_commands(
            sprite,
            stylemap,
            transparent,
            ambient,
            row,
            from,
            to - 1,
            last,
        );
        let cell = cell_commands(sprite, stylemap, transparent, ambient, row, to - 1, style).0;
        lemma_cell_advances_by_one(sprite, stylemap, transparent, ambient, row, to - 1, style);
        lemma_cells_advanced_add(front, cell);
    }
}

/// What `spec_clip` keeps lies inside the row of cells and inside the limit.
/// It keeps every cell of the row that lies inside the limit, and no other.
pub proof fn lemma_clip_stays_inside(start: i32, len: usize, limit: u16, i: int)
    ensures
        ({
            let (from, to) = spec_clip(start, len, limit);
            &&& 0 <= from <= to <= len
            &&& from < to ==> 0 <= start + from && start + to <= limit
            &&& (from <= i < to) <==> (0 <= i < len && 0 <= start + i < limit)
        }),
{
}

/// An entity of which no cell lies in the window, or that is invisible, or
/// misses its sprite or its style map, is painted with no request at all.
pub proof fn lemma_off_screen_paints_nothing(entity: LiveEntity, window: &CrosstermWindow)
    requires
        !is_painted(entity, window),
    ensures
        entity_commands(entity, window) == Seq::<CommandView>::empty(),
{
}

/// The requests that paint a line stay in the window: they first move the
/// cursor to a cell of the window that belongs to the sprite, and then carry
/// it to the right over as many cells as the line has in the window, never
/// past the right edge of the window or of the sprite.
pub proof fn lemma_row_stays_in_window(
    sprite: &Sprite,
    stylemap: &StyleMap,
    transparent: bool,
    ambient: Colors,
    x: i32,
    y: i32,
    window_width: u16,
    row: int,
    last: Style,
)
    requires
        window_width > 0,
        x < window_width,
        x + sprite.spec_width() > 0,
        sprite.spec_width() > 0,
    ensures
        ({
            let (from, to) = spec_clip(x, sprite.spec_width(), window_width);
            let commands = row_commands(
                sprite,
                stylemap,
                transparent,
                ambient,
                x,
                y,
                window_width,
                row,
                last,
            ).0;
            &&& commands[0] == CommandView::MoveTo((x + from) as u16, (y + row) as u16)
            &&& 0 <= x + from < window_width
            &&& x <= x + from
            &&& cells_advanced(commands) == to - from
            &&& x + from + cells_advanced(commands) <= window_width
            &&& x + from + cells_advanced(commands) <= x + sprite.spec_width()
        }),
{
    let (from, to) = spec_clip(x, sprite.spec_width(), window_width);
    let cells = span_commands(sprite, stylemap, transparent, ambient, row, from, to, last).0;
    let go = seq![CommandView::MoveTo((x + from) as u16, (y + row) as u16)];
    lemma_span_advances_by_its_length(sprite, stylemap, transparent, ambient, row, from, to, last);
    lemma_cells_advanced_add(go, cells);
    lemma_cells_advanced_one(CommandView::MoveTo((x + from) as u16, (y + row) as u16));
    let commands = row_commands(
        sprite,
        stylemap,
        transparent,
        ambient,
        x,
        y,
        window_width,
        row,
        last,
    ).0;
    assert(commands == go + cells);
    assert(commands[0] == go[0]);
    assert(from < to);
    assert(cells_advanced(commands) == to - from);
}

/// A blank cell of a transparent entity that the style map gives no style of
/// its own is not painted: the cursor steps over it, and the style that the
/// terminal is in stays as it is.
pub proof fn lemma_blank_cell_shows_through(
    sprite: &Sprite,
    stylemap: &StyleMap,
    ambient: Colors,
    row: int,
    col: int,
    last: Style,
)
    requires
        cell_is_blank(sprite, row, col),
        stylemap.spec_style_at(col, row) is None,
    ensures
        cell_commands(sprite, stylemap, true, ambient, row, col, last) == (
            seq![CommandView::MoveRight(1)],
            last,
        ),
{
}

/// A cell that the style map gives a style of its own is painted, blank or
/// not, transparent or not: its text is written, in that style with the
/// colors of the window where the style leaves one unset. So is every cell of
/// an entity that is not transparent, and every cell that is not blank.
pub proof fn lemma_other_cells_are_painted(
    sprite: &Sprite,
    stylemap: &StyleMap,
    transparent: bool,
    ambient: Colors,
    row: int,
    col: int,
    last: Style,
)
    requires
        stylemap.spec_style_at(col, row) is Some || !transparent || !cell_is_blank(
            sprite,
            row,
            col,
        ),
    ensures
        ({
            let (commands, style) = cell_commands(
                sprite,
                stylemap,
                transparent,
                ambient,
                row,
                col,
                last,
            );
            &&& commands.last() == CommandView::Print(cell_text(sprite, row, col))
            &&& style == effective_style(stylemap.spec_style_for(col, row), ambient)
            &&& stylemap.spec_style_at(col, row) is Some ==> style.attributes
                == stylemap.spec_style_at(col, row)->0.attributes
        }),
{
}

} // verus!
