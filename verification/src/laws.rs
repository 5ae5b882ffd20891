//! What holds of the game as a whole, proved from the definitions of the
//! other modules. Each statement is a proof function: its parameters are
//! the values it speaks of, and its contract is the statement.

use vstd::prelude::*;
use crate::board::{BoardView, Preset};
use crate::game::{Action, GameState, GameView, InputEvent};
use crate::grid::{adjacent, count_true, lemma_area_bound, lemma_cell_index_bounds};
use crate::placer::{Placement, DRAW_LIMIT};
use crate::render::{
    digit_color,
    frame_text,
    glyph_of,
    lemma_rows_glyph,
    COLOR_FLAG,
    COLOR_HIDDEN_MINE,
    COLOR_MINE,
    COLOR_PLAIN,
};
use crate::rng::{lemma_fixed_state, FIXED_STATE};
use crate::tile::TileKind;
use crate::uncover::RevealOutcome;

verus! {

/// After the placement a board of any preset holds exactly the preset's
/// number of mines, whatever the generator's state and the cell to keep
/// clear, and every tile without a mine shows the number of mines on the
/// up to eight tiles around it.
pub proof fn placement_lays_every_mine(preset: Preset, seed: u32, ax: int, ay: int)
    requires
        BoardView::fresh(preset).in_bounds(ax, ay),
    ensures
        count_true(BoardView::fresh(preset).placed(seed, ax, ay).mine_flags())
            == preset.spec_mines(),
        BoardView::fresh(preset).placed(seed, ax, ay).numbers_match(),
        BoardView::fresh(preset).placed(seed, ax, ay).wf(),
{
    BoardView::lemma_fresh_wf(preset);
    BoardView::fresh(preset).lemma_placed_wf(seed, ax, ay);
}

/// The same of any board that holds no mine yet, with or without flags.
pub proof fn placement_lays_every_mine_on(board: BoardView, seed: u32, ax: int, ay: int)
    requires
        board.wf(),
        board.laid == 0,
        board.in_bounds(ax, ay),
    ensures
        count_true(board.placed(seed, ax, ay).mine_flags()) == board.mines,
        board.placed(seed, ax, ay).numbers_match(),
        board.placed(seed, ax, ay).wf(),
        forall|i: int|
            0 <= i < board.tiles.len() ==> (#[trigger] board.placed(seed, ax, ay).tiles[i]).flagged
                == board.tiles[i].flagged && !board.placed(seed, ax, ay).tiles[i].revealed,
{
    board.lemma_placed_wf(seed, ax, ay);
    let after = board.placed(seed, ax, ay);
    assert forall|i: int| 0 <= i < board.tiles.len() implies (#[trigger] after.tiles[i]).flagged
        == board.tiles[i].flagged && !after.tiles[i].revealed by {
        assert(!board.tiles[i].revealed);
    }
}

/// A generator that stands still proposes the same cell in every draw, so
/// that all the draws together lay one mine at most.
pub proof fn standing_generator_proposes_one_cell(p: Placement, k: nat)
    requires
        p.seed == FIXED_STATE,
        k <= DRAW_LIMIT,
    ensures
        k < DRAW_LIMIT ==> p.candidate(k) == p.candidate(0),
        p.accepted(k) <= 1,
    decreases k,
{
    lemma_fixed_state(2 * k);
    lemma_fixed_state(2 * k + 1);
    lemma_fixed_state(0);
    lemma_fixed_state(1);
    if k > 0 {
        let j = (k - 1) as nat;
        standing_generator_proposes_one_cell(p, j);
        if j > 0 {
            assert(p.candidate(0) == p.candidate(j));
            assert(p.covers(j, p.candidate(j).0, p.candidate(j).1));
        }
    }
}

/// The placement lays no mine on the cell to keep clear nor on any cell
/// around it, whatever the state of the generator.
pub proof fn safe_zone_holds_no_mine(board: BoardView, seed: u32, ax: int, ay: int, x: int, y: int)
    requires
        board.wf(),
        board.laid == 0,
        board.in_bounds(ax, ay),
        board.in_bounds(x, y),
        -1 <= x - ax <= 1,
        -1 <= y - ay <= 1,
    ensures
        !board.placed(seed, ax, ay).at(x, y).is_mine(),
        board.placed(seed, ax, ay).at(ax, ay).kind == TileKind::Empty,
{
    board.lemma_placed_wf(seed, ax, ay);
}

/// The first reveal of a game never hits a mine, whatever the state of
/// the generator: after it the game is in progress or won.
pub proof fn first_reveal_is_safe(game: GameView, now: u64)
    requires
        game.wf(),
        game.state == GameState::NotStarted,
    ensures
        game.step(InputEvent::Reveal, now).state != GameState::Lost,
        !game.under_cursor().flagged ==> game.step(InputEvent::Reveal, now).state
            != GameState::NotStarted && game.step(InputEvent::Reveal, now).under_cursor().revealed,
{
    game.lemma_revealed_wf(now);
    let x = game.cursor_x as int;
    let y = game.cursor_y as int;
    let ready = game.ready_board();
    assert(!game.under_cursor().revealed) by {
        lemma_cell_index_bounds(game.board.width as int, game.board.height as int, x, y);
    }
    if !game.under_cursor().flagged {
        game.board.lemma_placed_wf(game.rng, x, y);
        ready.lemma_flood_start(x, y);
        ready.lemma_flood_at(x, y);
    }
}

/// A reveal that uncovers a safe tile lowers the number of safe tiles
/// still covered, by the number of tiles that it reports, and never below
/// zero.
pub proof fn reveal_lowers_safe_remaining(board: BoardView, x: int, y: int)
    requires
        board.wf(),
        board.is_placed(),
        board.in_bounds(x, y),
        !board.at(x, y).revealed,
        !board.at(x, y).flagged,
        !board.at(x, y).is_mine(),
    ensures
        board.reveal_at(x, y).safe_remaining < board.safe_remaining,
        board.reveal_outcome(x, y) == RevealOutcome::RevealedSet(
            (board.safe_remaining - board.reveal_at(x, y).safe_remaining) as usize,
        ),
        board.reveal_at(x, y).at(x, y).revealed,
{
    if board.at(x, y).kind == TileKind::Empty {
        board.lemma_flood_wf(x, y);
        board.lemma_flood_start(x, y);
        board.lemma_flood_at(x, y);
        lemma_area_bound(board.width as int, board.height as int);
    } else {
        board.lemma_uncover_wf(x, y);
        board.lemma_with_tile(x, y, board.at(x, y).uncovered());
    }
}

/// Revealing a mine leaves the number of safe tiles still covered as it
/// was.
pub proof fn mine_leaves_safe_remaining(board: BoardView, x: int, y: int)
    requires
        board.wf(),
        board.in_bounds(x, y),
        board.at(x, y).is_mine(),
    ensures
        board.reveal_at(x, y).safe_remaining == board.safe_remaining,
        !board.at(x, y).revealed && !board.at(x, y).flagged ==> board.reveal_outcome(x, y)
            == RevealOutcome::HitMine,
{
}

/// After any step the game is won exactly if no safe tile is covered any
/// more, and lost exactly if a mine is revealed. A game that was not won
/// becomes won only by the reveal that uncovers the last safe tile.
pub proof fn won_exactly_when_nothing_is_left(game: GameView, event: InputEvent, now: u64)
    requires
        game.wf(),
    ensures
        game.step(event, now).wf(),
        game.step(event, now).state == GameState::Won <==> game.step(
            event,
            now,
        ).board.safe_remaining == 0,
        game.step(event, now).state == GameState::Lost <==> game.step(
            event,
            now,
        ).board.mine_shown(),
        game.state != GameState::Won && game.step(event, now).state == GameState::Won ==> event
            == InputEvent::Reveal && game.board.safe_remaining > 0,
        game.is_over() ==> game.step(event, now) == game,
{
    game.lemma_step_wf(event, now);
    if !game.is_over() && event == InputEvent::ToggleFlag {
        game.board.lemma_toggle_flag_wf(game.cursor_x as int, game.cursor_y as int);
    }
}

/// What the game asks to draw covers what has changed. After a step that
/// asks for nothing the board is as it was. After one that asks for the
/// tile under the cursor, every other tile is as it was, the cursor has
/// not moved, and the game goes on.
pub proof fn partial_redraw_suffices(game: GameView, event: InputEvent, now: u64, x: int, y: int)
    requires
        game.wf(),
        game.board.in_bounds(x, y),
    ensures
        game.action(event, now) == Action::Nothing ==> game.step(event, now).board == game.board
            && game.step(event, now).state == game.state,
        game.action(event, now) == Action::DrawTile ==> game.step(event, now).cursor_x
            == game.cursor_x && game.step(event, now).cursor_y == game.cursor_y && !game.step(
            event,
            now,
        ).is_over() && (!(x == game.cursor_x && y == game.cursor_y) ==> game.step(
            event,
            now,
        ).board.at(x, y) == game.board.at(x, y)),
{
    let cx = game.cursor_x as int;
    let cy = game.cursor_y as int;
    if game.action(event, now) == Action::DrawTile {
        if event == InputEvent::ToggleFlag {
            game.board.lemma_with_tile(cx, cy, game.under_cursor().flag_toggled());
        } else {
            game.lemma_revealed_wf(now);
            if game.state == GameState::NotStarted {
                game.board.lemma_placed_wf(game.rng, cx, cy);
            } else {
                let shown = game.board.with_tile(cx, cy, game.under_cursor().uncovered());
                game.board.lemma_with_tile(cx, cy, game.under_cursor().uncovered());
                assert(game.step(event, now).board.at(x, y) == shown.at(x, y));
            }
        }
    }
}

/// Once the mines are laid, no step changes what lies under a tile.
pub proof fn kinds_stay_after_placement(game: GameView, event: InputEvent, now: u64, i: int)
    requires
        game.wf(),
        game.state != GameState::NotStarted,
        0 <= i < game.board.tiles.len(),
    ensures
        game.step(event, now).board.tiles.len() == game.board.tiles.len(),
        game.step(event, now).board.tiles[i].kind == game.board.tiles[i].kind,
        game.board.tiles[i].revealed ==> game.step(event, now).board.tiles[i].revealed,
{
    let x = game.cursor_x as int;
    let y = game.cursor_y as int;
    if !game.is_over() {
        if event == InputEvent::ToggleFlag {
            game.board.lemma_toggle_flag_wf(x, y);
        } else if event == InputEvent::Reveal {
            game.board.lemma_reveal_keeps_mines(x, y);
            game.board.lemma_tiles_at();
            let t = game.board.at(x, y);
            if !(t.revealed || t.flagged) && t.kind != TileKind::Empty {
                lemma_cell_index_bounds(game.board.width as int, game.board.height as int, x, y);
            }
        }
    }
}

/// A flood from a covered empty tile reveals the cells that a walk from
/// the start can reach through empty tiles, and no other: the empty tiles
/// connected to the start and the tiles along their border. No mine is
/// among them. The region is as large as it can be: afterwards every tile
/// around a revealed empty tile is revealed.
pub proof fn flood_reveals_the_region(board: BoardView, sx: int, sy: int, x: int, y: int)
    requires
        board.wf(),
        board.is_placed(),
        board.in_bounds(sx, sy),
        !board.at(sx, sy).revealed,
        !board.at(sx, sy).flagged,
        board.at(sx, sy).kind == TileKind::Empty,
        board.in_bounds(x, y),
    ensures
        board.reveal_at(sx, sy).at(x, y).revealed <==> board.at(x, y).revealed || board.floods_to(
            sx,
            sy,
            x,
            y,
        ),
        board.reveal_at(sx, sy).at(x, y).kind == board.at(x, y).kind,
        board.floods_to(sx, sy, x, y) ==> !board.at(x, y).is_mine(),
        board.reveal_at(sx, sy).flood_closed(),
{
    board.lemma_flood_at(sx, sy);
    board.lemma_flood_wf(sx, sy);
    if board.floods_to(sx, sy, x, y) {
        board.lemma_flood_avoids_mines(sx, sy, x, y);
    }
}

/// Every cell that a flood reaches, but its start, lies beside an empty
/// tile that the flood reaches too.
pub proof fn flood_spreads_from_empty_tiles(board: BoardView, sx: int, sy: int, x: int, y: int)
    requires
        board.floods_to(sx, sy, x, y),
        !(x == sx && y == sy),
    ensures
        exists|a: int, b: int|
            adjacent(x, y, a, b) && #[trigger] board.floods_to(sx, sy, a, b) && board.at(a, b).kind
                == TileKind::Empty,
{
    let p = choose|p: Seq<(int, int)>| #[trigger] board.flood_walk(p, sx, sy) && p.last() == (x, y);
    let q = p.drop_last();
    assert(board.flood_walk(q, sx, sy));
    assert(board.floods_to(sx, sy, q.last().0, q.last().1));
}

/// A flood counts each tile once: the tiles it reports are as many as the
/// safe tiles that are no longer covered.
pub proof fn flood_counts_each_tile_once(board: BoardView, sx: int, sy: int)
    requires
        board.wf(),
        board.is_placed(),
        board.in_bounds(sx, sy),
        !board.at(sx, sy).revealed,
        !board.at(sx, sy).flagged,
        board.at(sx, sy).kind == TileKind::Empty,
    ensures
        board.reveal_outcome(sx, sy) == RevealOutcome::RevealedSet(
            count_true(board.gained(sx, sy)) as usize,
        ),
        count_true(board.reveal_at(sx, sy).hidden_safe_flags()) + count_true(board.gained(sx, sy))
            == count_true(board.hidden_safe_flags()),
        board.reveal_at(sx, sy).safe_remaining + count_true(board.gained(sx, sy))
            == board.safe_remaining,
{
    board.lemma_flood_wf(sx, sy);
}

/// Revealing a revealed tile changes nothing, so that a second reveal of
/// the same tile is without effect.
pub proof fn reveal_twice_is_reveal_once(board: BoardView, x: int, y: int)
    requires
        board.wf(),
        board.is_placed(),
        board.in_bounds(x, y),
    ensures
        board.at(x, y).revealed ==> board.reveal_at(x, y) == board,
        board.reveal_at(x, y).reveal_at(x, y) == board.reveal_at(x, y),
        board.reveal_at(x, y).reveal_outcome(x, y) == RevealOutcome::RevealedSet(0),
{
    let t = board.at(x, y);
    if !(t.revealed || t.flagged) {
        if t.kind == TileKind::Empty {
            board.lemma_flood_start(x, y);
            board.lemma_flood_at(x, y);
        } else {
            board.lemma_with_tile(x, y, t.uncovered());
        }
    }
}

/// Toggling the flag of a tile twice gives the board back.
pub proof fn toggle_flag_twice_is_nothing(board: BoardView, x: int, y: int)
    requires
        board.sized(),
        board.in_bounds(x, y),
    ensures
        board.toggle_flag(x, y).toggle_flag(x, y) == board,
{
    board.lemma_toggle_flag_twice(x, y);
}

/// Two flag events in a row leave the game as it was.
pub proof fn flag_events_cancel(game: GameView, now: u64, later: u64)
    requires
        game.wf(),
    ensures
        game.step(InputEvent::ToggleFlag, now).step(InputEvent::ToggleFlag, later) == game,
{
    game.board.lemma_toggle_flag_twice(game.cursor_x as int, game.cursor_y as int);
}

/// The frame holds one line for each row of the board, and on line `y`
/// one glyph for each tile of the row: that of the tile in column `x`
/// stands at place `2 + 2 * x`.
pub proof fn frame_holds_one_glyph_for_each_tile(board: BoardView, show_mines: bool, x: int, y: int)
    requires
        board.in_bounds(x, y),
    ensures
        frame_text(board, show_mines).len() == board.height * (2 * board.width + 4),
        0 <= y * (2 * board.width + 4) + 2 + 2 * x < frame_text(board, show_mines).len(),
        frame_text(board, show_mines)[y * (2 * board.width + 4) + 2 + 2 * x] == glyph_of(
            board.at(x, y),
            show_mines,
        ),
{
    lemma_rows_glyph(board, board.height, show_mines, x, y);
}

/// Each number is drawn in a colour of its own, which is neither that of
/// plain text, nor that of a flag, nor that of a mine.
pub proof fn each_number_has_its_own_colour(j: u8, k: u8)
    requires
        1 <= j <= 8,
        1 <= k <= 8,
    ensures
        j != k ==> digit_color(j) != digit_color(k),
        digit_color(k) != COLOR_PLAIN,
        digit_color(k) != COLOR_FLAG,
        digit_color(k) != COLOR_MINE,
        digit_color(k) != COLOR_HIDDEN_MINE,
{
}

} // verus!
