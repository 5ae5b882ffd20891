//! The game: a board, a cursor, a generator and the state of play.
//!
//! The game reads no key and draws nothing. `step` takes one input event
//! and the time, changes the game, and says what the front end has to
//! draw again. The front end runs the loop.

use vstd::prelude::*;
use crate::board::{Board, BoardView, Preset};
use crate::grid::{cell_index, lemma_cell_index_bounds};
use crate::rng::{state_after, Random};
use crate::tile::{TileKind, TileState};
use crate::uncover::RevealOutcome;

verus! {

/// Where a game stands.
#[derive(Clone, Copy, PartialEq, Eq, Debug, Structural)]
pub enum GameState {
    /// No tile was revealed yet and no mine is laid.
    NotStarted,
    /// The mines are laid and safe tiles are still covered.
    InProgress,
    /// Every safe tile is revealed.
    Won,
    /// A mine was revealed.
    Lost,
}

/// What the player can ask for.
#[derive(Clone, Copy, PartialEq, Eq, Debug, Structural)]
pub enum InputEvent {
    /// A key without a meaning.
    Empty,
    /// Move the cursor one row up.
    MoveUp,
    /// Move the cursor one row down.
    MoveDown,
    /// Move the cursor one column to the left.
    MoveLeft,
    /// Move the cursor one column to the right.
    MoveRight,
    /// Put a flag on the tile under the cursor, or take it off.
    ToggleFlag,
    /// Reveal the tile under the cursor.
    Reveal,
}

/// What the front end has to do after a step, beside placing the cursor.
#[derive(Clone, Copy, PartialEq, Eq, Debug, Structural)]
pub enum Action {
    /// Nothing on the board looks different.
    Nothing,
    /// Draw the tile under the cursor again.
    DrawTile,
    /// Draw the whole board again.
    DrawBoard,
    /// The game has just ended: report the result and the time played,
    /// and draw the board with its mines.
    Finish,
}

/// A game as contracts see it.
#[verifier::ext_equal]
pub struct GameView {
    /// The board.
    pub board: BoardView,
    /// The state of the generator.
    pub rng: u32,
    /// The column of the cursor.
    pub cursor_x: nat,
    /// The row of the cursor.
    pub cursor_y: nat,
    /// Where the game stands.
    pub state: GameState,
    /// The time of the first reveal, in milliseconds.
    pub started_at: u64,
}

impl GameView {
    /// The game before its first step: a fresh board, the cursor in the
    /// top left corner, and the generator that will lay the mines.
    pub open spec fn fresh(preset: Preset, rng: u32) -> GameView {
        GameView {
            board: BoardView::fresh(preset),
            rng,
            cursor_x: 0,
            cursor_y: 0,
            state: GameState::NotStarted,
            started_at: 0,
        }
    }

    /// The game has ended.
    pub open spec fn is_over(self) -> bool {
        self.state == GameState::Won || self.state == GameState::Lost
    }

    /// What holds of every game between two steps. The cursor is on the
    /// board. The mines are laid with the first reveal. The game is won
    /// when no safe tile is covered any more, and only then; it is lost
    /// when a mine is revealed, and only then.
    pub open spec fn wf(self) -> bool {
        &&& self.board.wf()
        &&& self.board.in_bounds(self.cursor_x as int, self.cursor_y as int)
        &&& self.state == GameState::NotStarted ==> self.board.laid == 0
        &&& self.state != GameState::NotStarted ==> self.board.is_placed()
        &&& self.state == GameState::Won <==> self.board.safe_remaining == 0
        &&& self.state == GameState::Lost <==> self.board.mine_shown()
    }

    /// The tile under the cursor.
    pub open spec fn under_cursor(self) -> TileState {
        self.board.at(self.cursor_x as int, self.cursor_y as int)
    }

    /// The game with the cursor moved one cell, if that cell is on the
    /// board; at an edge the cursor stays.
    pub open spec fn moved(self, event: InputEvent) -> GameView {
        match event {
            InputEvent::MoveUp => GameView {
                cursor_y: if self.cursor_y > 0 {
                    (self.cursor_y - 1) as nat
                } else {
                    self.cursor_y
                },
                ..self
            },
            InputEvent::MoveDown => GameView {
                cursor_y: if self.cursor_y + 1 < self.board.height {
                    self.cursor_y + 1
                } else {
                    self.cursor_y
                },
                ..self
            },
            InputEvent::MoveLeft => GameView {
                cursor_x: if self.cursor_x > 0 {
                    (self.cursor_x - 1) as nat
                } else {
                    self.cursor_x
                },
                ..self
            },
            InputEvent::MoveRight => GameView {
                cursor_x: if self.cursor_x + 1 < self.board.width {
                    self.cursor_x + 1
                } else {
                    self.cursor_x
                },
                ..self
            },
            _ => self,
        }
    }

    /// The board on which a reveal works: that of a game in progress, or,
    /// at the first reveal, the board with its mines laid clear of the
    /// cursor.
    pub open spec fn ready_board(self) -> BoardView {
        if self.state == GameState::NotStarted {
            self.board.placed(self.rng, self.cursor_x as int, self.cursor_y as int)
        } else {
            self.board
        }
    }

    /// The game after a reveal under the cursor at time `now`. A tile that
    /// is revealed or flagged stays as it is, and so does the game.
    pub open spec fn revealed(self, now: u64) -> GameView {
        let x = self.cursor_x as int;
        let y = self.cursor_y as int;
        if self.under_cursor().revealed || self.under_cursor().flagged {
            self
        } else {
            let first = self.state == GameState::NotStarted;
            let ready = self.ready_board();
            let board = ready.reveal_at(x, y);
            GameView {
                board,
                rng: if first {
                    state_after(self.rng, self.board.placement(self.rng, x, y).numbers_drawn())
                } else {
                    self.rng
                },
                started_at: if first {
                    now
                } else {
                    self.started_at
                },
                state: if ready.reveal_outcome(x, y) == RevealOutcome::HitMine {
                    GameState::Lost
                } else if board.safe_remaining == 0 {
                    GameState::Won
                } else {
                    GameState::InProgress
                },
                ..self
            }
        }
    }

    /// The game after one event at time `now`. A game that has ended
    /// takes no event.
    pub open spec fn step(self, event: InputEvent, now: u64) -> GameView {
        if self.is_over() {
            self
        } else {
            match event {
                InputEvent::Empty => self,
                InputEvent::ToggleFlag => GameView {
                    board: self.board.toggle_flag(self.cursor_x as int, self.cursor_y as int),
                    ..self
                },
                InputEvent::Reveal => self.revealed(now),
                _ => self.moved(event),
            }
        }
    }

    /// What the front end has to do after the event.
    pub open spec fn action(self, event: InputEvent, now: u64) -> Action {
        if self.is_over() {
            Action::Nothing
        } else {
            match event {
                InputEvent::ToggleFlag => if self.under_cursor().revealed {
                    Action::Nothing
                } else {
                    Action::DrawTile
                },
                InputEvent::Reveal => if self.under_cursor().revealed
                    || self.under_cursor().flagged {
                    Action::Nothing
                } else if self.step(event, now).is_over() {
                    Action::Finish
                } else if self.ready_board().at(self.cursor_x as int, self.cursor_y as int).kind
                    == TileKind::Empty {
                    Action::DrawBoard
                } else {
                    Action::DrawTile
                },
                _ => Action::Nothing,
            }
        }
    }

    /// The whole seconds played at time `now`: none before the first
    /// reveal, and none if `now` lies before it.
    pub open spec fn elapsed_seconds(self, now: u64) -> u64 {
        if self.state == GameState::NotStarted || now < self.started_at {
            0
        } else {
            ((now - self.started_at) / 1000) as u64
        }
    }

    /// A fresh game is well formed.
    pub proof fn lemma_fresh_wf(preset: Preset, rng: u32)
        ensures
            GameView::fresh(preset, rng).wf(),
    {
        let g = GameView::fresh(preset, rng);
        BoardView::lemma_fresh_wf(preset);
        if g.board.mine_shown() {
            let i = choose|i: int|
                0 <= i < g.board.tiles.len() && (#[trigger] g.board.tiles[i]).is_mine()
                    && g.board.tiles[i].revealed;
        }
    }

    /// A reveal leaves a game well formed, and the first reveal of a game
    /// does not lose it. The board on which the reveal works is well formed
    /// and holds all its mines; its tile under the cursor is covered and
    /// flagged as it was.
    pub proof fn lemma_revealed_wf(self, now: u64)
        requires
            self.wf(),
            !self.is_over(),
        ensures
            self.revealed(now).wf(),
            self.state == GameState::NotStarted ==> self.revealed(now).state != GameState::Lost,
            self.ready_board().wf(),
            self.ready_board().is_placed(),
            self.ready_board().at(self.cursor_x as int, self.cursor_y as int).revealed
                == self.under_cursor().revealed,
            self.ready_board().at(self.cursor_x as int, self.cursor_y as int).flagged
                == self.under_cursor().flagged,
    {
        let x = self.cursor_x as int;
        let y = self.cursor_y as int;
        let ready = self.ready_board();
        if self.state == GameState::NotStarted {
            self.board.lemma_placed_wf(self.rng, x, y);
            self.board.lemma_placed_at(self.rng, x, y);
            assert(!ready.mine_shown()) by {
                if ready.mine_shown() {
                    let i = choose|i: int|
                        0 <= i < ready.tiles.len() && (#[trigger] ready.tiles[i]).is_mine()
                            && ready.tiles[i].revealed;
                    assert(!self.board.tiles[i].revealed);
                }
            }
        }
        if !(self.under_cursor().revealed || self.under_cursor().flagged) {
            let after = self.revealed(now);
            ready.lemma_reveal_wf(x, y);
            ready.lemma_reveal_keeps_mines(x, y);
            let at = cell_index(ready.width as int, x, y);
            lemma_cell_index_bounds(ready.width as int, ready.height as int, x, y);
            if ready.at(x, y).is_mine() {
                assert(after.board.tiles[at].is_mine() && after.board.tiles[at].revealed);
            } else {
                if after.board.mine_shown() {
                    let i = choose|i: int|
                        0 <= i < after.board.tiles.len() && (
                        #[trigger] after.board.tiles[i]).is_mine() && after.board.tiles[i].revealed;
                    assert(ready.tiles[i].is_mine());
                    assert(after.board.tiles[i] == ready.tiles[i]);
                    assert(ready.tiles[i].is_mine() && ready.tiles[i].revealed);
                }
            }
        }
    }

    /// A step leaves a game well formed.
    pub proof fn lemma_step_wf(self, event: InputEvent, now: u64)
        requires
            self.wf(),
        ensures
            self.step(event, now).wf(),
    {
        if !self.is_over() {
            match event {
                InputEvent::ToggleFlag => {
                    self.board.lemma_toggle_flag_wf(self.cursor_x as int, self.cursor_y as int);
                },
                InputEvent::Reveal => {
                    self.lemma_revealed_wf(now);
                },
                _ => {},
            }
        }
    }
}

/// The game.
pub struct Game {
    board: Board,
    rng: Random,
    cursor_x: usize,
    cursor_y: usize,
    state: GameState,
    started_at: u64,
}

impl View for Game {
    type V = GameView;

    closed spec fn view(&self) -> GameView {
        GameView {
            board: self.board@,
            rng: self.rng@,
            cursor_x: self.cursor_x as nat,
            cursor_y: self.cursor_y as nat,
            state: self.state,
            started_at: self.started_at,
        }
    }
}

impl Game {
    /// The board is well stored.
    pub closed spec fn stored(&self) -> bool {
        self.board.stored()
    }

    /// The game is well stored and its view is well formed.
    pub open spec fn wf(&self) -> bool {
        self.stored() && self@.wf()
    }

    /// A game that has not started: an empty board of the preset's size,
    /// the cursor in the top left corner, and the generator that will lay
    /// the mines.
    pub fn new(preset: Preset, rng: Random) -> (g: Game)
        ensures
            g.wf(),
            g@ == GameView::fresh(preset, rng@),
    {
        let board = Board::new(preset);
        proof {
            GameView::lemma_fresh_wf(preset, rng@);
        }
        Game { board, rng, cursor_x: 0, cursor_y: 0, state: GameState::NotStarted, started_at: 0 }
    }

    /// Where the game stands.
    pub fn state(&self) -> (s: GameState)
        ensures
            s == self@.state,
    {
        self.state
    }

    /// Whether the game has ended.
    pub fn is_over(&self) -> (b: bool)
        ensures
            b == self@.is_over(),
    {
        match self.state {
            GameState::Won => true,
            GameState::Lost => true,
            _ => false,
        }
    }

    /// The cursor: column, then row.
    pub fn cursor(&self) -> (c: (usize, usize))
        ensures
            c.0 == self@.cursor_x,
            c.1 == self@.cursor_y,
    {
        (self.cursor_x, self.cursor_y)
    }

    /// The board.
    pub fn board(&self) -> (b: &Board)
        ensures
            b@ == self@.board,
            self.stored() ==> b.stored(),
    {
        &self.board
    }

    /// The whole seconds played at time `now_ms`, in milliseconds.
    pub fn elapsed_seconds(&self, now_ms: u64) -> (s: u64)
        ensures
            s == self@.elapsed_seconds(now_ms),
    {
        match self.state {
            GameState::NotStarted => 0,
            _ => if now_ms < self.started_at {
                0
            } else {
                (now_ms - self.started_at) / 1000
            },
        }
    }

    /// Takes one event at time `now_ms`, in milliseconds, and says what
    /// has to be drawn again.
    ///
    /// A move shifts the cursor by one cell and stops at the edges. A flag
    /// is toggled on a covered tile only. A reveal works on a covered tile
    /// without a flag only; the first one lays the mines clear of the
    /// cursor and starts the clock. Revealing a mine loses the game;
    /// revealing the last safe tile wins it. A game that has ended takes
    /// no event.
    pub fn step(&mut self, event: InputEvent, now_ms: u64) -> (action: Action)
        requires
            old(self).wf(),
        ensures
            final(self).wf(),
            final(self)@ == old(self)@.step(event, now_ms),
            action == old(self)@.action(event, now_ms),
            old(self)@.state == GameState::NotStarted ==> final(self)@.state != GameState::Lost,
    {
        proof {
            self@.lemma_step_wf(event, now_ms);
        }
        if self.is_over() {
            return Action::Nothing;
        }
        match event {
            InputEvent::Empty => Action::Nothing,
            InputEvent::MoveUp => {
                if self.cursor_y > 0 {
                    self.cursor_y = self.cursor_y - 1;
                }
                Action::Nothing
            },
            InputEvent::MoveDown => {
                if self.cursor_y + 1 < self.board.height() {
                    self.cursor_y = self.cursor_y + 1;
                }
                Action::Nothing
            },
            InputEvent::MoveLeft => {
                if self.cursor_x > 0 {
                    self.cursor_x = self.cursor_x - 1;
                }
                Action::Nothing
            },
            InputEvent::MoveRight => {
                if self.cursor_x + 1 < self.board.width() {
                    self.cursor_x = self.cursor_x + 1;
                }
                Action::Nothing
            },
            InputEvent::ToggleFlag => {
                let flipped = self.board.toggle_flag(self.cursor_x, self.cursor_y);
                if flipped {
                    Action::DrawTile
                } else {
                    Action::Nothing
                }
            },
            InputEvent::Reveal => self.reveal_under_cursor(now_ms),
        }
    }

    /// Reveals the tile under the cursor of a game that has not ended.
    fn reveal_under_cursor(&mut self, now_ms: u64) -> (action: Action)
        requires
            old(self).wf(),
            !old(self)@.is_over(),
        ensures
            final(self).stored(),
            final(self)@ == old(self)@.revealed(now_ms),
            action == old(self)@.action(InputEvent::Reveal, now_ms),
            old(self)@.state == GameState::NotStarted ==> final(self)@.state != GameState::Lost,
    {
        let x = self.cursor_x;
        let y = self.cursor_y;
        let t = self.board.tile(x, y);
        if t.is_revealed() || t.is_flagged() {
            return Action::Nothing;
        }
        proof {
            self@.lemma_revealed_wf(now_ms);
        }
        match self.state {
            GameState::NotStarted => {
                self.board.place_mines(&mut self.rng, x, y);
                self.started_at = now_ms;
                self.state = GameState::InProgress;
            },
            _ => {},
        }
        let was_empty = self.board.tile(x, y).is_empty();
        match self.board.reveal_at(x, y) {
            RevealOutcome::HitMine => {
                self.state = GameState::Lost;
                Action::Finish
            },
            RevealOutcome::RevealedSet(_) => {
                if self.board.safe_remaining() == 0 {
                    self.state = GameState::Won;
                    Action::Finish
                } else {
                    self.state = GameState::InProgress;
                    if was_empty {
                        Action::DrawBoard
                    } else {
                        Action::DrawTile
                    }
                }
            },
        }
    }
}

} // verus!
