//! The board: a rectangular grid of tiles and the count of safe tiles
//! that are still covered.
//!
//! A board is made empty, gets its mines once, and is then uncovered tile
//! by tile. Contracts speak of a board through its view, a plain
//! mathematical record; the packed storage stays private to this module.

use vstd::prelude::*;
use crate::grid::{
    adjacent,
    cell_index,
    count_true,
    in_grid,
    lemma_area_bound,
    lemma_cell_index_bounds,
    lemma_cell_index_injective,
    lemma_count_all,
    lemma_count_update,
    lemma_count_zero,
    lemma_index_cell,
    neighbours,
    MAX_SIDE,
};
use crate::tile::{Tile, TileKind, TileState};

verus! {

/// The three sizes a game comes in.
#[derive(Clone, Copy, PartialEq, Eq, Debug, Structural)]
pub enum Preset {
    /// 9 by 9 with 10 mines.
    Beginner,
    /// 16 by 16 with 40 mines.
    Intermediate,
    /// 30 by 16 with 99 mines.
    Expert,
}

impl Preset {
    /// The number of columns.
    pub open spec fn spec_width(self) -> usize {
        match self {
            Preset::Beginner => 9,
            Preset::Intermediate => 16,
            Preset::Expert => 30,
        }
    }

    /// The number of rows.
    pub open spec fn spec_height(self) -> usize {
        match self {
            Preset::Beginner => 9,
            Preset::Intermediate => 16,
            Preset::Expert => 16,
        }
    }

    /// The number of mines.
    pub open spec fn spec_mines(self) -> usize {
        match self {
            Preset::Beginner => 10,
            Preset::Intermediate => 40,
            Preset::Expert => 99,
        }
    }

    /// The number of columns.
    #[verifier::when_used_as_spec(spec_width)]
    pub fn width(self) -> (w: usize)
        ensures
            w == self.spec_width(),
    {
        match self {
            Preset::Beginner => 9,
            Preset::Intermediate => 16,
            Preset::Expert => 30,
        }
    }

    /// The number of rows.
    #[verifier::when_used_as_spec(spec_height)]
    pub fn height(self) -> (h: usize)
        ensures
            h == self.spec_height(),
    {
        match self {
            Preset::Beginner => 9,
            Preset::Intermediate => 16,
            Preset::Expert => 16,
        }
    }

    /// The number of mines.
    #[verifier::when_used_as_spec(spec_mines)]
    pub fn mines(self) -> (m: usize)
        ensures
            m == self.spec_mines(),
    {
        match self {
            Preset::Beginner => 10,
            Preset::Intermediate => 40,
            Preset::Expert => 99,
        }
    }
}

/// 1 for true, 0 for false.
pub open spec fn unit(b: bool) -> int {
    if b {
        1
    } else {
        0
    }
}

/// A board as contracts see it.
#[verifier::ext_equal]
pub struct BoardView {
    /// Number of columns.
    pub width: nat,
    /// Number of rows.
    pub height: nat,
    /// How many mines the board is to hold.
    pub mines: nat,
    /// How many mines it holds so far.
    pub laid: nat,
    /// How many mine-free tiles are still covered, once all mines are laid.
    pub safe_remaining: nat,
    /// The tiles, row by row.
    pub tiles: Seq<TileState>,
}

impl BoardView {
    /// `(x, y)` is a cell of the board.
    pub open spec fn in_bounds(self, x: int, y: int) -> bool {
        in_grid(self.width as int, self.height as int, x, y)
    }

    /// The tile in column `x` of row `y`.
    pub open spec fn at(self, x: int, y: int) -> TileState {
        self.tiles[cell_index(self.width as int, x, y)]
    }

    /// For each tile, whether it holds a mine.
    pub open spec fn mine_flags(self) -> Seq<bool> {
        Seq::new(self.tiles.len(), |i: int| self.tiles[i].is_mine())
    }

    /// For each tile, whether it is mine-free and still covered.
    pub open spec fn hidden_safe_flags(self) -> Seq<bool> {
        Seq::new(self.tiles.len(), |i: int| !self.tiles[i].is_mine() && !self.tiles[i].revealed)
    }

    /// No tile is revealed.
    pub open spec fn all_covered(self) -> bool {
        forall|i: int| 0 <= i < self.tiles.len() ==> !(#[trigger] self.tiles[i]).revealed
    }

    /// All the mines are laid.
    pub open spec fn is_placed(self) -> bool {
        self.laid == self.mines
    }

    /// `(x, y)` is a cell of the board with a mine under it.
    pub open spec fn mine_at(self, x: int, y: int) -> bool {
        self.in_bounds(x, y) && self.at(x, y).is_mine()
    }

    /// How many of the up to eight cells around `(x, y)` hold a mine.
    pub open spec fn mines_around(self, x: int, y: int) -> int {
        unit(self.mine_at(x - 1, y - 1)) + unit(self.mine_at(x, y - 1)) + unit(
            self.mine_at(x + 1, y - 1),
        ) + unit(self.mine_at(x - 1, y)) + unit(self.mine_at(x + 1, y)) + unit(
            self.mine_at(x - 1, y + 1),
        ) + unit(self.mine_at(x, y + 1)) + unit(self.mine_at(x + 1, y + 1))
    }

    /// Every mine-free tile shows the number of mines around it.
    pub open spec fn numbers_match(self) -> bool {
        forall|x: int, y: int|
            self.in_bounds(x, y) && !self.at(x, y).is_mine() ==> self.at(x, y).kind
                == TileKind::of_count(#[trigger] self.mines_around(x, y))
    }

    /// Around a revealed empty tile every tile is revealed.
    pub open spec fn flood_closed(self) -> bool {
        forall|x: int, y: int, u: int, v: int|
            self.in_bounds(x, y) && self.in_bounds(u, v) && adjacent(u, v, x, y) && (
            #[trigger] self.at(x, y)).revealed && self.at(x, y).kind == TileKind::Empty ==> (
            #[trigger] self.at(u, v)).revealed
    }

    /// The size is in range, there is a mine to lay, and the mines leave
    /// room for a safe block of nine tiles.
    pub open spec fn sized(self) -> bool {
        &&& 0 < self.width <= MAX_SIDE
        &&& 0 < self.height <= MAX_SIDE
        &&& self.tiles.len() == self.width * self.height
        &&& 0 < self.mines
        &&& self.mines + 9 <= self.width * self.height
    }

    /// What holds of every board between two operations.
    pub open spec fn wf(self) -> bool {
        &&& self.sized()
        &&& forall|i: int| 0 <= i < self.tiles.len() ==> (#[trigger] self.tiles[i]).valid()
        &&& self.laid == count_true(self.mine_flags())
        &&& self.laid <= self.mines
        &&& self.laid < self.mines ==> self.all_covered()
        &&& self.safe_remaining + self.mines == count_true(self.hidden_safe_flags()) + self.laid
        &&& self.numbers_match()
        &&& self.flood_closed()
    }

    /// The board before the game starts: of the preset's size, without a
    /// mine, every tile covered and unflagged.
    pub open spec fn fresh(preset: Preset) -> BoardView {
        BoardView {
            width: preset.spec_width() as nat,
            height: preset.spec_height() as nat,
            mines: preset.spec_mines() as nat,
            laid: 0,
            safe_remaining: (preset.spec_width() * preset.spec_height()
                - preset.spec_mines()) as nat,
            tiles: Seq::new(
                (preset.spec_width() * preset.spec_height()) as nat,
                |i: int| TileState { revealed: false, flagged: false, kind: TileKind::Empty },
            ),
        }
    }

    /// A fresh board is well formed.
    pub proof fn lemma_fresh_wf(preset: Preset)
        ensures
            BoardView::fresh(preset).wf(),
            BoardView::fresh(preset).laid == 0,
    {
        let v = BoardView::fresh(preset);
        assert(v.sized());
        assert forall|j: int| 0 <= j < v.mine_flags().len() implies !v.mine_flags()[j] by {}
        lemma_count_zero(v.mine_flags());
        assert forall|j: int| 0 <= j < v.hidden_safe_flags().len() implies v.hidden_safe_flags()[j]
        by {}
        lemma_count_all(v.hidden_safe_flags());
        assert forall|x: int, y: int| v.in_bounds(x, y) implies !(#[trigger] v.at(x, y)).is_mine()
            && !v.at(x, y).revealed && v.at(x, y).kind == TileKind::Empty by {
            lemma_cell_index_bounds(v.width as int, v.height as int, x, y);
        }
        assert(v.numbers_match()) by {
            assert forall|x: int, y: int| v.in_bounds(x, y) && !v.at(x, y).is_mine() implies v.at(
                x,
                y,
            ).kind == TileKind::of_count(#[trigger] v.mines_around(x, y)) by {
                assert(!v.mine_at(x - 1, y - 1) && !v.mine_at(x, y - 1));
                assert(!v.mine_at(x + 1, y - 1) && !v.mine_at(x - 1, y));
                assert(!v.mine_at(x + 1, y) && !v.mine_at(x - 1, y + 1));
                assert(!v.mine_at(x, y + 1) && !v.mine_at(x + 1, y + 1));
            }
        }
    }

    /// Some tile with a mine under it is revealed.
    pub open spec fn mine_shown(self) -> bool {
        exists|i: int|
            0 <= i < self.tiles.len() && (#[trigger] self.tiles[i]).is_mine()
                && self.tiles[i].revealed
    }

    /// The board with another tile at `(x, y)`.
    pub open spec fn with_tile(self, x: int, y: int, t: TileState) -> BoardView {
        BoardView { tiles: self.tiles.update(cell_index(self.width as int, x, y), t), ..self }
    }

    /// The board after the flag at `(x, y)` was toggled: a covered tile has
    /// its flag flipped, a revealed one stays as it is.
    pub open spec fn toggle_flag(self, x: int, y: int) -> BoardView {
        if self.at(x, y).revealed {
            self
        } else {
            self.with_tile(x, y, self.at(x, y).flag_toggled())
        }
    }

    /// The board after a mine was laid at `(x, y)`: that tile holds a mine,
    /// each tile around it counts one mine more, and nothing else changes.
    pub open spec fn lay_mine(self, x: int, y: int) -> BoardView {
        BoardView {
            laid: self.laid + 1,
            tiles: Seq::new(
                self.tiles.len(),
                |i: int|
                    {
                        let u = i % (self.width as int);
                        let v = i / (self.width as int);
                        if u == x && v == y {
                            self.tiles[i].with_kind(TileKind::Mine)
                        } else if adjacent(u, v, x, y) {
                            self.tiles[i].with_kind(self.tiles[i].kind.bumped())
                        } else {
                            self.tiles[i]
                        }
                    },
            ),
            ..self
        }
    }

    /// A mine-free cell beside `(x, y)` counts at most seven mines around it
    /// as long as `(x, y)` itself holds none.
    pub proof fn lemma_one_fewer_around(self, u: int, v: int, x: int, y: int)
        requires
            self.wf(),
            self.in_bounds(u, v),
            self.in_bounds(x, y),
            adjacent(u, v, x, y),
            !self.at(x, y).is_mine(),
        ensures
            0 <= self.mines_around(u, v) <= 7,
            !self.at(u, v).is_mine() ==> self.at(u, v).kind == TileKind::of_count(
                self.mines_around(u, v),
            ) && self.at(u, v).kind != TileKind::Numbered(8),
    {
        assert(!self.mine_at(x, y));
        assert(x == u - 1 || x == u || x == u + 1);
        assert(y == v - 1 || y == v || y == v + 1);
    }

    /// What laying a mine at `(x, y)` does to each cell of the board.
    pub proof fn lemma_lay_mine_at(self, x: int, y: int)
        requires
            self.sized(),
            self.in_bounds(x, y),
        ensures
            self.lay_mine(x, y).sized(),
            forall|u: int, v: int|
                self.in_bounds(u, v) ==> #[trigger] self.lay_mine(x, y).at(u, v) == (if u == x && v
                    == y {
                    self.at(u, v).with_kind(TileKind::Mine)
                } else if adjacent(u, v, x, y) {
                    self.at(u, v).with_kind(self.at(u, v).kind.bumped())
                } else {
                    self.at(u, v)
                }),
    {
        let after = self.lay_mine(x, y);
        let w = self.width as int;
        self.lemma_tiles_at();
        assert forall|u: int, v: int| self.in_bounds(u, v) implies #[trigger] after.at(u, v) == (
        if u == x && v == y {
            self.at(u, v).with_kind(TileKind::Mine)
        } else if adjacent(u, v, x, y) {
            self.at(u, v).with_kind(self.at(u, v).kind.bumped())
        } else {
            self.at(u, v)
        }) by {
            let i = cell_index(w, u, v);
            assert(after.at(u, v) == after.tiles[i]);
        }
    }

    /// After a mine was laid at `(x, y)`, the cells with a mine are that
    /// cell and those that held one before.
    pub proof fn lemma_lay_mine_mine_at(self, x: int, y: int, a: int, b: int)
        requires
            self.sized(),
            self.in_bounds(x, y),
        ensures
            self.lay_mine(x, y).mine_at(a, b) == (self.mine_at(a, b) || (a == x && b == y)),
    {
        self.lemma_lay_mine_at(x, y);
        if self.in_bounds(a, b) {
            assert(self.lay_mine(x, y).at(a, b).is_mine() == (self.at(a, b).is_mine() || (a == x
                && b == y)));
        }
    }

    /// A mine laid on a mine-free cell adds one to the count of each cell
    /// around it and nothing to any other.
    pub proof fn lemma_lay_mine_around(self, x: int, y: int, u: int, v: int)
        requires
            self.sized(),
            self.in_bounds(x, y),
            !self.at(x, y).is_mine(),
        ensures
            self.lay_mine(x, y).mines_around(u, v) == self.mines_around(u, v) + unit(
                adjacent(u, v, x, y),
            ),
    {
        self.lemma_lay_mine_mine_at(x, y, u - 1, v - 1);
        self.lemma_lay_mine_mine_at(x, y, u, v - 1);
        self.lemma_lay_mine_mine_at(x, y, u + 1, v - 1);
        self.lemma_lay_mine_mine_at(x, y, u - 1, v);
        self.lemma_lay_mine_mine_at(x, y, u + 1, v);
        self.lemma_lay_mine_mine_at(x, y, u - 1, v + 1);
        self.lemma_lay_mine_mine_at(x, y, u, v + 1);
        self.lemma_lay_mine_mine_at(x, y, u + 1, v + 1);
    }

    /// Laying a mine changes neither of the two counts but by the tile
    /// that gets the mine.
    pub proof fn lemma_lay_mine_counts(self, x: int, y: int)
        requires
            self.sized(),
            self.in_bounds(x, y),
            !self.at(x, y).is_mine(),
            !self.at(x, y).revealed,
        ensures
            count_true(self.lay_mine(x, y).mine_flags()) == count_true(self.mine_flags()) + 1,
            count_true(self.lay_mine(x, y).hidden_safe_flags()) + 1 == count_true(
                self.hidden_safe_flags(),
            ),
    {
        let after = self.lay_mine(x, y);
        let mined = self.with_tile(x, y, self.at(x, y).with_kind(TileKind::Mine));
        self.lemma_tiles_at();
        self.lemma_with_tile_counts(x, y, self.at(x, y).with_kind(TileKind::Mine));
        assert forall|j: int| 0 <= j < after.tiles.len() implies after.tiles[j].is_mine()
            == mined.tiles[j].is_mine() && after.tiles[j].revealed == mined.tiles[j].revealed by {
            lemma_index_cell(self.width as int, self.height as int, j);
        }
        assert(after.mine_flags() =~= mined.mine_flags());
        assert(after.hidden_safe_flags() =~= mined.hidden_safe_flags());
    }

    /// Laying a mine on a mine-free cell of a board that still lacks mines
    /// leaves the board well formed.
    pub proof fn lemma_lay_mine_wf(self, x: int, y: int)
        requires
            self.wf(),
            self.in_bounds(x, y),
            !self.at(x, y).is_mine(),
            self.laid < self.mines,
        ensures
            self.lay_mine(x, y).wf(),
    {
        let after = self.lay_mine(x, y);
        let w = self.width as int;
        self.lemma_tiles_at();
        self.lemma_lay_mine_at(x, y);
        assert(!self.at(x, y).revealed) by {
            assert(!self.tiles[cell_index(w, x, y)].revealed);
        }
        self.lemma_lay_mine_counts(x, y);
        assert forall|i: int| 0 <= i < after.tiles.len() implies (#[trigger] after.tiles[i]).valid()
            && !after.tiles[i].revealed by {
            let u = i % w;
            let v = i / w;
            assert(self.tiles[i].valid());
            assert(!self.tiles[i].revealed);
            assert(self.tiles[i] == self.at(u, v));
            if adjacent(u, v, x, y) {
                self.lemma_one_fewer_around(u, v, x, y);
            }
        }
        assert(after.numbers_match()) by {
            assert forall|u: int, v: int|
                after.in_bounds(u, v) && !after.at(u, v).is_mine() implies after.at(u, v).kind
                == TileKind::of_count(#[trigger] after.mines_around(u, v)) by {
                self.lemma_lay_mine_around(x, y, u, v);
                let n = self.mines_around(u, v);
                assert(!self.at(u, v).is_mine());
                assert(self.at(u, v).kind == TileKind::of_count(n));
                if adjacent(u, v, x, y) {
                    self.lemma_one_fewer_around(u, v, x, y);
                    assert(after.at(u, v).kind == self.at(u, v).kind.bumped());
                    assert(TileKind::of_count(n).bumped() == TileKind::of_count(n + 1));
                } else {
                    assert(after.at(u, v).kind == self.at(u, v).kind);
                }
            }
        }
        assert(after.flood_closed()) by {
            after.lemma_tiles_at();
            assert forall|a: int, b: int| after.in_bounds(a, b) implies !(#[trigger] after.at(
                a,
                b,
            )).revealed by {
                assert(!after.tiles[cell_index(w, a, b)].revealed);
            }
        }
    }

    /// Each stored tile is the tile of the cell that its index stands for.
    pub proof fn lemma_tiles_at(self)
        requires
            self.sized(),
        ensures
            forall|i: int|
                0 <= i < self.tiles.len() ==> self.in_bounds(
                    i % (self.width as int),
                    i / (self.width as int),
                ) && #[trigger] self.tiles[i] == self.at(
                    i % (self.width as int),
                    i / (self.width as int),
                ),
            forall|x: int, y: int|
                self.in_bounds(x, y) ==> 0 <= #[trigger] cell_index(self.width as int, x, y)
                    < self.tiles.len() && cell_index(self.width as int, x, y) % (self.width as int)
                    == x && cell_index(self.width as int, x, y) / (self.width as int) == y,
    {
        let w = self.width as int;
        let h = self.height as int;
        assert forall|i: int| 0 <= i < self.tiles.len() implies self.in_bounds(i % w, i / w)
            && #[trigger] self.tiles[i] == self.at(i % w, i / w) by {
            lemma_index_cell(w, h, i);
        }
        assert forall|x: int, y: int| self.in_bounds(x, y) implies 0 <= #[trigger] cell_index(
            w,
            x,
            y,
        ) < self.tiles.len() && cell_index(w, x, y) % w == x && cell_index(w, x, y) / w == y by {
            lemma_cell_index_bounds(w, h, x, y);
            let i = cell_index(w, x, y);
            lemma_index_cell(w, h, i);
            lemma_cell_index_injective(w, i % w, i / w, x, y);
        }
    }

    /// Toggling a flag leaves the board well formed, and changes neither
    /// what lies under a tile nor which tiles are revealed.
    pub proof fn lemma_toggle_flag_wf(self, x: int, y: int)
        requires
            self.wf(),
            self.in_bounds(x, y),
        ensures
            self.toggle_flag(x, y).wf(),
            self.toggle_flag(x, y).mine_shown() == self.mine_shown(),
            self.toggle_flag(x, y).tiles.len() == self.tiles.len(),
            forall|i: int|
                0 <= i < self.tiles.len() ==> (#[trigger] self.toggle_flag(x, y).tiles[i]).kind
                    == self.tiles[i].kind && self.toggle_flag(x, y).tiles[i].revealed
                    == self.tiles[i].revealed,
    {
        let after = self.toggle_flag(x, y);
        if !self.at(x, y).revealed {
            let t = self.at(x, y).flag_toggled();
            self.lemma_with_tile(x, y, t);
            self.lemma_with_tile_counts(x, y, t);
            let i = cell_index(self.width as int, x, y);
            lemma_cell_index_bounds(self.width as int, self.height as int, x, y);
            assert forall|j: int| 0 <= j < after.tiles.len() implies (
            #[trigger] after.tiles[j]).valid() && after.tiles[j].revealed == self.tiles[j].revealed
                && after.tiles[j].kind == self.tiles[j].kind by {
                assert(self.tiles[j].valid());
            }
            assert forall|u: int, v: int| after.in_bounds(u, v) implies (#[trigger] after.at(
                u,
                v,
            )).kind == self.at(u, v).kind && after.at(u, v).revealed == self.at(u, v).revealed by {}
            assert forall|u: int, v: int| after.mine_at(u, v) == self.mine_at(u, v) by {}
            assert(after.numbers_match()) by {
                assert forall|u: int, v: int|
                    after.in_bounds(u, v) && !after.at(u, v).is_mine() implies after.at(u, v).kind
                    == TileKind::of_count(#[trigger] after.mines_around(u, v)) by {
                    assert(after.mines_around(u, v) == self.mines_around(u, v));
                }
            }
            assert(after.flood_closed()) by {
                assert forall|a: int, b: int, u: int, v: int|
                    after.in_bounds(a, b) && after.in_bounds(u, v) && adjacent(u, v, a, b) && (
                    #[trigger] after.at(a, b)).revealed && after.at(a, b).kind
                        == TileKind::Empty implies (#[trigger] after.at(u, v)).revealed by {
                    assert(self.at(a, b).revealed);
                    assert(self.at(u, v).revealed);
                }
            }
            if self.mine_shown() {
                let j = choose|j: int|
                    0 <= j < self.tiles.len() && (#[trigger] self.tiles[j]).is_mine()
                        && self.tiles[j].revealed;
                assert(after.tiles[j].is_mine() && after.tiles[j].revealed);
            }
            if after.mine_shown() {
                let j = choose|j: int|
                    0 <= j < after.tiles.len() && (#[trigger] after.tiles[j]).is_mine()
                        && after.tiles[j].revealed;
                assert(self.tiles[j].is_mine() && self.tiles[j].revealed);
            }
        }
    }

    /// Toggling the same flag twice gives the board back.
    pub proof fn lemma_toggle_flag_twice(self, x: int, y: int)
        requires
            self.sized(),
            self.in_bounds(x, y),
        ensures
            self.toggle_flag(x, y).toggle_flag(x, y) == self,
    {
        let once = self.toggle_flag(x, y);
        let twice = once.toggle_flag(x, y);
        lemma_cell_index_bounds(self.width as int, self.height as int, x, y);
        assert(twice.tiles =~= self.tiles);
    }

    /// Replacing a tile changes that cell and no other.
    pub proof fn lemma_with_tile(self, x: int, y: int, t: TileState)
        requires
            self.sized(),
            self.in_bounds(x, y),
        ensures
            self.with_tile(x, y, t).sized(),
            self.with_tile(x, y, t).at(x, y) == t,
            forall|u: int, v: int|
                self.in_bounds(u, v) && !(u == x && v == y) ==> #[trigger] self.with_tile(
                    x,
                    y,
                    t,
                ).at(u, v) == self.at(u, v),
    {
        let w = self.width as int;
        let h = self.height as int;
        lemma_cell_index_bounds(w, h, x, y);
        assert forall|u: int, v: int| self.in_bounds(u, v) && !(u == x && v == y) implies
            #[trigger] self.with_tile(x, y, t).at(u, v) == self.at(u, v) by {
            lemma_cell_index_bounds(w, h, u, v);
            if cell_index(w, u, v) == cell_index(w, x, y) {
                lemma_cell_index_injective(w, u, v, x, y);
            }
        }
    }

    /// Replacing a tile changes the two counts by that tile alone.
    pub proof fn lemma_with_tile_counts(self, x: int, y: int, t: TileState)
        requires
            self.sized(),
            self.in_bounds(x, y),
        ensures
            count_true(self.with_tile(x, y, t).mine_flags()) + unit(self.at(x, y).is_mine())
                == count_true(self.mine_flags()) + unit(t.is_mine()),
            count_true(self.with_tile(x, y, t).hidden_safe_flags()) + unit(
                !self.at(x, y).is_mine() && !self.at(x, y).revealed,
            ) == count_true(self.hidden_safe_flags()) + unit(!t.is_mine() && !t.revealed),
    {
        let i = cell_index(self.width as int, x, y);
        lemma_cell_index_bounds(self.width as int, self.height as int, x, y);
        let after = self.with_tile(x, y, t);
        assert(after.mine_flags() =~= self.mine_flags().update(i, t.is_mine()));
        lemma_count_update(self.mine_flags(), i, t.is_mine());
        assert(after.hidden_safe_flags() =~= self.hidden_safe_flags().update(
            i,
            !t.is_mine() && !t.revealed,
        ));
        lemma_count_update(self.hidden_safe_flags(), i, !t.is_mine() && !t.revealed);
    }
}

/// The board.
pub struct Board {
    width: usize,
    height: usize,
    mines: usize,
    laid: usize,
    safe_remaining: usize,
    tiles: Vec<Tile>,
}

impl View for Board {
    type V = BoardView;

    closed spec fn view(&self) -> BoardView {
        BoardView {
            width: self.width as nat,
            height: self.height as nat,
            mines: self.mines as nat,
            laid: self.laid as nat,
            safe_remaining: self.safe_remaining as nat,
            tiles: Seq::new(self.tiles@.len(), |i: int| self.tiles@[i]@),
        }
    }
}

impl Board {
    /// The storage fits the size and every stored byte is a tile.
    pub closed spec fn stored(&self) -> bool {
        &&& 0 < self.width <= MAX_SIDE
        &&& 0 < self.height <= MAX_SIDE
        &&& self.tiles@.len() == self.width * self.height
        &&& forall|i: int| 0 <= i < self.tiles@.len() ==> (#[trigger] self.tiles@[i]).wf()
    }

    /// The board is well stored and its view is well formed.
    pub open spec fn wf(&self) -> bool {
        self.stored() && self@.wf()
    }

    /// A fresh board of the preset's size: no mine laid, every tile
    /// covered and unflagged.
    pub fn new(preset: Preset) -> (b: Board)
        ensures
            b.wf(),
            b@ == BoardView::fresh(preset),
    {
        let width: usize = preset.width();
        let height: usize = preset.height();
        let mines: usize = preset.mines();
        let cells: usize = width * height;
        let mut tiles: Vec<Tile> = Vec::new();
        let mut i: usize = 0;
        while i < cells
            invariant
                i <= cells,
                tiles@.len() == i,
                forall|j: int|
                    0 <= j < i ==> (#[trigger] tiles@[j]).wf() && tiles@[j]@ == (TileState {
                        revealed: false,
                        flagged: false,
                        kind: TileKind::Empty,
                    }),
            decreases cells - i,
        {
            tiles.push(Tile::new());
            i += 1;
        }
        let b = Board { width, height, mines, laid: 0, safe_remaining: cells - mines, tiles };
        proof {
            BoardView::lemma_fresh_wf(preset);
            assert(b@.tiles =~= BoardView::fresh(preset).tiles);
        }
        b
    }

    /// The number of columns.
    pub fn width(&self) -> (w: usize)
        ensures
            w == self@.width,
    {
        self.width
    }

    /// The number of rows.
    pub fn height(&self) -> (h: usize)
        ensures
            h == self@.height,
    {
        self.height
    }

    /// How many mines the board is to hold.
    pub fn mine_count(&self) -> (m: usize)
        ensures
            m == self@.mines,
    {
        self.mines
    }

    /// How many mines are laid so far.
    pub fn mines_laid(&self) -> (m: usize)
        ensures
            m == self@.laid,
    {
        self.laid
    }

    /// Whether all the mines are laid.
    pub fn is_placed(&self) -> (b: bool)
        ensures
            b == self@.is_placed(),
    {
        self.laid == self.mines
    }

    /// How many mine-free tiles are still covered.
    pub fn safe_remaining(&self) -> (n: usize)
        ensures
            n == self@.safe_remaining,
    {
        self.safe_remaining
    }

    /// The tile in column `x` of row `y`.
    pub fn tile(&self, x: usize, y: usize) -> (t: Tile)
        requires
            self.stored(),
            self@.in_bounds(x as int, y as int),
        ensures
            t.wf(),
            t@ == self@.at(x as int, y as int),
    {
        proof {
            lemma_area_bound(self.width as int, self.height as int);
            lemma_cell_index_bounds(self.width as int, self.height as int, x as int, y as int);
        }
        self.tiles[y * self.width + x]
    }

    /// Stores `t` in column `x` of row `y`.
    pub(crate) fn put_tile(&mut self, x: usize, y: usize, t: Tile)
        requires
            old(self).stored(),
            old(self)@.in_bounds(x as int, y as int),
            t.wf(),
        ensures
            final(self).stored(),
            final(self)@ == old(self)@.with_tile(x as int, y as int, t@),
    {
        proof {
            lemma_area_bound(self.width as int, self.height as int);
            lemma_cell_index_bounds(self.width as int, self.height as int, x as int, y as int);
        }
        let i: usize = y * self.width + x;
        self.tiles.set(i, t);
        assert(self@.tiles =~= old(self)@.with_tile(x as int, y as int, t@).tiles);
    }

    /// Counts one mine-free tile as uncovered.
    pub(crate) fn count_uncovered(&mut self)
        requires
            old(self).stored(),
            old(self)@.safe_remaining > 0,
        ensures
            final(self).stored(),
            final(self)@ == (BoardView {
                safe_remaining: (old(self)@.safe_remaining - 1) as nat,
                ..old(self)@
            }),
    {
        self.safe_remaining = self.safe_remaining - 1;
    }

    /// Counts one more mine as laid.
    pub(crate) fn count_laid(&mut self)
        requires
            old(self).stored(),
            old(self)@.laid < old(self)@.mines,
        ensures
            final(self).stored(),
            final(self)@ == (BoardView { laid: old(self)@.laid + 1, ..old(self)@ }),
    {
        self.laid = self.laid + 1;
    }

    /// Flips the flag on the tile at `(x, y)` if that tile is covered, and
    /// says whether it did. A revealed tile takes no flag.
    pub fn toggle_flag(&mut self, x: usize, y: usize) -> (flipped: bool)
        requires
            old(self).wf(),
            old(self)@.in_bounds(x as int, y as int),
        ensures
            final(self).wf(),
            final(self)@ == old(self)@.toggle_flag(x as int, y as int),
            flipped == !old(self)@.at(x as int, y as int).revealed,
    {
        let t = self.tile(x, y);
        if t.is_revealed() {
            return false;
        }
        proof {
            self@.lemma_toggle_flag_wf(x as int, y as int);
        }
        self.put_tile(x, y, t.flag_toggled());
        true
    }

    /// Lays a mine at `(x, y)` and counts it on every tile around.
    pub fn lay_mine(&mut self, x: usize, y: usize)
        requires
            old(self).wf(),
            old(self)@.in_bounds(x as int, y as int),
            !old(self)@.at(x as int, y as int).is_mine(),
            old(self)@.laid < old(self)@.mines,
        ensures
            final(self).wf(),
            final(self)@ == old(self)@.lay_mine(x as int, y as int),
    {
        let ghost before = self@;
        let ghost xi = x as int;
        let ghost yi = y as int;
        let t = self.tile(x, y);
        self.put_tile(x, y, t.mined());
        self.count_laid();
        let cells = neighbours(x, y, self.width, self.height);
        let mut k: usize = 0;
        proof {
            let mined = before.with_tile(xi, yi, t@.with_kind(TileKind::Mine));
            before.lemma_with_tile(xi, yi, t@.with_kind(TileKind::Mine));
            assert forall|u: int, v: int| before.in_bounds(u, v) implies #[trigger] self@.at(u, v)
                == while_laying(before, cells@, 0, xi, yi, u, v) by {
                assert(self@.at(u, v) == mined.at(u, v));
            }
        }
        while k < cells.len()
            invariant
                k <= cells.len(),
                before.wf(),
                before.in_bounds(xi, yi),
                !before.at(xi, yi).is_mine(),
                self.stored(),
                self@.sized(),
                self@.width == before.width,
                self@.height == before.height,
                self@.mines == before.mines,
                self@.laid == before.laid + 1,
                self@.safe_remaining == before.safe_remaining,
                forall|i: int|
                    0 <= i < cells.len() ==> before.in_bounds(
                        (#[trigger] cells[i]).0 as int,
                        cells[i].1 as int,
                    ) && adjacent(cells[i].0 as int, cells[i].1 as int, xi, yi),
                forall|i: int, j: int| 0 <= i < j < cells.len() ==> cells[i] != cells[j],
                forall|u: int, v: int|
                    before.in_bounds(u, v) ==> #[trigger] self@.at(u, v) == while_laying(
                        before,
                        cells@,
                        k as int,
                        xi,
                        yi,
                        u,
                        v,
                    ),
            decreases cells.len() - k,
        {
            let (u, v) = cells[k];
            let ghost ui = u as int;
            let ghost vi = v as int;
            let ghost mid = self@;
            let n = self.tile(u, v);
            proof {
                assert(cells[k as int] == (u, v));
                if listed(cells@, k as int, ui, vi) {
                    let j = choose|j: int| 0 <= j < k && cells@[j].0 == ui && cells@[j].1 == vi;
                    assert(cells[j] == cells[k as int]);
                }
                assert(n@ == before.at(ui, vi));
                before.lemma_one_fewer_around(ui, vi, xi, yi);
            }
            self.put_tile(u, v, n.bumped());
            proof {
                mid.lemma_with_tile(ui, vi, n@.with_kind(n@.kind.bumped()));
                assert forall|a: int, b: int| before.in_bounds(a, b) implies #[trigger] self@.at(
                    a,
                    b,
                ) == while_laying(before, cells@, k + 1, xi, yi, a, b) by {
                    if a == ui && b == vi {
                        assert(cells@[k as int].0 == a && cells@[k as int].1 == b);
                    } else {
                        assert(self@.at(a, b) == mid.at(a, b));
                        if listed(cells@, k as int, a, b) {
                            let j = choose|j: int|
                                0 <= j < k && cells@[j].0 == a && cells@[j].1 == b;
                            assert(0 <= j < k + 1 && cells@[j].0 == a && cells@[j].1 == b);
                        }
                        if listed(cells@, k + 1, a, b) {
                            let j = choose|j: int|
                                0 <= j < k + 1 && cells@[j].0 == a && cells@[j].1 == b;
                            assert(0 <= j < k && cells@[j].0 == a && cells@[j].1 == b);
                        }
                    }
                }
            }
            k += 1;
        }
        proof {
            let after = self@;
            let goal = before.lay_mine(xi, yi);
            let w = before.width as int;
            after.lemma_tiles_at();
            before.lemma_tiles_at();
            assert forall|i: int| 0 <= i < after.tiles.len() implies #[trigger] after.tiles[i]
                == goal.tiles[i] by {
                let a = i % w;
                let b = i / w;
                assert(after.tiles[i] == after.at(a, b));
                assert(before.tiles[i] == before.at(a, b));
                if adjacent(a, b, xi, yi) {
                    assert(cells@.contains((a as usize, b as usize)));
                    let j = choose|j: int|
                        0 <= j < cells@.len() && cells@[j] == (a as usize, b as usize);
                    assert(0 <= j < cells.len() && cells@[j].0 == a && cells@[j].1 == b);
                }
                if listed(cells@, cells.len() as int, a, b) {
                    let j = choose|j: int|
                        0 <= j < cells.len() && cells@[j].0 == a && cells@[j].1 == b;
                    assert(adjacent(cells[j].0 as int, cells[j].1 as int, xi, yi));
                }
            }
            assert(after.tiles =~= goal.tiles);
            before.lemma_lay_mine_wf(xi, yi);
        }
    }
}

/// The tile at `(u, v)` while a mine is laid at `(x, y)`, once the first
/// `k` cells of the list of cells around it have been counted up.
spec fn while_laying(
    before: BoardView,
    cells: Seq<(usize, usize)>,
    k: int,
    x: int,
    y: int,
    u: int,
    v: int,
) -> TileState {
    if u == x && v == y {
        before.at(u, v).with_kind(TileKind::Mine)
    } else if listed(cells, k, u, v) {
        before.at(u, v).with_kind(before.at(u, v).kind.bumped())
    } else {
        before.at(u, v)
    }
}

/// One of the first `k` cells of the list is `(u, v)`.
pub open spec fn listed(cells: Seq<(usize, usize)>, k: int, u: int, v: int) -> bool {
    exists|j: int| 0 <= j < k && #[trigger] cells[j].0 == u && cells[j].1 == v
}

} // verus!
