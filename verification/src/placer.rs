//! Laying the mines.
//!
//! Cells are proposed one after another. A proposed cell gets a mine
//! unless it lies in the safe zone, the block of three by three cells
//! around the first reveal, or holds a mine already. The first proposals
//! are drawn from the generator, two numbers for each cell. Drawing alone
//! would not always come to an end: a generator that stands still
//! proposes one cell for ever. So after `DRAW_LIMIT` draws the cells of
//! the board are proposed in turn, row by row, and placement always ends
//! with every mine laid.

use vstd::prelude::*;
use crate::board::{unit, Board, BoardView};
use crate::grid::{
    cell_index,
    count_true,
    in_grid,
    lemma_area_bound,
    lemma_cell_of_index,
    lemma_count_all,
    lemma_count_cover,
    lemma_count_disjoint,
    lemma_count_update,
    lemma_count_within,
    lemma_count_zero,
    lemma_index_cell,
    MAX_SIDE,
};
use crate::rng::{state_after, xorshift, Random};
use crate::tile::TileKind;

verus! {

/// How many cells are drawn from the generator before the cells of the
/// board are proposed in turn.
pub const DRAW_LIMIT: usize = 0x10000;

/// One run of the placement: a board size, a number of mines, the state
/// of the generator at the start, and the cell to keep clear.
pub struct Placement {
    /// Number of columns.
    pub width: nat,
    /// Number of rows.
    pub height: nat,
    /// How many mines are to be laid.
    pub mines: nat,
    /// The state of the generator before the first draw.
    pub seed: u32,
    /// The column of the cell to keep clear.
    pub ax: int,
    /// The row of the cell to keep clear.
    pub ay: int,
}

impl Placement {
    /// The size is that of a board and leaves room for the mines beside
    /// the safe zone.
    pub open spec fn sized(self) -> bool {
        &&& 0 < self.width <= MAX_SIDE
        &&& 0 < self.height <= MAX_SIDE
        &&& 0 < self.mines
        &&& self.mines + 9 <= self.width * self.height
    }

    /// The cell proposed in turn `k`, counted from 0.
    pub open spec fn candidate(self, k: nat) -> (int, int) {
        if k < DRAW_LIMIT {
            (
                state_after(self.seed, 2 * k) as int % (self.width as int),
                state_after(self.seed, 2 * k + 1) as int % (self.height as int),
            )
        } else {
            ((k - DRAW_LIMIT) % (self.width as int), (k - DRAW_LIMIT) / (self.width as int))
        }
    }

    /// `(x, y)` lies in the safe zone.
    pub open spec fn in_zone(self, x: int, y: int) -> bool {
        -1 <= x - self.ax <= 1 && -1 <= y - self.ay <= 1
    }

    /// `(x, y)` was proposed in one of the first `k` turns.
    pub open spec fn covers(self, k: nat, x: int, y: int) -> bool {
        exists|j: nat| j < k && #[trigger] self.candidate(j) == (x, y)
    }

    /// The cell proposed in turn `k` gets a mine: it lies on the board,
    /// outside the safe zone, and was not proposed before.
    pub open spec fn takes(self, k: nat) -> bool {
        let c = self.candidate(k);
        &&& in_grid(self.width as int, self.height as int, c.0, c.1)
        &&& !self.in_zone(c.0, c.1)
        &&& !self.covers(k, c.0, c.1)
    }

    /// How many mines the first `k` turns lay.
    pub open spec fn accepted(self, k: nat) -> nat
        decreases k,
    {
        if k == 0 {
            0
        } else {
            self.accepted((k - 1) as nat) + if self.takes((k - 1) as nat) {
                1nat
            } else {
                0nat
            }
        }
    }

    /// After `k` turns `(x, y)` holds a mine.
    pub open spec fn mine_at(self, k: nat, x: int, y: int) -> bool {
        &&& in_grid(self.width as int, self.height as int, x, y)
        &&& !self.in_zone(x, y)
        &&& self.covers(k, x, y)
    }

    /// After `k` turns, how many of the cells around `(x, y)` hold a mine.
    pub open spec fn mines_around(self, k: nat, x: int, y: int) -> int {
        unit(self.mine_at(k, x - 1, y - 1)) + unit(self.mine_at(k, x, y - 1)) + unit(
            self.mine_at(k, x + 1, y - 1),
        ) + unit(self.mine_at(k, x - 1, y)) + unit(self.mine_at(k, x + 1, y)) + unit(
            self.mine_at(k, x - 1, y + 1),
        ) + unit(self.mine_at(k, x, y + 1)) + unit(self.mine_at(k, x + 1, y + 1))
    }

    /// After `k` turns, what lies under `(x, y)`.
    pub open spec fn kind_at(self, k: nat, x: int, y: int) -> TileKind {
        if self.mine_at(k, x, y) {
            TileKind::Mine
        } else {
            TileKind::of_count(self.mines_around(k, x, y))
        }
    }

    /// Turn `k - 1` lays the last mine.
    pub open spec fn ends_at(self, k: nat) -> bool {
        &&& k >= 1
        &&& self.accepted(k) == self.mines
        &&& self.takes((k - 1) as nat)
    }

    /// The number of turns that the placement takes.
    pub open spec fn turns(self) -> nat {
        choose|k: nat| self.ends_at(k)
    }

    /// How many numbers the placement draws from the generator: two for
    /// each turn up to `DRAW_LIMIT`.
    pub open spec fn numbers_drawn(self) -> nat {
        if self.turns() < DRAW_LIMIT {
            2 * self.turns()
        } else {
            (2 * DRAW_LIMIT) as nat
        }
    }

    /// For each cell of the board, row by row, whether it holds a mine
    /// after `k` turns.
    pub open spec fn mine_flags(self, k: nat) -> Seq<bool> {
        Seq::new(
            self.width * self.height,
            |i: int| self.mine_at(k, i % (self.width as int), i / (self.width as int)),
        )
    }

    /// For each cell of the board, row by row, whether it lies in the safe
    /// zone.
    pub open spec fn zone_flags(self) -> Seq<bool> {
        Seq::new(
            self.width * self.height,
            |i: int| self.in_zone(i % (self.width as int), i / (self.width as int)),
        )
    }

    /// One more turn covers the cell it proposes and no other.
    pub proof fn lemma_covers_step(self, k: nat, x: int, y: int)
        ensures
            self.covers(k + 1, x, y) <==> self.covers(k, x, y) || self.candidate(k) == (x, y),
    {
        if self.covers(k + 1, x, y) {
            let j = choose|j: nat| j < k + 1 && #[trigger] self.candidate(j) == (x, y);
            if j < k {
                assert(self.covers(k, x, y));
            }
        }
        if self.covers(k, x, y) {
            let j = choose|j: nat| j < k && #[trigger] self.candidate(j) == (x, y);
            assert(j < k + 1 && self.candidate(j) == (x, y));
        }
        if self.candidate(k) == (x, y) {
            assert(k < k + 1 && self.candidate(k) == (x, y));
        }
    }

    /// Every cell proposed before the board has been gone through lies on
    /// the board.
    pub proof fn lemma_candidate_in_grid(self, k: nat)
        requires
            self.sized(),
            k < DRAW_LIMIT + self.width * self.height,
        ensures
            in_grid(
                self.width as int,
                self.height as int,
                self.candidate(k).0,
                self.candidate(k).1,
            ),
    {
        if k >= DRAW_LIMIT {
            lemma_index_cell(self.width as int, self.height as int, k - DRAW_LIMIT);
        }
    }

    /// Going through the board proposes every cell.
    pub proof fn lemma_scan_covers(self, x: int, y: int)
        requires
            self.sized(),
            in_grid(self.width as int, self.height as int, x, y),
        ensures
            self.covers((DRAW_LIMIT + self.width * self.height) as nat, x, y),
    {
        let w = self.width as int;
        let h = self.height as int;
        lemma_cell_of_index(w, h, x, y);
        let j = (DRAW_LIMIT + cell_index(w, x, y)) as nat;
        assert(self.candidate(j) == (x, y));
    }

    /// More turns lay no fewer mines.
    pub proof fn lemma_accepted_monotone(self, j: nat, k: nat)
        requires
            j <= k,
        ensures
            self.accepted(j) <= self.accepted(k),
        decreases k,
    {
        if j < k {
            self.lemma_accepted_monotone(j, (k - 1) as nat);
        }
    }

    /// The mines laid by `k` turns are as many as the cells that hold one.
    pub proof fn lemma_accepted_counts(self, k: nat)
        requires
            self.sized(),
        ensures
            self.accepted(k) == count_true(self.mine_flags(k)),
        decreases k,
    {
        let w = self.width as int;
        let h = self.height as int;
        if k == 0 {
            let none = self.mine_flags(0);
            assert forall|i: int| 0 <= i < none.len() implies !none[i] by {
                if self.mine_flags(0)[i] {
                    let j = choose|j: nat| j < 0 && #[trigger] self.candidate(j) == (i % w, i / w);
                }
            }
            lemma_count_zero(self.mine_flags(0));
        } else {
            let m = (k - 1) as nat;
            self.lemma_accepted_counts(m);
            let c = self.candidate(m);
            let before = self.mine_flags(m);
            let after = self.mine_flags(k);
            if self.takes(m) {
                lemma_cell_of_index(w, h, c.0, c.1);
                let at = cell_index(w, c.0, c.1);
                assert(after =~= before.update(at, true)) by {
                    assert forall|i: int| 0 <= i < after.len() implies after[i] == before.update(
                        at,
                        true,
                    )[i] by {
                        self.lemma_covers_step(m, i % w, i / w);
                        lemma_index_cell(w, h, i);
                    }
                }
                assert(!before[at]);
                lemma_count_update(before, at, true);
            } else {
                assert(after =~= before) by {
                    assert forall|i: int| 0 <= i < after.len() implies after[i] == before[i] by {
                        self.lemma_covers_step(m, i % w, i / w);
                        lemma_index_cell(w, h, i);
                    }
                }
            }
        }
    }

    /// At most nine cells lie in the safe zone.
    pub proof fn lemma_zone_count(self)
        requires
            self.sized(),
        ensures
            count_true(self.zone_flags()) <= 9,
    {
        let w = self.width as int;
        let h = self.height as int;
        let x = self.ax;
        let y = self.ay;
        let allowed = Set::<int>::empty().insert(cell_index(w, x - 1, y - 1)).insert(
            cell_index(w, x, y - 1),
        ).insert(cell_index(w, x + 1, y - 1)).insert(cell_index(w, x - 1, y)).insert(
            cell_index(w, x, y),
        ).insert(cell_index(w, x + 1, y)).insert(cell_index(w, x - 1, y + 1)).insert(
            cell_index(w, x, y + 1),
        ).insert(cell_index(w, x + 1, y + 1));
        assert(allowed.finite() && allowed.len() <= 9);
        let z = self.zone_flags();
        assert forall|i: int| 0 <= i < z.len() && z[i] implies allowed.contains(i) by {
            lemma_index_cell(w, h, i);
            let u = i % w;
            let v = i / w;
            assert(u == x - 1 || u == x || u == x + 1);
            assert(v == y - 1 || v == y || v == y + 1);
        }
        lemma_count_within(z, allowed);
    }

    /// Once the board has been gone through, all the mines are laid.
    pub proof fn lemma_scan_suffices(self)
        requires
            self.sized(),
        ensures
            self.accepted((DRAW_LIMIT + self.width * self.height) as nat) >= self.mines,
    {
        let w = self.width as int;
        let h = self.height as int;
        let all = (DRAW_LIMIT + self.width * self.height) as nat;
        let m = self.mine_flags(all);
        let z = self.zone_flags();
        assert forall|i: int| 0 <= i < m.len() implies m[i] || z[i] by {
            lemma_index_cell(w, h, i);
            self.lemma_scan_covers(i % w, i / w);
        }
        lemma_count_cover(m, z);
        self.lemma_zone_count();
        self.lemma_accepted_counts(all);
    }

    /// While mines are missing, the board has not been gone through yet.
    pub proof fn lemma_turn_in_range(self, k: nat)
        requires
            self.sized(),
            self.accepted(k) < self.mines,
        ensures
            k < DRAW_LIMIT + self.width * self.height,
    {
        let all = (DRAW_LIMIT + self.width * self.height) as nat;
        self.lemma_scan_suffices();
        if k >= all {
            self.lemma_accepted_monotone(all, k);
        }
    }

    /// Some turn among the first `k` lays the last mine, if `k` turns lay
    /// all the mines.
    pub proof fn lemma_end_within(self, k: nat)
        requires
            0 < self.mines,
            self.accepted(k) >= self.mines,
        ensures
            exists|j: nat| j <= k && self.ends_at(j),
        decreases k,
    {
        if k > 0 {
            let m = (k - 1) as nat;
            if self.accepted(m) >= self.mines {
                self.lemma_end_within(m);
                let j = choose|j: nat| j <= m && self.ends_at(j);
                assert(j <= k && self.ends_at(j));
            } else {
                assert(self.ends_at(k));
            }
        }
    }

    /// The placement comes to an end: the number of turns it takes is
    /// that of the turn that lays the last mine.
    pub proof fn lemma_placement_ends(self)
        requires
            self.sized(),
        ensures
            self.ends_at(self.turns()),
            self.turns() <= DRAW_LIMIT + self.width * self.height,
    {
        let all = (DRAW_LIMIT + self.width * self.height) as nat;
        self.lemma_scan_suffices();
        self.lemma_end_within(all);
        let j = choose|j: nat| j <= all && self.ends_at(j);
        self.lemma_turns(j);
    }

    /// Only one turn lays the last mine.
    pub proof fn lemma_end_unique(self, j: nat, k: nat)
        requires
            self.ends_at(j),
            self.ends_at(k),
        ensures
            j == k,
    {
        if j < k {
            self.lemma_accepted_monotone(j, (k - 1) as nat);
        } else if k < j {
            self.lemma_accepted_monotone(k, (j - 1) as nat);
        }
    }

    /// The turn that lays the last mine is the number of turns taken.
    pub proof fn lemma_turns(self, k: nat)
        requires
            self.ends_at(k),
        ensures
            self.turns() == k,
    {
        self.lemma_end_unique(self.turns(), k);
    }
}

impl BoardView {
    /// The placement that lays this board's mines, with the generator in
    /// state `seed` and `(ax, ay)` to keep clear.
    pub open spec fn placement(self, seed: u32, ax: int, ay: int) -> Placement {
        Placement { width: self.width, height: self.height, mines: self.mines, seed, ax, ay }
    }

    /// The board with all its mines laid: each tile keeps its flag and
    /// gets the kind that the placement gives its cell.
    pub open spec fn placed(self, seed: u32, ax: int, ay: int) -> BoardView {
        let p = self.placement(seed, ax, ay);
        BoardView {
            laid: self.mines,
            tiles: Seq::new(
                self.tiles.len(),
                |i: int|
                    self.tiles[i].with_kind(
                        p.kind_at(p.turns(), i % (self.width as int), i / (self.width as int)),
                    ),
            ),
            ..self
        }
    }
}

impl BoardView {
    /// What the placement puts under each cell of the board.
    pub proof fn lemma_placed_at(self, seed: u32, ax: int, ay: int)
        requires
            self.sized(),
        ensures
            self.placed(seed, ax, ay).sized(),
            forall|x: int, y: int|
                self.in_bounds(x, y) ==> #[trigger] self.placed(seed, ax, ay).at(x, y) == self.at(
                    x,
                    y,
                ).with_kind(
                    self.placement(seed, ax, ay).kind_at(
                        self.placement(seed, ax, ay).turns(),
                        x,
                        y,
                    ),
                ),
    {
        let after = self.placed(seed, ax, ay);
        let p = self.placement(seed, ax, ay);
        self.lemma_tiles_at();
        assert forall|x: int, y: int| self.in_bounds(x, y) implies #[trigger] after.at(x, y)
            == self.at(x, y).with_kind(p.kind_at(p.turns(), x, y)) by {
            let i = cell_index(self.width as int, x, y);
            assert(after.at(x, y) == after.tiles[i]);
        }
    }

    /// After the placement a board that held no mine is well formed and
    /// holds exactly its number of mines; the cell to keep clear and the
    /// cells around it hold none, so that the tile on that cell is empty.
    pub proof fn lemma_placed_wf(self, seed: u32, ax: int, ay: int)
        requires
            self.wf(),
            self.laid == 0,
            self.in_bounds(ax, ay),
        ensures
            self.placed(seed, ax, ay).wf(),
            self.placed(seed, ax, ay).is_placed(),
            count_true(self.placed(seed, ax, ay).mine_flags()) == self.mines,
            forall|x: int, y: int|
                self.in_bounds(x, y) && -1 <= x - ax <= 1 && -1 <= y - ay <= 1 ==> !(
                #[trigger] self.placed(seed, ax, ay).at(x, y)).is_mine(),
            self.placed(seed, ax, ay).at(ax, ay).kind == TileKind::Empty,
            self.placed(seed, ax, ay).at(ax, ay).revealed == self.at(ax, ay).revealed,
            self.placed(seed, ax, ay).at(ax, ay).flagged == self.at(ax, ay).flagged,
    {
        let after = self.placed(seed, ax, ay);
        let p = self.placement(seed, ax, ay);
        let n = p.turns();
        let w = self.width as int;
        let h = self.height as int;
        p.lemma_placement_ends();
        p.lemma_accepted_counts(n);
        self.lemma_tiles_at();
        self.lemma_placed_at(seed, ax, ay);
        after.lemma_tiles_at();
        assert forall|i: int| 0 <= i < after.tiles.len() implies (#[trigger] after.tiles[i]).valid()
            && !after.tiles[i].revealed && after.tiles[i].is_mine() == p.mine_at(
            n,
            i % w,
            i / w,
        ) by {
            assert(self.tiles[i].valid());
            assert(!self.tiles[i].revealed);
        }
        assert(after.mine_flags() =~= p.mine_flags(n));
        // every tile is covered, so the safe ones are those without a mine
        lemma_count_zero(self.mine_flags());
        assert forall|i: int| 0 <= i < self.tiles.len() implies self.hidden_safe_flags()[i] by {
            assert(!self.mine_flags()[i]);
            assert(!self.tiles[i].revealed);
        }
        lemma_count_all(self.hidden_safe_flags());
        lemma_count_disjoint(after.mine_flags(), after.hidden_safe_flags());
        lemma_count_cover(after.mine_flags(), after.hidden_safe_flags());
        assert forall|a: int, b: int| after.mine_at(a, b) == p.mine_at(n, a, b) by {
            if self.in_bounds(a, b) {
                assert(after.at(a, b).is_mine() == p.mine_at(n, a, b));
            }
        }
        assert(after.numbers_match()) by {
            assert forall|x: int, y: int|
                after.in_bounds(x, y) && !after.at(x, y).is_mine() implies after.at(x, y).kind
                == TileKind::of_count(#[trigger] after.mines_around(x, y)) by {
                assert(after.mines_around(x, y) == p.mines_around(n, x, y));
                assert(after.at(x, y).kind == p.kind_at(n, x, y));
            }
        }
        assert(after.flood_closed()) by {
            assert forall|a: int, b: int| after.in_bounds(a, b) implies !(#[trigger] after.at(
                a,
                b,
            )).revealed by {
                assert(!after.tiles[cell_index(w, a, b)].revealed);
            }
        }
        assert(after.at(ax, ay).kind == TileKind::Empty) by {
            assert(p.mines_around(n, ax, ay) == 0);
            assert(!p.mine_at(n, ax, ay));
        }
    }
}

impl Board {
    /// Lays all the mines of a board that holds none yet, keeping clear the
    /// cell `(avoid_x, avoid_y)` and the cells around it, and returns the
    /// number of cells that were proposed.
    ///
    /// Afterwards the board holds exactly its number of mines, none of
    /// them in the safe zone, and every other tile shows how many mines
    /// lie around it. Flags stay where they are.
    pub fn place_mines(
        &mut self,
        rng: &mut Random,
        avoid_x: usize,
        avoid_y: usize,
    ) -> (turns: usize)
        requires
            old(self).wf(),
            old(self)@.laid == 0,
            old(self)@.in_bounds(avoid_x as int, avoid_y as int),
        ensures
            final(self).wf(),
            final(self)@.is_placed(),
            count_true(final(self)@.mine_flags()) == final(self)@.mines,
            final(self)@.numbers_match(),
            forall|x: int, y: int|
                final(self)@.in_bounds(x, y) && -1 <= x - avoid_x <= 1 && -1 <= y - avoid_y <= 1
                    ==> !(#[trigger] final(self)@.at(x, y)).is_mine(),
            final(self)@ == old(self)@.placed(old(rng)@, avoid_x as int, avoid_y as int),
            turns == old(self)@.placement(old(rng)@, avoid_x as int, avoid_y as int).turns(),
            final(rng)@ == state_after(
                old(rng)@,
                old(self)@.placement(old(rng)@, avoid_x as int, avoid_y as int).numbers_drawn(),
            ),
    {
        let ghost before = self@;
        let ghost p = before.placement(rng@, avoid_x as int, avoid_y as int);
        let width = self.width();
        let height = self.height();
        let mines = self.mine_count();
        let mut k: usize = 0;
        proof {
            lemma_area_bound(width as int, height as int);
            lemma_count_zero(before.mine_flags());
            before.lemma_tiles_at();
            assert forall|x: int, y: int| before.in_bounds(x, y) implies (#[trigger] self@.at(
                x,
                y,
            )).is_mine() == p.mine_at(0, x, y) by {
                let i = cell_index(before.width as int, x, y);
                assert(!before.mine_flags()[i]);
                if p.covers(0, x, y) {
                    let j = choose|j: nat| j < 0 && #[trigger] p.candidate(j) == (x, y);
                }
            }
        }
        while self.mines_laid() < mines
            invariant
                before.wf(),
                p == before.placement(p.seed, avoid_x as int, avoid_y as int),
                p.sized(),
                self.wf(),
                self@.width == before.width,
                self@.height == before.height,
                self@.mines == before.mines,
                self@.safe_remaining == before.safe_remaining,
                width == before.width,
                height == before.height,
                mines == before.mines,
                before.in_bounds(avoid_x as int, avoid_y as int),
                width * height <= 0x10000,
                k <= DRAW_LIMIT + width * height,
                self@.laid == p.accepted(k as nat),
                self@.laid == self@.mines ==> p.ends_at(k as nat),
                rng@ == state_after(
                    p.seed,
                    if k < DRAW_LIMIT {
                        (2 * k) as nat
                    } else {
                        (2 * DRAW_LIMIT) as nat
                    },
                ),
                forall|x: int, y: int|
                    before.in_bounds(x, y) ==> (#[trigger] self@.at(x, y)).is_mine() == p.mine_at(
                        k as nat,
                        x,
                        y,
                    ) && self@.at(x, y).revealed == before.at(x, y).revealed && self@.at(
                        x,
                        y,
                    ).flagged == before.at(x, y).flagged,
            decreases DRAW_LIMIT + width * height - k,
        {
            proof {
                p.lemma_turn_in_range(k as nat);
                p.lemma_candidate_in_grid(k as nat);
            }
            let ghost mid = self@;
            let x: usize;
            let y: usize;
            if k < DRAW_LIMIT {
                let a: u32 = rng.next();
                let b: u32 = rng.next();
                x = (a as usize) % width;
                y = (b as usize) % height;
                proof {
                    reveal_with_fuel(state_after, 3);
                    assert(state_after(p.seed, (2 * k + 1) as nat) == xorshift(
                        state_after(p.seed, (2 * k) as nat),
                    ));
                    assert(state_after(p.seed, (2 * k + 2) as nat) == xorshift(
                        state_after(p.seed, (2 * k + 1) as nat),
                    ));
                }
            } else {
                let i: usize = k - DRAW_LIMIT;
                x = i % width;
                y = i / width;
            }
            assert(p.candidate(k as nat) == (x as int, y as int));
            let in_zone: bool = x + 1 >= avoid_x && x <= avoid_x + 1 && y + 1 >= avoid_y && y
                <= avoid_y + 1;
            assert(in_zone == p.in_zone(x as int, y as int));
            let t = self.tile(x, y);
            if !in_zone && !t.is_mine() {
                self.lay_mine(x, y);
                proof {
                    mid.lemma_lay_mine_at(x as int, y as int);
                }
            }
            proof {
                let xi = x as int;
                let yi = y as int;
                let cur = self@;
                assert(mid.at(xi, yi).is_mine() == p.mine_at(k as nat, xi, yi));
                assert forall|u: int, v: int| before.in_bounds(u, v) implies (#[trigger] cur.at(
                    u,
                    v,
                )).is_mine() == p.mine_at((k + 1) as nat, u, v) && cur.at(u, v).revealed
                    == before.at(u, v).revealed && cur.at(u, v).flagged == before.at(
                    u,
                    v,
                ).flagged by {
                    p.lemma_covers_step(k as nat, u, v);
                    assert(mid.at(u, v).is_mine() == p.mine_at(k as nat, u, v));
                }
            }
            k += 1;
        }
        proof {
            let cur = self@;
            let n = k as nat;
            p.lemma_turns(n);
            let goal = before.placed(p.seed, avoid_x as int, avoid_y as int);
            let w = before.width as int;
            cur.lemma_tiles_at();
            before.lemma_tiles_at();
            assert forall|a: int, b: int| cur.mine_at(a, b) == p.mine_at(n, a, b) by {
                if cur.in_bounds(a, b) {
                    assert(cur.at(a, b).is_mine() == p.mine_at(n, a, b));
                }
            }
            assert forall|i: int| 0 <= i < cur.tiles.len() implies #[trigger] cur.tiles[i]
                == goal.tiles[i] by {
                let a = i % w;
                let b = i / w;
                assert(cur.tiles[i] == cur.at(a, b));
                assert(before.tiles[i] == before.at(a, b));
                assert(cur.at(a, b).is_mine() == p.mine_at(n, a, b));
                assert(cur.mines_around(a, b) == p.mines_around(n, a, b));
            }
            assert(cur.tiles =~= goal.tiles);
            assert(cur =~= goal);
        }
        k
    }
}

} // verus!
