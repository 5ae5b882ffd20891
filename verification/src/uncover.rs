//! Uncovering tiles: one tile, or a whole region by flood fill.
//!
//! A flood starts on an empty tile and spreads through empty tiles. What
//! it uncovers does not depend on the order of the work: it is the
//! cells that a walk from the start can reach while leaving only empty
//! tiles behind.

use vstd::prelude::*;
use crate::board::{listed, Board, BoardView};
use crate::grid::{adjacent, cell_index, count_true, neighbours};
use crate::tile::{TileKind, TileState};

verus! {

/// What a reveal did.
#[derive(Clone, Copy, PartialEq, Eq, Debug, Structural)]
pub enum RevealOutcome {
    /// This many mine-free tiles were uncovered; none if the tile was
    /// revealed or flagged already.
    RevealedSet(usize),
    /// The tile held a mine. It is uncovered now.
    HitMine,
}

impl BoardView {
    /// `p` is a walk over the board that starts at `(sx, sy)`, goes from
    /// each cell to one that touches it, and has an empty tile under
    /// every cell but the last.
    pub open spec fn flood_walk(self, p: Seq<(int, int)>, sx: int, sy: int) -> bool
        decreases p.len(),
    {
        if p.len() == 0 {
            false
        } else if p.len() == 1 {
            p[0] == (sx, sy) && self.in_bounds(sx, sy)
        } else {
            let q = p.drop_last();
            &&& self.flood_walk(q, sx, sy)
            &&& self.at(q.last().0, q.last().1).kind == TileKind::Empty
            &&& self.in_bounds(p.last().0, p.last().1)
            &&& adjacent(p.last().0, p.last().1, q.last().0, q.last().1)
        }
    }

    /// A flood from `(sx, sy)` reaches `(x, y)`.
    pub open spec fn floods_to(self, sx: int, sy: int, x: int, y: int) -> bool {
        exists|p: Seq<(int, int)>| #[trigger] self.flood_walk(p, sx, sy) && p.last() == (x, y)
    }

    /// For each tile, whether a flood from `(sx, sy)` uncovers it: it is
    /// covered and the flood reaches it.
    pub open spec fn gained(self, sx: int, sy: int) -> Seq<bool> {
        Seq::new(
            self.tiles.len(),
            |i: int|
                !self.tiles[i].revealed && self.floods_to(
                    sx,
                    sy,
                    i % (self.width as int),
                    i / (self.width as int),
                ),
        )
    }

    /// The board after a flood from `(sx, sy)`.
    pub open spec fn flood(self, sx: int, sy: int) -> BoardView {
        BoardView {
            safe_remaining: (self.safe_remaining - count_true(self.gained(sx, sy))) as nat,
            tiles: Seq::new(
                self.tiles.len(),
                |i: int|
                    if self.gained(sx, sy)[i] {
                        self.tiles[i].uncovered()
                    } else {
                        self.tiles[i]
                    },
            ),
            ..self
        }
    }

    /// The board after a reveal at `(x, y)`. A revealed or flagged tile
    /// stays as it is. A mine is uncovered. A numbered tile is uncovered
    /// alone. An empty tile starts a flood.
    pub open spec fn reveal_at(self, x: int, y: int) -> BoardView {
        let t = self.at(x, y);
        if t.revealed || t.flagged {
            self
        } else {
            match t.kind {
                TileKind::Mine => self.with_tile(x, y, t.uncovered()),
                TileKind::Numbered(_) => BoardView {
                    safe_remaining: (self.safe_remaining - 1) as nat,
                    ..self.with_tile(x, y, t.uncovered())
                },
                TileKind::Empty => self.flood(x, y),
            }
        }
    }

    /// What a reveal at `(x, y)` reports.
    pub open spec fn reveal_outcome(self, x: int, y: int) -> RevealOutcome {
        let t = self.at(x, y);
        if t.revealed || t.flagged {
            RevealOutcome::RevealedSet(0)
        } else {
            match t.kind {
                TileKind::Mine => RevealOutcome::HitMine,
                TileKind::Numbered(_) => RevealOutcome::RevealedSet(1),
                TileKind::Empty => RevealOutcome::RevealedSet(
                    count_true(self.gained(x, y)) as usize,
                ),
            }
        }
    }

    /// A flood reaches its own start.
    pub proof fn lemma_flood_start(self, sx: int, sy: int)
        requires
            self.in_bounds(sx, sy),
        ensures
            self.floods_to(sx, sy, sx, sy),
    {
        let p = seq![(sx, sy)];
        assert(self.flood_walk(p, sx, sy));
    }

    /// From an empty cell that a flood reaches, it reaches every cell
    /// around.
    pub proof fn lemma_flood_step(self, sx: int, sy: int, cx: int, cy: int, u: int, v: int)
        requires
            self.floods_to(sx, sy, cx, cy),
            self.at(cx, cy).kind == TileKind::Empty,
            self.in_bounds(u, v),
            adjacent(u, v, cx, cy),
        ensures
            self.floods_to(sx, sy, u, v),
    {
        let q = choose|q: Seq<(int, int)>|
            #[trigger] self.flood_walk(q, sx, sy) && q.last() == (cx, cy);
        let p = q.push((u, v));
        assert(p.drop_last() =~= q);
        assert(self.flood_walk(p, sx, sy));
    }

    proof fn lemma_walk_in_bounds(self, p: Seq<(int, int)>, sx: int, sy: int)
        requires
            self.flood_walk(p, sx, sy),
        ensures
            self.in_bounds(p.last().0, p.last().1),
            self.in_bounds(sx, sy),
        decreases p.len(),
    {
        if p.len() > 1 {
            self.lemma_walk_in_bounds(p.drop_last(), sx, sy);
        }
    }

    /// No mine lies beside an empty tile.
    pub proof fn lemma_no_mine_around_empty(self, cx: int, cy: int, u: int, v: int)
        requires
            self.wf(),
            self.in_bounds(cx, cy),
            self.at(cx, cy).kind == TileKind::Empty,
            self.in_bounds(u, v),
            adjacent(u, v, cx, cy),
        ensures
            !self.at(u, v).is_mine(),
    {
        assert(self.mines_around(cx, cy) == 0);
        assert(u == cx - 1 || u == cx || u == cx + 1);
        assert(v == cy - 1 || v == cy || v == cy + 1);
        assert(!self.mine_at(u, v));
    }

    /// A flood never reaches a mine, unless it starts on one.
    pub proof fn lemma_flood_avoids_mines(self, sx: int, sy: int, x: int, y: int)
        requires
            self.wf(),
            self.floods_to(sx, sy, x, y),
            !self.at(sx, sy).is_mine(),
        ensures
            !self.at(x, y).is_mine(),
    {
        let p = choose|p: Seq<(int, int)>|
            #[trigger] self.flood_walk(p, sx, sy) && p.last() == (x, y);
        if p.len() > 1 {
            let q = p.drop_last();
            self.lemma_walk_in_bounds(q, sx, sy);
            self.lemma_no_mine_around_empty(q.last().0, q.last().1, x, y);
        }
    }

    /// On a board on which the tiles around every revealed empty tile are
    /// revealed, and with the same kinds as `self`, a walk of `self` that
    /// starts on a revealed tile ends on one.
    proof fn lemma_walk_revealed(self, cur: BoardView, p: Seq<(int, int)>, sx: int, sy: int)
        requires
            self.flood_walk(p, sx, sy),
            cur.width == self.width,
            cur.height == self.height,
            cur.flood_closed(),
            cur.at(sx, sy).revealed,
            forall|u: int, v: int|
                self.in_bounds(u, v) ==> (#[trigger] cur.at(u, v)).kind == self.at(u, v).kind,
        ensures
            cur.at(p.last().0, p.last().1).revealed,
        decreases p.len(),
    {
        if p.len() > 1 {
            let q = p.drop_last();
            self.lemma_walk_revealed(cur, q, sx, sy);
            self.lemma_walk_in_bounds(q, sx, sy);
            let a = q.last().0;
            let b = q.last().1;
            assert(cur.at(a, b).kind == TileKind::Empty);
            assert(cur.at(p.last().0, p.last().1).revealed);
        }
    }
}

/// How a tile of the board under flood relates to the tile before the
/// flood: it is unchanged, or it was covered, is reached, and is uncovered.
spec fn flooded_tile(before: BoardView, t: TileState, u: int, v: int, sx: int, sy: int) -> bool {
    ||| t == before.at(u, v)
    ||| {
        &&& !before.at(u, v).revealed
        &&& !before.at(u, v).is_mine()
        &&& before.floods_to(sx, sy, u, v)
        &&& t == before.at(u, v).uncovered()
    }
}

/// What holds of a cell that waits on the work list: it is revealed,
/// empty and reached.
spec fn waiting(before: BoardView, cur: BoardView, a: int, b: int, sx: int, sy: int) -> bool {
    &&& before.in_bounds(a, b)
    &&& cur.at(a, b).revealed
    &&& before.at(a, b).kind == TileKind::Empty
    &&& before.floods_to(sx, sy, a, b)
}

/// The state of a flood from `(sx, sy)`: `cur` is the board so far,
/// `work` holds the uncovered empty cells whose surroundings are still to
/// be uncovered, and `pending` is the cell being worked on, if any.
spec fn flooding(
    before: BoardView,
    cur: BoardView,
    work: Seq<(usize, usize)>,
    sx: int,
    sy: int,
    pending: Option<(int, int)>,
) -> bool {
    &&& before.wf()
    &&& before.is_placed()
    &&& before.in_bounds(sx, sy)
    &&& cur.sized()
    &&& cur.width == before.width
    &&& cur.height == before.height
    &&& cur.mines == before.mines
    &&& cur.laid == before.laid
    &&& cur.safe_remaining + cur.mines == count_true(cur.hidden_safe_flags()) + cur.laid
    &&& work.len() + cur.safe_remaining <= before.safe_remaining
    &&& cur.at(sx, sy).revealed
    &&& forall|u: int, v: int|
        before.in_bounds(u, v) ==> flooded_tile(before, #[trigger] cur.at(u, v), u, v, sx, sy)
    &&& forall|j: int|
        0 <= j < work.len() ==> waiting(
            before,
            cur,
            (#[trigger] work[j]).0 as int,
            work[j].1 as int,
            sx,
            sy,
        )
    &&& pending matches Some(c) ==> waiting(before, cur, c.0, c.1, sx, sy)
    &&& forall|a: int, b: int, u: int, v: int|
        before.in_bounds(a, b) && before.in_bounds(u, v) && adjacent(u, v, a, b) && (
        #[trigger] cur.at(a, b)).revealed && cur.at(a, b).kind == TileKind::Empty ==> (
        #[trigger] cur.at(u, v)).revealed || listed(work, work.len() as int, a, b) || pending
            == Some((a, b))
}

impl Board {
    /// Uncovers the covered tile at `(u, v)`, which the flood has reached
    /// from the empty tile at `(cx, cy)`, and puts it on the work list if
    /// it is empty itself.
    fn uncover_reached(
        &mut self,
        work: &mut Vec<(usize, usize)>,
        u: usize,
        v: usize,
        Ghost(before): Ghost<BoardView>,
        Ghost(sx): Ghost<int>,
        Ghost(sy): Ghost<int>,
        Ghost(pending): Ghost<Option<(int, int)>>,
    )
        requires
            old(self).stored(),
            flooding(before, old(self)@, old(work)@, sx, sy, pending),
            before.in_bounds(u as int, v as int),
            !old(self)@.at(u as int, v as int).revealed,
            !before.at(u as int, v as int).is_mine(),
            before.floods_to(sx, sy, u as int, v as int),
        ensures
            final(self).stored(),
            flooding(before, final(self)@, final(work)@, sx, sy, pending),
            final(self)@.safe_remaining + 1 == old(self)@.safe_remaining,
            final(work)@.len() <= old(work)@.len() + 1,
            final(self)@.at(u as int, v as int).revealed,
            forall|a: int, b: int|
                before.in_bounds(a, b) && (#[trigger] old(self)@.at(a, b)).revealed
                    ==> final(self)@.at(a, b).revealed,
    {
        let ghost mid = self@;
        let ghost ui = u as int;
        let ghost vi = v as int;
        let t = self.tile(u, v);
        let shown = t.uncovered();
        proof {
            assert(flooded_tile(before, mid.at(ui, vi), ui, vi, sx, sy));
            assert(t@ == before.at(ui, vi));
            mid.lemma_with_tile(ui, vi, shown@);
            mid.lemma_with_tile_counts(ui, vi, shown@);
        }
        self.put_tile(u, v, shown);
        self.count_uncovered();
        let ghost old_work = work@;
        if t.is_empty() {
            work.push((u, v));
        }
        proof {
            let cur = self@;
            let now = work@;
            let swapped = mid.with_tile(ui, vi, shown@);
            assert forall|a: int, b: int| before.in_bounds(a, b) implies (#[trigger] cur.at(
                a,
                b,
            )).kind == mid.at(a, b).kind && (mid.at(a, b).revealed ==> cur.at(a, b).revealed)
                && flooded_tile(before, cur.at(a, b), a, b, sx, sy) && (!(a == ui && b == vi)
                ==> cur.at(a, b) == mid.at(a, b)) by {
                assert(cur.at(a, b) == swapped.at(a, b));
                assert(flooded_tile(before, mid.at(a, b), a, b, sx, sy));
            }
            assert forall|j: int| 0 <= j < now.len() implies waiting(
                before,
                cur,
                (#[trigger] now[j]).0 as int,
                now[j].1 as int,
                sx,
                sy,
            ) by {
                if j < old_work.len() {
                    let c = old_work[j];
                    assert(waiting(before, mid, c.0 as int, c.1 as int, sx, sy));
                }
            }
            assert forall|a: int, b: int|
                listed(old_work, old_work.len() as int, a, b) implies listed(
                now,
                now.len() as int,
                a,
                b,
            ) by {
                let j = choose|j: int|
                    0 <= j < old_work.len() && #[trigger] old_work[j].0 == a && old_work[j].1 == b;
                assert(now[j].0 == a && now[j].1 == b);
            }
            assert forall|a: int, b: int, p: int, q: int|
                before.in_bounds(a, b) && before.in_bounds(p, q) && adjacent(p, q, a, b) && (
                #[trigger] cur.at(a, b)).revealed && cur.at(a, b).kind == TileKind::Empty implies (
            #[trigger] cur.at(p, q)).revealed || listed(now, now.len() as int, a, b) || pending
                == Some((a, b)) by {
                if a == ui && b == vi {
                    assert(now[now.len() - 1].0 == a && now[now.len() - 1].1 == b);
                    assert(listed(now, now.len() as int, a, b));
                } else {
                    assert(mid.at(a, b).revealed && mid.at(a, b).kind == TileKind::Empty);
                    assert(mid.at(p, q).revealed || listed(old_work, old_work.len() as int, a, b)
                        || pending == Some((a, b)));
                }
            }
            if let Some(c) = pending {
                assert(waiting(before, mid, c.0, c.1, sx, sy));
            }
        }
    }

    /// Uncovers every covered tile around the empty tile at `(cx, cy)`.
    fn spread(
        &mut self,
        work: &mut Vec<(usize, usize)>,
        cx: usize,
        cy: usize,
        Ghost(before): Ghost<BoardView>,
        Ghost(sx): Ghost<int>,
        Ghost(sy): Ghost<int>,
    )
        requires
            old(self).stored(),
            flooding(before, old(self)@, old(work)@, sx, sy, Some((cx as int, cy as int))),
        ensures
            final(self).stored(),
            flooding(before, final(self)@, final(work)@, sx, sy, None),
            2 * final(self)@.safe_remaining + final(work)@.len() <= 2 * old(self)@.safe_remaining
                + old(work)@.len(),
    {
        let ghost pending = Some((cx as int, cy as int));
        let ghost cxi = cx as int;
        let ghost cyi = cy as int;
        let ghost start = self@;
        let ghost start_work = work@;
        let width = self.width();
        let height = self.height();
        let cells = neighbours(cx, cy, width, height);
        let mut k: usize = 0;
        while k < cells.len()
            invariant
                k <= cells.len(),
                self.stored(),
                flooding(before, self@, work@, sx, sy, pending),
                pending == Some((cxi, cyi)),
                2 * self@.safe_remaining + work@.len() <= 2 * start.safe_remaining
                    + start_work.len(),
                forall|i: int|
                    0 <= i < cells.len() ==> before.in_bounds(
                        (#[trigger] cells[i]).0 as int,
                        cells[i].1 as int,
                    ) && adjacent(cells[i].0 as int, cells[i].1 as int, cxi, cyi),
                forall|i: int|
                    0 <= i < k ==> self@.at(
                        (#[trigger] cells[i]).0 as int,
                        cells[i].1 as int,
                    ).revealed,
            decreases cells.len() - k,
        {
            let (u, v) = cells[k];
            let n = self.tile(u, v);
            if !n.is_revealed() {
                proof {
                    let ui = u as int;
                    let vi = v as int;
                    assert(waiting(before, self@, cxi, cyi, sx, sy));
                    before.lemma_flood_step(sx, sy, cxi, cyi, ui, vi);
                    before.lemma_no_mine_around_empty(cxi, cyi, ui, vi);
                }
                self.uncover_reached(
                    work,
                    u,
                    v,
                    Ghost(before),
                    Ghost(sx),
                    Ghost(sy),
                    Ghost(pending),
                );
            }
            k += 1;
        }
        proof {
            let cur = self@;
            assert forall|a: int, b: int, p: int, q: int|
                before.in_bounds(a, b) && before.in_bounds(p, q) && adjacent(p, q, a, b) && (
                #[trigger] cur.at(a, b)).revealed && cur.at(a, b).kind == TileKind::Empty implies (
            #[trigger] cur.at(p, q)).revealed || listed(work@, work@.len() as int, a, b) by {
                if a == cxi && b == cyi {
                    assert(cells@.contains((p as usize, q as usize)));
                    let i = choose|i: int|
                        0 <= i < cells@.len() && cells@[i] == (p as usize, q as usize);
                    assert(cur.at(cells[i].0 as int, cells[i].1 as int).revealed);
                }
            }
        }
    }

    /// Floods from the covered empty tile at `(x, y)` and returns how many
    /// tiles that uncovered.
    fn flood(&mut self, x: usize, y: usize) -> (count: usize)
        requires
            old(self).wf(),
            old(self)@.is_placed(),
            old(self)@.in_bounds(x as int, y as int),
            !old(self)@.at(x as int, y as int).revealed,
            old(self)@.at(x as int, y as int).kind == TileKind::Empty,
        ensures
            final(self).wf(),
            final(self)@ == old(self)@.flood(x as int, y as int),
            count == count_true(old(self)@.gained(x as int, y as int)),
            count >= 1,
    {
        let ghost before = self@;
        let ghost sx = x as int;
        let ghost sy = y as int;
        let start_safe = self.safe_remaining();
        // the list never holds more cells than safe tiles were covered
        let mut work: Vec<(usize, usize)> = Vec::with_capacity(start_safe);
        self.uncover_first(&mut work, x, y, Ghost(before));
        while work.len() > 0
            invariant
                self.stored(),
                flooding(before, self@, work@, sx, sy, None),
                start_safe == before.safe_remaining,
            decreases 2 * self@.safe_remaining + work@.len(),
        {
            let ghost old_work = work@;
            let ghost mid = self@;
            let (cx, cy) = work.pop().unwrap();
            proof {
                let c = Some((cx as int, cy as int));
                assert(old_work[old_work.len() - 1] == (cx, cy));
                assert(waiting(before, mid, cx as int, cy as int, sx, sy));
                assert forall|a: int, b: int|
                    listed(old_work, old_work.len() as int, a, b) implies listed(
                    work@,
                    work@.len() as int,
                    a,
                    b,
                ) || c == Some((a, b)) by {
                    let j = choose|j: int|
                        0 <= j < old_work.len() && #[trigger] old_work[j].0 == a && old_work[j].1
                            == b;
                    if j < work@.len() {
                        assert(work@[j].0 == a && work@[j].1 == b);
                    }
                }
                assert forall|j: int| 0 <= j < work@.len() implies waiting(
                    before,
                    mid,
                    (#[trigger] work@[j]).0 as int,
                    work@[j].1 as int,
                    sx,
                    sy,
                ) by {
                    assert(work@[j] == old_work[j]);
                }
                assert(flooding(before, mid, work@, sx, sy, c));
            }
            self.spread(&mut work, cx, cy, Ghost(before), Ghost(sx), Ghost(sy));
        }
        proof {
            before.lemma_flood_result(self@, sx, sy);
            before.lemma_flood_wf(sx, sy);
        }
        start_safe - self.safe_remaining()
    }

    /// Uncovers the tile on which a flood starts and puts it on the work
    /// list.
    fn uncover_first(
        &mut self,
        work: &mut Vec<(usize, usize)>,
        x: usize,
        y: usize,
        Ghost(before): Ghost<BoardView>,
    )
        requires
            old(self).stored(),
            old(self)@ == before,
            old(work)@.len() == 0,
            before.wf(),
            before.is_placed(),
            before.in_bounds(x as int, y as int),
            !before.at(x as int, y as int).revealed,
            before.at(x as int, y as int).kind == TileKind::Empty,
        ensures
            final(self).stored(),
            flooding(before, final(self)@, final(work)@, x as int, y as int, None),
    {
        let ghost sx = x as int;
        let ghost sy = y as int;
        let t = self.tile(x, y);
        let shown = t.uncovered();
        proof {
            before.lemma_flood_start(sx, sy);
            before.lemma_with_tile(sx, sy, shown@);
            before.lemma_with_tile_counts(sx, sy, shown@);
        }
        self.put_tile(x, y, shown);
        self.count_uncovered();
        work.push((x, y));
        proof {
            let cur = self@;
            let now = work@;
            let swapped = before.with_tile(sx, sy, shown@);
            assert forall|a: int, b: int| before.in_bounds(a, b) implies flooded_tile(
                before,
                #[trigger] cur.at(a, b),
                a,
                b,
                sx,
                sy,
            ) && (!(a == sx && b == sy) ==> cur.at(a, b) == before.at(a, b)) by {
                assert(cur.at(a, b) == swapped.at(a, b));
            }
            assert forall|a: int, b: int, p: int, q: int|
                before.in_bounds(a, b) && before.in_bounds(p, q) && adjacent(p, q, a, b) && (
                #[trigger] cur.at(a, b)).revealed && cur.at(a, b).kind == TileKind::Empty implies (
            #[trigger] cur.at(p, q)).revealed || listed(now, now.len() as int, a, b) by {
                if a == sx && b == sy {
                    assert(now[0].0 == a && now[0].1 == b);
                    assert(listed(now, now.len() as int, a, b));
                } else {
                    assert(before.at(a, b).revealed && before.at(a, b).kind == TileKind::Empty);
                    assert(before.at(p, q).revealed);
                }
            }
        }
    }

    /// Reveals the tile at `(x, y)`.
    ///
    /// A tile that is revealed or flagged already stays as it is. A mine
    /// is uncovered and reported. A numbered tile is uncovered alone. An
    /// empty tile starts a flood, which uncovers the empty tiles connected
    /// to it and the numbered tiles along their border.
    pub fn reveal_at(&mut self, x: usize, y: usize) -> (outcome: RevealOutcome)
        requires
            old(self).wf(),
            old(self)@.is_placed(),
            old(self)@.in_bounds(x as int, y as int),
        ensures
            final(self).wf(),
            final(self)@ == old(self)@.reveal_at(x as int, y as int),
            outcome == old(self)@.reveal_outcome(x as int, y as int),
    {
        let ghost before = self@;
        let ghost xi = x as int;
        let ghost yi = y as int;
        let t = self.tile(x, y);
        if t.is_revealed() || t.is_flagged() {
            return RevealOutcome::RevealedSet(0);
        }
        match t.kind() {
            TileKind::Mine => {
                let shown = t.uncovered();
                self.put_tile(x, y, shown);
                proof {
                    before.lemma_uncover_wf(xi, yi);
                }
                RevealOutcome::HitMine
            },
            TileKind::Numbered(_) => {
                let shown = t.uncovered();
                proof {
                    before.lemma_uncover_wf(xi, yi);
                }
                self.put_tile(x, y, shown);
                self.count_uncovered();
                RevealOutcome::RevealedSet(1)
            },
            TileKind::Empty => {
                let count = self.flood(x, y);
                RevealOutcome::RevealedSet(count)
            },
        }
    }
}

impl BoardView {
    /// Uncovering a covered mine or a covered numbered tile of a board
    /// with all its mines leaves the board well formed; a numbered tile
    /// is one of the safe tiles that were still covered.
    pub proof fn lemma_uncover_wf(self, x: int, y: int)
        requires
            self.wf(),
            self.is_placed(),
            self.in_bounds(x, y),
            !self.at(x, y).revealed,
            self.at(x, y).kind != TileKind::Empty,
        ensures
            self.at(x, y).is_mine() ==> self.with_tile(x, y, self.at(x, y).uncovered()).wf(),
            !self.at(x, y).is_mine() ==> self.safe_remaining >= 1 && (BoardView {
                safe_remaining: (self.safe_remaining - 1) as nat,
                ..self.with_tile(x, y, self.at(x, y).uncovered())
            }).wf(),
    {
        let t = self.at(x, y).uncovered();
        let shown = self.with_tile(x, y, t);
        let after = if self.at(x, y).is_mine() {
            shown
        } else {
            BoardView { safe_remaining: (self.safe_remaining - 1) as nat, ..shown }
        };
        self.lemma_with_tile(x, y, t);
        self.lemma_with_tile_counts(x, y, t);
        let i = cell_index(self.width as int, x, y);
        self.lemma_tiles_at();
        assert(shown.mine_flags() =~= after.mine_flags());
        assert(shown.hidden_safe_flags() =~= after.hidden_safe_flags());
        assert forall|j: int| 0 <= j < after.tiles.len() implies (
        #[trigger] after.tiles[j]).valid() by {
            if j != i {
                assert(self.tiles[j].valid());
            } else {
                assert(self.tiles[i].valid());
            }
        }
        assert forall|u: int, v: int| after.in_bounds(u, v) implies (#[trigger] after.at(u, v)).kind
            == self.at(u, v).kind && (self.at(u, v).revealed ==> after.at(u, v).revealed) by {}
        assert forall|u: int, v: int| after.mine_at(u, v) == self.mine_at(u, v) by {}
        assert forall|u: int, v: int| after.in_bounds(u, v) implies after.mines_around(u, v)
            == self.mines_around(u, v) by {}
        assert(after.numbers_match());
        assert(after.flood_closed()) by {
            assert forall|a: int, b: int, u: int, v: int|
                after.in_bounds(a, b) && after.in_bounds(u, v) && adjacent(u, v, a, b) && (
                #[trigger] after.at(a, b)).revealed && after.at(a, b).kind
                    == TileKind::Empty implies (#[trigger] after.at(u, v)).revealed by {
                assert(self.at(a, b).revealed);
                assert(self.at(u, v).revealed);
            }
        }
    }

    /// At the end of a flood, when no cell waits any more, the board is
    /// the one that `flood` describes.
    proof fn lemma_flood_result(self, cur: BoardView, sx: int, sy: int)
        requires
            flooding(self, cur, Seq::<(usize, usize)>::empty(), sx, sy, None),
            !self.at(sx, sy).revealed,
            self.at(sx, sy).kind == TileKind::Empty,
        ensures
            cur == self.flood(sx, sy),
    {
        let w = self.width as int;
        let goal = self.flood(sx, sy);
        let none = Seq::<(usize, usize)>::empty();
        self.lemma_tiles_at();
        cur.lemma_tiles_at();
        assert forall|a: int, b: int| self.in_bounds(a, b) implies (#[trigger] cur.at(a, b)).kind
            == self.at(a, b).kind && (self.at(a, b).revealed ==> cur.at(a, b).revealed) by {
            assert(flooded_tile(self, cur.at(a, b), a, b, sx, sy));
        }
        assert(cur.flood_closed()) by {
            assert forall|a: int, b: int, u: int, v: int|
                cur.in_bounds(a, b) && cur.in_bounds(u, v) && adjacent(u, v, a, b) && (
                #[trigger] cur.at(a, b)).revealed && cur.at(a, b).kind == TileKind::Empty implies (
            #[trigger] cur.at(u, v)).revealed by {
                assert(!listed(none, none.len() as int, a, b));
            }
        }
        // every cell that the flood reaches is revealed
        assert forall|a: int, b: int| self.floods_to(sx, sy, a, b) implies cur.at(
            a,
            b,
        ).revealed by {
            let p = choose|p: Seq<(int, int)>|
                #[trigger] self.flood_walk(p, sx, sy) && p.last() == (a, b);
            self.lemma_walk_revealed(cur, p, sx, sy);
        }
        assert forall|i: int| 0 <= i < cur.tiles.len() implies #[trigger] cur.tiles[i]
            == goal.tiles[i] by {
            let a = i % w;
            let b = i / w;
            assert(cur.tiles[i] == cur.at(a, b));
            assert(self.tiles[i] == self.at(a, b));
            assert(flooded_tile(self, cur.at(a, b), a, b, sx, sy));
        }
        assert(cur.tiles =~= goal.tiles);
        // the tiles that are no longer covered are those that the flood gained
        self.lemma_flood_wf(sx, sy);
        assert(cur.hidden_safe_flags() =~= goal.hidden_safe_flags());
        assert(cur =~= goal);
    }
}

impl BoardView {
    /// What a flood does to each cell of the board.
    pub proof fn lemma_flood_at(self, sx: int, sy: int)
        requires
            self.sized(),
        ensures
            self.flood(sx, sy).sized(),
            forall|u: int, v: int|
                self.in_bounds(u, v) ==> #[trigger] self.flood(sx, sy).at(u, v) == (if !self.at(
                    u,
                    v,
                ).revealed && self.floods_to(sx, sy, u, v) {
                    self.at(u, v).uncovered()
                } else {
                    self.at(u, v)
                }),
    {
        let after = self.flood(sx, sy);
        self.lemma_tiles_at();
        assert forall|u: int, v: int| self.in_bounds(u, v) implies #[trigger] after.at(u, v) == (if
            !self.at(u, v).revealed && self.floods_to(sx, sy, u, v) {
            self.at(u, v).uncovered()
        } else {
            self.at(u, v)
        }) by {
            let i = cell_index(self.width as int, u, v);
            assert(after.at(u, v) == after.tiles[i]);
        }
    }

    /// A flood from a covered empty tile of a board with all its mines
    /// uncovers at least that tile, uncovers no more tiles than were
    /// safe and covered, and leaves the board well formed.
    pub proof fn lemma_flood_wf(self, sx: int, sy: int)
        requires
            self.wf(),
            self.is_placed(),
            self.in_bounds(sx, sy),
            !self.at(sx, sy).revealed,
            self.at(sx, sy).kind == TileKind::Empty,
        ensures
            self.flood(sx, sy).wf(),
            1 <= count_true(self.gained(sx, sy)) <= self.safe_remaining,
    {
        let w = self.width as int;
        let after = self.flood(sx, sy);
        let gain = self.gained(sx, sy);
        self.lemma_tiles_at();
        self.lemma_flood_at(sx, sy);
        after.lemma_tiles_at();
        let hs0 = self.hidden_safe_flags();
        let hs1 = after.hidden_safe_flags();
        assert forall|i: int| 0 <= i < hs0.len() implies hs0[i] == (hs1[i] || gain[i]) && !(hs1[i]
            && gain[i]) by {
            if gain[i] {
                self.lemma_flood_avoids_mines(sx, sy, i % w, i / w);
                assert(self.tiles[i] == self.at(i % w, i / w));
            }
        }
        lemma_count_split(hs0, hs1, gain);
        assert(after.mine_flags() =~= self.mine_flags());
        let s = cell_index(w, sx, sy);
        self.lemma_flood_start(sx, sy);
        assert(gain[s]);
        lemma_count_positive(gain, s);
        assert forall|i: int| 0 <= i < after.tiles.len() implies (
        #[trigger] after.tiles[i]).valid() by {
            assert(self.tiles[i].valid());
        }
        assert forall|u: int, v: int| after.mine_at(u, v) == self.mine_at(u, v) by {
            if self.in_bounds(u, v) {
                assert(after.at(u, v).kind == self.at(u, v).kind);
            }
        }
        assert(after.numbers_match()) by {
            assert forall|u: int, v: int|
                after.in_bounds(u, v) && !after.at(u, v).is_mine() implies after.at(u, v).kind
                == TileKind::of_count(#[trigger] after.mines_around(u, v)) by {
                assert(after.at(u, v).kind == self.at(u, v).kind);
                assert(after.mines_around(u, v) == self.mines_around(u, v));
            }
        }
        assert(after.flood_closed()) by {
            assert forall|a: int, b: int, u: int, v: int|
                after.in_bounds(a, b) && after.in_bounds(u, v) && adjacent(u, v, a, b) && (
                #[trigger] after.at(a, b)).revealed && after.at(a, b).kind
                    == TileKind::Empty implies (#[trigger] after.at(u, v)).revealed by {
                if self.at(a, b).revealed {
                    assert(self.at(a, b).kind == TileKind::Empty);
                    assert(self.at(u, v).revealed);
                } else {
                    self.lemma_flood_step(sx, sy, a, b, u, v);
                }
            }
        }
    }

    /// A reveal leaves a board with all its mines well formed.
    pub proof fn lemma_reveal_wf(self, x: int, y: int)
        requires
            self.wf(),
            self.is_placed(),
            self.in_bounds(x, y),
        ensures
            self.reveal_at(x, y).wf(),
            self.reveal_at(x, y).is_placed(),
    {
        let t = self.at(x, y);
        if !(t.revealed || t.flagged) {
            if t.kind == TileKind::Empty {
                self.lemma_flood_wf(x, y);
            } else {
                self.lemma_uncover_wf(x, y);
            }
        }
    }

    /// A reveal changes no tile with a mine under it, but the one revealed.
    pub proof fn lemma_reveal_keeps_mines(self, x: int, y: int)
        requires
            self.wf(),
            self.in_bounds(x, y),
        ensures
            self.reveal_at(x, y).tiles.len() == self.tiles.len(),
            forall|i: int|
                0 <= i < self.tiles.len() && self.tiles[i].is_mine() && i != cell_index(
                    self.width as int,
                    x,
                    y,
                ) ==> #[trigger] self.reveal_at(x, y).tiles[i] == self.tiles[i],
            forall|i: int|
                0 <= i < self.tiles.len() ==> (#[trigger] self.reveal_at(x, y).tiles[i]).kind
                    == self.tiles[i].kind,
    {
        let t = self.at(x, y);
        let w = self.width as int;
        let after = self.reveal_at(x, y);
        self.lemma_tiles_at();
        if !(t.revealed || t.flagged) && t.kind == TileKind::Empty {
            assert forall|i: int| 0 <= i < self.tiles.len() && self.tiles[i].is_mine() implies
                #[trigger] after.tiles[i] == self.tiles[i] by {
                if self.gained(x, y)[i] {
                    self.lemma_flood_avoids_mines(x, y, i % w, i / w);
                    assert(self.tiles[i] == self.at(i % w, i / w));
                }
            }
        }
    }
}

/// Where `a` is true exactly where one of `b` and `c` is, and these two
/// are never true together, `a` counts what `b` and `c` count together.
pub proof fn lemma_count_split(a: Seq<bool>, b: Seq<bool>, c: Seq<bool>)
    requires
        a.len() == b.len(),
        a.len() == c.len(),
        forall|i: int| 0 <= i < a.len() ==> a[i] == (b[i] || c[i]) && !(b[i] && c[i]),
    ensures
        count_true(a) == count_true(b) + count_true(c),
    decreases a.len(),
{
    if a.len() > 0 {
        let a1 = a.drop_last();
        let b1 = b.drop_last();
        let c1 = c.drop_last();
        assert forall|i: int| 0 <= i < a1.len() implies a1[i] == (b1[i] || c1[i]) && !(b1[i]
            && c1[i]) by {
            assert(a1[i] == a[i] && b1[i] == b[i] && c1[i] == c[i]);
        }
        lemma_count_split(a1, b1, c1);
    }
}

/// A sequence with a true entry counts at least one.
pub proof fn lemma_count_positive(s: Seq<bool>, i: int)
    requires
        0 <= i < s.len(),
        s[i],
    ensures
        count_true(s) >= 1,
    decreases s.len(),
{
    if i < s.len() - 1 {
        assert(s.drop_last()[i] == s[i]);
        lemma_count_positive(s.drop_last(), i);
    }
}

} // verus!
