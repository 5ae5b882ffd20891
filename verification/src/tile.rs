//! One cell of the board, packed into a byte.
//!
//! Layout of the byte, low bit first: two bits for the kind (0 empty,
//! 1 numbered, 2 mine), one bit "revealed", one bit "flagged", and in the
//! high four bits the adjacency count minus one for a numbered tile. The
//! layout is private to this module; everything else reads a tile through
//! its accessors and reasons about it through its view.

use vstd::prelude::*;

verus! {

/// What lies under a tile.
#[derive(Clone, Copy, PartialEq, Eq, Debug, Structural)]
pub enum TileKind {
    /// No mine here and none on any neighbour.
    Empty,
    /// No mine here; the number of neighbours that hold one (1 to 8).
    Numbered(u8),
    /// A mine.
    Mine,
}

/// The logical content of a tile: three independent fields.
#[derive(Clone, Copy, PartialEq, Eq, Debug, Structural)]
pub struct TileState {
    /// The tile is uncovered.
    pub revealed: bool,
    /// The player has put a flag on the tile.
    pub flagged: bool,
    /// What lies under the tile.
    pub kind: TileKind,
}

impl TileKind {
    /// The kind of a mine-free tile with `n` mines around it.
    pub open spec fn of_count(n: int) -> TileKind {
        if n == 0 {
            TileKind::Empty
        } else {
            TileKind::Numbered(n as u8)
        }
    }

    /// The kind after one more mine was laid on a neighbour.
    pub open spec fn bumped(self) -> TileKind {
        match self {
            TileKind::Empty => TileKind::Numbered(1),
            TileKind::Numbered(k) => TileKind::Numbered((k + 1) as u8),
            TileKind::Mine => TileKind::Mine,
        }
    }
}

impl TileState {
    /// A flag stands only on a tile that is not revealed, and a number is
    /// between 1 and 8.
    pub open spec fn valid(self) -> bool {
        &&& self.flagged ==> !self.revealed
        &&& self.kind matches TileKind::Numbered(k) ==> 1 <= k <= 8
    }

    /// A mine lies under the tile.
    pub open spec fn is_mine(self) -> bool {
        self.kind == TileKind::Mine
    }

    /// The tile once uncovered: any flag on it is gone.
    pub open spec fn uncovered(self) -> TileState {
        TileState { revealed: true, flagged: false, kind: self.kind }
    }

    /// The tile with its flag flipped.
    pub open spec fn flag_toggled(self) -> TileState {
        TileState { revealed: self.revealed, flagged: !self.flagged, kind: self.kind }
    }

    /// The tile with another kind under it.
    pub open spec fn with_kind(self, kind: TileKind) -> TileState {
        TileState { revealed: self.revealed, flagged: self.flagged, kind }
    }
}

/// The two bits that hold the kind.
const KIND_MASK: u8 = 0b0011;

/// The kind bits of an empty tile.
const KIND_EMPTY: u8 = 0b00;

/// The kind bits of a numbered tile.
const KIND_NUMBERED: u8 = 0b01;

/// The kind bits of a mine.
const KIND_MINE: u8 = 0b10;

/// The bit that says that the tile is revealed.
const REVEALED_BIT: u8 = 0b0100;

/// The bit that says that the tile carries a flag.
const FLAGGED_BIT: u8 = 0b1000;

/// Both status bits together.
const STATUS_MASK: u8 = 0b1100;

/// A tile in its packed form.
#[derive(Clone, Copy, Debug)]
pub struct Tile {
    bits: u8,
}

impl View for Tile {
    type V = TileState;

    closed spec fn view(&self) -> TileState {
        TileState {
            revealed: self.bits & 0b0100 != 0,
            flagged: self.bits & 0b1000 != 0,
            kind: if self.bits & 0b0011 == 0 {
                TileKind::Empty
            } else if self.bits & 0b0011 == 1 {
                TileKind::Numbered(((self.bits >> 4) + 1) as u8)
            } else {
                TileKind::Mine
            },
        }
    }
}

impl Tile {
    /// The byte is one that the constructors below produce: a known kind,
    /// a count only on a numbered tile and at most 8 there, and never a
    /// flag on a revealed tile.
    pub closed spec fn wf(self) -> bool {
        &&& self.bits & 0b0011 != 3
        &&& self.bits & 0b0011 == 1 ==> self.bits >> 4 <= 7
        &&& self.bits & 0b0011 != 1 ==> self.bits >> 4 == 0
        &&& !(self.bits & 0b0100 != 0 && self.bits & 0b1000 != 0)
    }

    /// A well-formed tile has a valid view.
    pub proof fn lemma_wf_valid(self)
        requires
            self.wf(),
        ensures
            self@.valid(),
    {
    }

    /// A covered, unflagged, empty tile.
    pub fn new() -> (t: Tile)
        ensures
            t.wf(),
            t@ == (TileState { revealed: false, flagged: false, kind: TileKind::Empty }),
    {
        let bits: u8 = 0;
        assert(bits & 0b0011 == 0 && bits & 0b0100 == 0 && bits & 0b1000 == 0 && bits >> 4 == 0)
            by (bit_vector)
            requires
                bits == 0,
        ;
        Tile { bits }
    }

    /// Whether the tile is uncovered.
    pub fn is_revealed(self) -> (b: bool)
        ensures
            b == self@.revealed,
    {
        self.bits & REVEALED_BIT != 0
    }

    /// Whether the tile carries a flag.
    pub fn is_flagged(self) -> (b: bool)
        ensures
            b == self@.flagged,
    {
        self.bits & FLAGGED_BIT != 0
    }

    /// Whether a mine lies under the tile.
    pub fn is_mine(self) -> (b: bool)
        requires
            self.wf(),
        ensures
            b == self@.is_mine(),
    {
        let bits: u8 = self.bits;
        let low: u8 = bits & KIND_MASK;
        assert(low <= 3) by (bit_vector)
            requires
                low == bits & 0b0011,
        ;
        low == KIND_MINE
    }

    /// Whether the tile holds no mine and has none around it.
    pub fn is_empty(self) -> (b: bool)
        ensures
            b == (self@.kind == TileKind::Empty),
    {
        self.bits & KIND_MASK == KIND_EMPTY
    }

    /// What lies under the tile.
    pub fn kind(self) -> (k: TileKind)
        requires
            self.wf(),
        ensures
            k == self@.kind,
    {
        let low: u8 = self.bits & KIND_MASK;
        if low == KIND_EMPTY {
            TileKind::Empty
        } else if low == KIND_NUMBERED {
            let high: u8 = self.bits >> 4;
            TileKind::Numbered(high + 1)
        } else {
            TileKind::Mine
        }
    }

    /// The number of mines around a mine-free tile, 0 for a mine.
    pub fn adjacent(self) -> (n: u8)
        requires
            self.wf(),
        ensures
            n <= 8,
            match self@.kind {
                TileKind::Empty => n == 0,
                TileKind::Numbered(k) => n == k,
                TileKind::Mine => n == 0,
            },
    {
        if self.bits & KIND_MASK == KIND_NUMBERED {
            let high: u8 = self.bits >> 4;
            high + 1
        } else {
            0
        }
    }

    /// The tile uncovered. A flag on it is taken off.
    pub fn uncovered(self) -> (t: Tile)
        requires
            self.wf(),
        ensures
            t.wf(),
            t@ == self@.uncovered(),
    {
        let old_bits: u8 = self.bits;
        let bits: u8 = (old_bits | REVEALED_BIT) & !FLAGGED_BIT;
        assert(bits & 0b0100 != 0 && bits & 0b1000 == 0 && bits & 0b0011 == old_bits & 0b0011
            && bits >> 4 == old_bits >> 4) by (bit_vector)
            requires
                bits == (old_bits | 0b0100) & !0b1000u8,
        ;
        Tile { bits }
    }

    /// The tile with its flag flipped. Only a covered tile carries a flag.
    pub fn flag_toggled(self) -> (t: Tile)
        requires
            self.wf(),
            !self@.revealed,
        ensures
            t.wf(),
            t@ == self@.flag_toggled(),
    {
        let old_bits: u8 = self.bits;
        let bits: u8 = old_bits ^ FLAGGED_BIT;
        assert((bits & 0b1000 != 0) == (old_bits & 0b1000 == 0) && bits & 0b0100 == old_bits
            & 0b0100 && bits & 0b0011 == old_bits & 0b0011 && bits >> 4 == old_bits >> 4)
            by (bit_vector)
            requires
                bits == old_bits ^ 0b1000,
        ;
        Tile { bits }
    }

    /// The tile with a mine under it. Its count is cleared.
    pub fn mined(self) -> (t: Tile)
        requires
            self.wf(),
        ensures
            t.wf(),
            t@ == self@.with_kind(TileKind::Mine),
    {
        let old_bits: u8 = self.bits;
        let bits: u8 = (old_bits & STATUS_MASK) | KIND_MINE;
        assert(bits & 0b0011 == 2 && bits >> 4 == 0 && bits & 0b0100 == old_bits & 0b0100 && bits
            & 0b1000 == old_bits & 0b1000) by (bit_vector)
            requires
                bits == (old_bits & 0b1100) | 0b10,
        ;
        Tile { bits }
    }

    /// The tile after a mine was laid on one of its neighbours: an empty
    /// tile becomes a 1, a number grows by one, a mine stays a mine.
    pub fn bumped(self) -> (t: Tile)
        requires
            self.wf(),
            self@.kind != TileKind::Numbered(8),
        ensures
            t.wf(),
            t@ == self@.with_kind(self@.kind.bumped()),
    {
        let old_bits: u8 = self.bits;
        let low: u8 = old_bits & KIND_MASK;
        if low == KIND_EMPTY {
            let bits: u8 = old_bits | KIND_NUMBERED;
            assert(bits & 0b0011 == 1 && bits >> 4 == 0 && bits & 0b0100 == old_bits & 0b0100
                && bits & 0b1000 == old_bits & 0b1000) by (bit_vector)
                requires
                    bits == old_bits | 0b01,
                    old_bits & 0b0011 == 0,
                    old_bits >> 4 == 0,
            ;
            Tile { bits }
        } else if low == KIND_NUMBERED {
            assert(old_bits >> 4 < 7 && old_bits < 0x70) by (bit_vector)
                requires
                    old_bits >> 4 <= 7,
                    ((old_bits >> 4) + 1) as u8 != 8,
            ;
            let bits: u8 = old_bits + 0x10;
            assert(bits & 0b0011 == 1 && bits >> 4 == (old_bits >> 4) + 1 && bits & 0b0100
                == old_bits & 0b0100 && bits & 0b1000 == old_bits & 0b1000) by (bit_vector)
                requires
                    bits == old_bits + 0x10,
                    old_bits < 0x70,
                    old_bits & 0b0011 == 1,
            ;
            Tile { bits }
        } else {
            self
        }
    }
}

} // verus!
