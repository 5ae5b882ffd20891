//! Turning the game into text: one glyph for each tile, a frame for the
//! whole board, and the report at the end of a game.

use vstd::prelude::*;
use vstd::string::StringSliceAdditionalSpecFns;
use crate::board::{Board, BoardView};
use crate::game::GameState;
use crate::tile::{Tile, TileKind, TileState};

verus! {

/// A covered tile without a flag: `_`.
pub const GLYPH_COVERED: u8 = 0x5f;

/// A covered tile with a flag: `$`.
pub const GLYPH_FLAG: u8 = 0x24;

/// A revealed tile with no mine around it: a blank.
pub const GLYPH_EMPTY: u8 = 0x20;

/// The mine that was revealed: `X`.
pub const GLYPH_MINE: u8 = 0x58;

/// A covered mine without a flag, shown when the game is over: `!`.
pub const GLYPH_HIDDEN_MINE: u8 = 0x21;

/// The digit `0`; the other digits follow it.
pub const DIGIT_ZERO: u8 = 0x30;

/// The blank after each glyph.
pub const BLANK: u8 = 0x20;

/// The bracket `[` that opens a row.
pub const ROW_OPEN: u8 = 0x5b;

/// The bracket `]` that closes a row.
pub const ROW_CLOSE: u8 = 0x5d;

/// The line feed that ends a row.
pub const LINE_FEED: u8 = 0x0a;

/// The colour of plain text.
pub const COLOR_PLAIN: u8 = 0b0111;

/// The colour of a flag while the game goes on.
pub const COLOR_FLAG: u8 = 0b1110;

/// The colour of a flag on a mine, once the game is over.
pub const COLOR_FLAG_RIGHT: u8 = 0b1011;

/// The colour of a flag on a safe tile, once the game is over.
pub const COLOR_FLAG_WRONG: u8 = 0b0101;

/// The colour of the mine that was revealed.
pub const COLOR_MINE: u8 = 0b1101;

/// The colour of a covered mine without a flag, once the game is over.
pub const COLOR_HIDDEN_MINE: u8 = 0b0110;

/// The glyph of a tile. With `show_mines` a covered mine without a flag
/// shows too, as it does on the board drawn at the end of a game.
pub open spec fn glyph_of(t: TileState, show_mines: bool) -> u8 {
    if t.revealed {
        match t.kind {
            TileKind::Empty => GLYPH_EMPTY,
            TileKind::Numbered(k) => (DIGIT_ZERO + k) as u8,
            TileKind::Mine => GLYPH_MINE,
        }
    } else if t.flagged {
        GLYPH_FLAG
    } else if show_mines && t.is_mine() {
        GLYPH_HIDDEN_MINE
    } else {
        GLYPH_COVERED
    }
}

/// The colour of a number.
pub open spec fn digit_color(k: u8) -> u8 {
    if k == 1 {
        0b1001
    } else if k == 2 {
        0b0010
    } else if k == 3 {
        0b1100
    } else if k == 4 {
        0b0001
    } else if k == 5 {
        0b0100
    } else if k == 6 {
        0b0011
    } else if k == 7 {
        0b1000
    } else {
        0b1111
    }
}

/// The colour in which a tile's glyph is drawn.
pub open spec fn color_of(t: TileState, show_mines: bool) -> u8 {
    if t.revealed {
        match t.kind {
            TileKind::Empty => COLOR_PLAIN,
            TileKind::Numbered(k) => digit_color(k),
            TileKind::Mine => COLOR_MINE,
        }
    } else if t.flagged {
        if !show_mines {
            COLOR_FLAG
        } else if t.is_mine() {
            COLOR_FLAG_RIGHT
        } else {
            COLOR_FLAG_WRONG
        }
    } else if show_mines && t.is_mine() {
        COLOR_HIDDEN_MINE
    } else {
        COLOR_PLAIN
    }
}

/// The glyphs of the first `n` tiles of row `y`, each followed by a
/// blank.
pub open spec fn cells_text(b: BoardView, y: int, n: nat, show_mines: bool) -> Seq<u8>
    decreases n,
{
    if n == 0 {
        Seq::empty()
    } else {
        cells_text(b, y, (n - 1) as nat, show_mines).push(
            glyph_of(b.at(n - 1, y), show_mines),
        ).push(BLANK)
    }
}

/// Row `y` as text: its tiles between brackets, and a line feed.
pub open spec fn row_text(b: BoardView, y: int, show_mines: bool) -> Seq<u8> {
    seq![ROW_OPEN, BLANK] + cells_text(b, y, b.width, show_mines) + seq![ROW_CLOSE, LINE_FEED]
}

/// The first `n` rows as text.
pub open spec fn rows_text(b: BoardView, n: nat, show_mines: bool) -> Seq<u8>
    decreases n,
{
    if n == 0 {
        Seq::empty()
    } else {
        rows_text(b, (n - 1) as nat, show_mines) + row_text(b, n - 1, show_mines)
    }
}

/// The whole board as text, one line for each row.
pub open spec fn frame_text(b: BoardView, show_mines: bool) -> Seq<u8> {
    rows_text(b, b.height, show_mines)
}

/// The decimal digits of `n`, the highest first.
pub open spec fn decimal_text(n: nat) -> Seq<u8>
    decreases n,
{
    if n < 10 {
        seq![(DIGIT_ZERO + n) as u8]
    } else {
        decimal_text(n / 10).push((DIGIT_ZERO + n % 10) as u8)
    }
}

/// The line that says how a game ended; empty for a game that goes on.
pub open spec fn end_message_of(state: GameState) -> &'static str {
    match state {
        GameState::Won => "You win!",
        GameState::Lost => "Game Over, you clicked a mine!",
        _ => "",
    }
}

/// The report at the end of a game: how it ended and the seconds played.
pub open spec fn report_text(state: GameState, seconds: nat) -> Seq<u8> {
    end_message_of(state).spec_bytes() + "\nPlaytime: ".spec_bytes() + decimal_text(seconds)
        + "s\n".spec_bytes()
}

/// The text of a row is four bytes longer than twice its width.
pub proof fn lemma_cells_len(b: BoardView, y: int, n: nat, show_mines: bool)
    ensures
        cells_text(b, y, n, show_mines).len() == 2 * n,
    decreases n,
{
    if n > 0 {
        lemma_cells_len(b, y, (n - 1) as nat, show_mines);
    }
}

/// The glyph of tile `x` stands at place `2 * x` of the row's tiles, and
/// a blank after it.
pub proof fn lemma_cells_at(b: BoardView, y: int, n: nat, show_mines: bool, x: int)
    requires
        0 <= x < n,
    ensures
        cells_text(b, y, n, show_mines).len() == 2 * n,
        cells_text(b, y, n, show_mines)[2 * x] == glyph_of(b.at(x, y), show_mines),
        cells_text(b, y, n, show_mines)[2 * x + 1] == BLANK,
    decreases n,
{
    lemma_cells_len(b, y, n, show_mines);
    lemma_cells_len(b, y, (n - 1) as nat, show_mines);
    if x < n - 1 {
        lemma_cells_at(b, y, (n - 1) as nat, show_mines, x);
    }
}

/// The first `n` rows take `n` times the length of a row.
pub proof fn lemma_rows_len(b: BoardView, n: nat, show_mines: bool)
    ensures
        rows_text(b, n, show_mines).len() == n * (2 * b.width + 4),
    decreases n,
{
    let len = 2 * b.width + 4;
    if n > 0 {
        let m = (n - 1) as nat;
        lemma_rows_len(b, m, show_mines);
        lemma_cells_len(b, n - 1, b.width, show_mines);
        assert(row_text(b, n - 1, show_mines).len() == len);
        assert(n * len == m * len + len) by (nonlinear_arith)
            requires
                m == n - 1,
        ;
    } else {
        assert(n * len == 0) by (nonlinear_arith)
            requires
                n == 0,
        ;
    }
}

/// Among the first `n` rows of text, the glyph of the tile in column
/// `x` of row `y` stands at place `2 + 2 * x` of line `y`.
pub proof fn lemma_rows_glyph(b: BoardView, n: nat, show_mines: bool, x: int, y: int)
    requires
        0 <= x < b.width,
        0 <= y < n,
    ensures
        rows_text(b, n, show_mines).len() == n * (2 * b.width + 4),
        0 <= y * (2 * b.width + 4) + 2 + 2 * x < rows_text(b, n, show_mines).len(),
        rows_text(b, n, show_mines)[y * (2 * b.width + 4) + 2 + 2 * x] == glyph_of(
            b.at(x, y),
            show_mines,
        ),
    decreases n,
{
    let len = 2 * b.width + 4;
    let m = (n - 1) as nat;
    lemma_rows_len(b, n, show_mines);
    lemma_rows_len(b, m, show_mines);
    lemma_cells_at(b, n - 1, b.width, show_mines, x);
    assert(n * len == m * len + len) by (nonlinear_arith)
        requires
            m == n - 1,
    ;
    assert(y * len >= 0 && (y < m ==> y * len + len <= m * len)) by (nonlinear_arith)
        requires
            0 <= y,
            len > 0,
    ;
    if y < m {
        lemma_rows_glyph(b, m, show_mines, x, y);
    } else {
        let row = row_text(b, y, show_mines);
        assert(row[2 + 2 * x] == cells_text(b, y, b.width, show_mines)[2 * x]);
    }
}

/// The glyph of a tile.
pub fn glyph(t: Tile, show_mines: bool) -> (g: u8)
    requires
        t.wf(),
    ensures
        g == glyph_of(t@, show_mines),
{
    proof {
        t.lemma_wf_valid();
    }
    if t.is_revealed() {
        match t.kind() {
            TileKind::Empty => GLYPH_EMPTY,
            TileKind::Numbered(k) => DIGIT_ZERO + k,
            TileKind::Mine => GLYPH_MINE,
        }
    } else if t.is_flagged() {
        GLYPH_FLAG
    } else if show_mines && t.is_mine() {
        GLYPH_HIDDEN_MINE
    } else {
        GLYPH_COVERED
    }
}

/// The colour in which a tile's glyph is drawn.
pub fn color(t: Tile, show_mines: bool) -> (c: u8)
    requires
        t.wf(),
    ensures
        c == color_of(t@, show_mines),
{
    if t.is_revealed() {
        match t.kind() {
            TileKind::Empty => COLOR_PLAIN,
            TileKind::Numbered(k) => {
                if k == 1 {
                    0b1001
                } else if k == 2 {
                    0b0010
                } else if k == 3 {
                    0b1100
                } else if k == 4 {
                    0b0001
                } else if k == 5 {
                    0b0100
                } else if k == 6 {
                    0b0011
                } else if k == 7 {
                    0b1000
                } else {
                    0b1111
                }
            },
            TileKind::Mine => COLOR_MINE,
        }
    } else if t.is_flagged() {
        if !show_mines {
            COLOR_FLAG
        } else if t.is_mine() {
            COLOR_FLAG_RIGHT
        } else {
            COLOR_FLAG_WRONG
        }
    } else if show_mines && t.is_mine() {
        COLOR_HIDDEN_MINE
    } else {
        COLOR_PLAIN
    }
}

/// The board as text: each row between brackets on a line of its own,
/// each tile as its glyph and a blank.
pub fn render_frame(board: &Board, show_mines: bool) -> (out: Vec<u8>)
    requires
        board.stored(),
    ensures
        out@ == frame_text(board@, show_mines),
{
    let width = board.width();
    let height = board.height();
    let mut out: Vec<u8> = Vec::new();
    let mut y: usize = 0;
    while y < height
        invariant
            board.stored(),
            width == board@.width,
            height == board@.height,
            y <= height,
            out@ == rows_text(board@, y as nat, show_mines),
        decreases height - y,
    {
        let ghost done = out@;
        out.push(ROW_OPEN);
        out.push(BLANK);
        let mut x: usize = 0;
        while x < width
            invariant
                board.stored(),
                width == board@.width,
                height == board@.height,
                y < height,
                x <= width,
                out@ == done + seq![ROW_OPEN, BLANK] + cells_text(
                    board@,
                    y as int,
                    x as nat,
                    show_mines,
                ),
            decreases width - x,
        {
            let t = board.tile(x, y);
            out.push(glyph(t, show_mines));
            out.push(BLANK);
            x += 1;
            assert(out@ =~= done + seq![ROW_OPEN, BLANK] + cells_text(
                board@,
                y as int,
                x as nat,
                show_mines,
            ));
        }
        out.push(ROW_CLOSE);
        out.push(LINE_FEED);
        assert(out@ =~= done + row_text(board@, y as int, show_mines));
        y += 1;
    }
    out
}

/// The decimal digits of `n`, the highest first.
pub fn decimal(n: u64) -> (out: Vec<u8>)
    ensures
        out@ == decimal_text(n as nat),
    decreases n,
{
    if n < 10 {
        let mut out: Vec<u8> = Vec::new();
        out.push(DIGIT_ZERO + (n as u8));
        assert(out@ =~= decimal_text(n as nat));
        out
    } else {
        let mut out = decimal(n / 10);
        out.push(DIGIT_ZERO + ((n % 10) as u8));
        out
    }
}

/// The line that says how a game ended; empty for a game that goes on.
pub fn end_message(state: GameState) -> (text: &'static str)
    ensures
        text == end_message_of(state),
{
    match state {
        GameState::Won => "You win!",
        GameState::Lost => "Game Over, you clicked a mine!",
        _ => "",
    }
}

/// The report at the end of a game: the line that says how it ended, and
/// on the next line the whole seconds played.
pub fn report(state: GameState, seconds: u64) -> (out: Vec<u8>)
    ensures
        out@ == report_text(state, seconds as nat),
{
    let mut out: Vec<u8> = Vec::new();
    out.extend_from_slice(end_message(state).as_bytes());
    out.extend_from_slice("\nPlaytime: ".as_bytes());
    let mut digits = decimal(seconds);
    out.append(&mut digits);
    out.extend_from_slice("s\n".as_bytes());
    out
}

} // verus!
