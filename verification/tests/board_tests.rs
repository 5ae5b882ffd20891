use minesweeper::board::{Board, Preset};
use minesweeper::console::c_void;
use minesweeper::tile::TileKind;

#[test]
fn presets_have_their_sizes() {
    assert_eq!((Preset::Beginner.width(), Preset::Beginner.height(), Preset::Beginner.mines()), (9, 9, 10));
    assert_eq!(
        (Preset::Intermediate.width(), Preset::Intermediate.height(), Preset::Intermediate.mines()),
        (16, 16, 40)
    );
    assert_eq!((Preset::Expert.width(), Preset::Expert.height(), Preset::Expert.mines()), (30, 16, 99));
}

#[test]
fn new_board_is_empty_and_covered() {
    let b = Board::new(Preset::Expert);
    assert_eq!(b.width(), 30);
    assert_eq!(b.height(), 16);
    assert_eq!(b.mine_count(), 99);
    assert_eq!(b.mines_laid(), 0);
    assert!(!b.is_placed());
    assert_eq!(b.safe_remaining(), 30 * 16 - 99);
    for y in 0..16 {
        for x in 0..30 {
            let t = b.tile(x, y);
            assert!(!t.is_revealed());
            assert!(!t.is_flagged());
            assert_eq!(t.kind(), TileKind::Empty);
        }
    }
}

#[test]
fn safe_remaining_starts_at_cells_minus_mines() {
    assert_eq!(Board::new(Preset::Beginner).safe_remaining(), 71);
    assert_eq!(Board::new(Preset::Intermediate).safe_remaining(), 216);
    assert_eq!(Board::new(Preset::Expert).safe_remaining(), 381);
}

#[test]
fn a_mine_counts_on_the_tiles_around_it() {
    let mut b = Board::new(Preset::Beginner);
    b.lay_mine(4, 4);
    assert_eq!(b.mines_laid(), 1);
    assert_eq!(b.safe_remaining(), 71);
    for y in 0..9usize {
        for x in 0..9usize {
            let t = b.tile(x, y);
            let near = x.abs_diff(4) <= 1 && y.abs_diff(4) <= 1;
            if x == 4 && y == 4 {
                assert_eq!(t.kind(), TileKind::Mine);
            } else if near {
                assert_eq!(t.kind(), TileKind::Numbered(1));
            } else {
                assert_eq!(t.kind(), TileKind::Empty);
            }
        }
    }
}

#[test]
fn a_mine_in_a_corner_counts_on_three_tiles() {
    let mut b = Board::new(Preset::Beginner);
    b.lay_mine(0, 0);
    assert_eq!(b.tile(0, 0).kind(), TileKind::Mine);
    assert_eq!(b.tile(1, 0).kind(), TileKind::Numbered(1));
    assert_eq!(b.tile(0, 1).kind(), TileKind::Numbered(1));
    assert_eq!(b.tile(1, 1).kind(), TileKind::Numbered(1));
    assert_eq!(b.tile(2, 0).kind(), TileKind::Empty);
    assert_eq!(b.tile(8, 8).kind(), TileKind::Empty);
    b.lay_mine(8, 8);
    assert_eq!(b.tile(7, 7).kind(), TileKind::Numbered(1));
    assert_eq!(b.tile(8, 7).kind(), TileKind::Numbered(1));
    assert_eq!(b.tile(7, 8).kind(), TileKind::Numbered(1));
}

#[test]
fn eight_mines_around_a_tile_make_an_eight() {
    let mut b = Board::new(Preset::Beginner);
    let ring = [(3, 3), (4, 3), (5, 3), (3, 4), (5, 4), (3, 5), (4, 5), (5, 5)];
    let mut expected = 0u8;
    for (x, y) in ring {
        b.lay_mine(x, y);
        expected += 1;
        assert_eq!(b.tile(4, 4).kind(), TileKind::Numbered(expected));
    }
    assert_eq!(b.tile(4, 4).kind(), TileKind::Numbered(8));
    assert_eq!(b.tile(4, 4).adjacent(), 8);
    assert_eq!(b.mines_laid(), 8);
    // a mine beside mines stays a mine, and the mines keep no count
    assert_eq!(b.tile(4, 3).kind(), TileKind::Mine);
    assert_eq!(b.tile(4, 3).adjacent(), 0);
    assert_eq!(b.tile(2, 2).kind(), TileKind::Numbered(1));
    assert_eq!(b.tile(4, 2).kind(), TileKind::Numbered(3));
    assert_eq!(b.tile(2, 4).kind(), TileKind::Numbered(3));
}

#[test]
fn a_mine_laid_under_a_number_replaces_it() {
    let mut b = Board::new(Preset::Beginner);
    b.lay_mine(1, 1);
    assert_eq!(b.tile(2, 1).kind(), TileKind::Numbered(1));
    b.lay_mine(2, 1);
    assert_eq!(b.tile(2, 1).kind(), TileKind::Mine);
    assert_eq!(b.tile(1, 1).kind(), TileKind::Mine);
    assert_eq!(b.tile(1, 0).kind(), TileKind::Numbered(2));
    assert_eq!(b.tile(0, 0).kind(), TileKind::Numbered(1));
    assert_eq!(b.tile(3, 0).kind(), TileKind::Numbered(1));
}

#[test]
fn toggling_a_flag_twice_gives_the_tile_back() {
    let mut b = Board::new(Preset::Beginner);
    assert!(b.toggle_flag(2, 6));
    assert!(b.tile(2, 6).is_flagged());
    assert!(!b.tile(2, 5).is_flagged());
    assert_eq!(b.safe_remaining(), 71);
    assert!(b.toggle_flag(2, 6));
    assert!(!b.tile(2, 6).is_flagged());
    for y in 0..9 {
        for x in 0..9 {
            assert!(!b.tile(x, y).is_flagged());
            assert!(!b.tile(x, y).is_revealed());
        }
    }
}

#[test]
fn a_flag_stays_when_a_mine_is_laid_beside_or_under_it() {
    let mut b = Board::new(Preset::Beginner);
    b.toggle_flag(4, 4);
    b.toggle_flag(5, 4);
    b.lay_mine(4, 4);
    assert!(b.tile(4, 4).is_flagged());
    assert!(b.tile(4, 4).is_mine());
    assert!(b.tile(5, 4).is_flagged());
    assert_eq!(b.tile(5, 4).kind(), TileKind::Numbered(1));
}

#[test]
fn the_console_handle_target_has_a_single_value() {
    let target = c_void::Opaque;
    assert!(matches!(target, c_void::Opaque));
}
