use minesweeper::board::{Board, Preset};
use minesweeper::placer::DRAW_LIMIT;
use minesweeper::rng::Random;
use minesweeper::tile::TileKind;

fn mines_of(b: &Board) -> Vec<(usize, usize)> {
    let mut out = Vec::new();
    for y in 0..b.height() {
        for x in 0..b.width() {
            if b.tile(x, y).is_mine() {
                out.push((x, y));
            }
        }
    }
    out
}

fn mines_around(b: &Board, x: usize, y: usize) -> u8 {
    let mut n = 0;
    for v in 0..b.height() {
        for u in 0..b.width() {
            if (u, v) != (x, y) && u.abs_diff(x) <= 1 && v.abs_diff(y) <= 1 && b.tile(u, v).is_mine() {
                n += 1;
            }
        }
    }
    n
}

fn check_placement(preset: Preset, seed: u64, ax: usize, ay: usize) {
    let mut b = Board::new(preset);
    let mut rng = Random::new_with_seed(seed);
    b.place_mines(&mut rng, ax, ay);
    assert!(b.is_placed());
    assert_eq!(b.mines_laid(), preset.mines());
    assert_eq!(mines_of(&b).len(), preset.mines());
    assert_eq!(b.safe_remaining(), preset.width() * preset.height() - preset.mines());
    for y in 0..b.height() {
        for x in 0..b.width() {
            let t = b.tile(x, y);
            assert!(!t.is_revealed());
            assert!(!t.is_flagged());
            if x.abs_diff(ax) <= 1 && y.abs_diff(ay) <= 1 {
                assert!(!t.is_mine());
            }
            let around = mines_around(&b, x, y);
            if t.is_mine() {
                assert_eq!(t.kind(), TileKind::Mine);
            } else if around == 0 {
                assert_eq!(t.kind(), TileKind::Empty);
            } else {
                assert_eq!(t.kind(), TileKind::Numbered(around));
            }
        }
    }
    assert_eq!(b.tile(ax, ay).kind(), TileKind::Empty);
}

#[test]
fn beginner_layout_from_seed_12345() {
    let mut b = Board::new(Preset::Beginner);
    let mut rng = Random::new_with_seed(12345);
    let turns = b.place_mines(&mut rng, 4, 4);
    assert_eq!(turns, 12);
    assert_eq!(
        mines_of(&b),
        vec![(0, 3), (2, 3), (7, 4), (1, 5), (2, 5), (6, 5), (8, 5), (6, 6), (4, 8), (7, 8)]
    );
    // two numbers were drawn for each proposed cell
    assert_eq!(rng.next(), 544284956);
}

#[test]
fn beginner_numbers_from_seed_12345() {
    let mut b = Board::new(Preset::Beginner);
    let mut rng = Random::new_with_seed(12345);
    b.place_mines(&mut rng, 4, 4);
    let rows = [
        "000000000",
        "000000000",
        "121100000",
        "*2*100111",
        "2432012*2",
        "1**102*4*",
        "122102*31",
        "000112221",
        "0001*11*1",
    ];
    for (y, row) in rows.iter().enumerate() {
        for (x, c) in row.chars().enumerate() {
            let expected = match c {
                '*' => TileKind::Mine,
                '0' => TileKind::Empty,
                d => TileKind::Numbered(d as u8 - 48),
            };
            assert_eq!(b.tile(x, y).kind(), expected);
        }
    }
}

#[test]
fn intermediate_layout_from_seed_7() {
    let mut b = Board::new(Preset::Intermediate);
    let mut rng = Random::new_with_seed(7);
    let turns = b.place_mines(&mut rng, 15, 15);
    assert_eq!(turns, 44);
    assert_eq!(rng.next(), 300909925);
    assert_eq!(
        mines_of(&b),
        vec![
            (2, 0), (0, 2), (10, 2), (3, 3), (4, 3), (6, 3), (8, 3), (9, 3), (13, 3), (15, 3),
            (2, 4), (3, 4), (15, 4), (0, 5), (5, 5), (9, 5), (15, 5), (0, 6), (2, 6), (10, 6),
            (0, 7), (6, 7), (7, 7), (1, 8), (7, 8), (11, 8), (13, 8), (15, 8), (0, 9), (1, 10),
            (11, 10), (6, 11), (1, 12), (7, 12), (10, 12), (6, 13), (8, 13), (13, 13), (6, 14),
            (13, 14)
        ]
    );
}

#[test]
fn expert_turns_from_seed_2024() {
    let mut b = Board::new(Preset::Expert);
    let mut rng = Random::new_with_seed(2024);
    let turns = b.place_mines(&mut rng, 0, 0);
    assert_eq!(turns, 110);
    assert_eq!(rng.next(), 2869643336);
    assert_eq!(mines_of(&b).len(), 99);
}

#[test]
fn every_preset_gets_its_mines_and_numbers() {
    for seed in [0u64, 1, 12345, 2024, 0xffff_ffff, 0xdead_beef_0000_0001] {
        check_placement(Preset::Beginner, seed, 4, 4);
        check_placement(Preset::Intermediate, seed, 8, 3);
        check_placement(Preset::Expert, seed, 29, 15);
    }
}

#[test]
fn the_safe_zone_is_clipped_at_corners_and_edges() {
    for seed in 0..40u64 {
        check_placement(Preset::Beginner, seed, 0, 0);
        check_placement(Preset::Beginner, seed, 8, 0);
        check_placement(Preset::Beginner, seed, 0, 8);
        check_placement(Preset::Beginner, seed, 8, 8);
        check_placement(Preset::Beginner, seed, 4, 0);
        check_placement(Preset::Beginner, seed, 0, 5);
    }
}

#[test]
fn the_same_seed_gives_the_same_layout() {
    let mut a = Board::new(Preset::Expert);
    let mut b = Board::new(Preset::Expert);
    let mut ra = Random::new_with_seed(77);
    let mut rb = Random::new_with_seed(77);
    assert_eq!(a.place_mines(&mut ra, 10, 10), b.place_mines(&mut rb, 10, 10));
    assert_eq!(mines_of(&a), mines_of(&b));
}

#[test]
fn flags_set_before_the_placement_stay() {
    let mut b = Board::new(Preset::Beginner);
    b.toggle_flag(0, 3);
    b.toggle_flag(8, 8);
    let mut rng = Random::new_with_seed(12345);
    b.place_mines(&mut rng, 4, 4);
    assert!(b.tile(0, 3).is_flagged());
    assert!(b.tile(0, 3).is_mine());
    assert!(b.tile(8, 8).is_flagged());
    assert_eq!(b.tile(8, 8).kind(), TileKind::Numbered(1));
    assert!(!b.tile(1, 3).is_flagged());
}

#[test]
fn placement_stays_far_below_the_draw_limit() {
    let mut b = Board::new(Preset::Expert);
    let mut rng = Random::new_with_seed(5);
    let turns = b.place_mines(&mut rng, 15, 8);
    assert!(turns >= 99);
    assert!(turns < DRAW_LIMIT);
}

/// The one state that the generator never leaves: every draw from it
/// proposes the cell (1, 1).
const STILL: u64 = 0xb047_bfc1;

#[test]
fn placement_ends_when_the_generator_stands_still() {
    let mut b = Board::new(Preset::Beginner);
    let mut rng = Random::new_with_seed(STILL);
    let turns = b.place_mines(&mut rng, 4, 4);
    // (1, 1) is drawn and taken, every later draw proposes it again, and
    // after the last draw the cells are proposed row by row
    assert_eq!(turns, DRAW_LIMIT + 9);
    assert_eq!(
        mines_of(&b),
        vec![(0, 0), (1, 0), (2, 0), (3, 0), (4, 0), (5, 0), (6, 0), (7, 0), (8, 0), (1, 1)]
    );
    assert_eq!(rng.next(), 0xb047_bfc1);
    assert_eq!(b.tile(0, 1).kind(), TileKind::Numbered(3));
    assert_eq!(b.tile(2, 1).kind(), TileKind::Numbered(4));
    assert_eq!(b.tile(8, 1).kind(), TileKind::Numbered(2));
    assert_eq!(b.tile(4, 4).kind(), TileKind::Empty);
}

#[test]
fn placement_ends_when_every_draw_falls_into_the_safe_zone() {
    let mut b = Board::new(Preset::Beginner);
    let mut rng = Random::new_with_seed(STILL);
    let turns = b.place_mines(&mut rng, 0, 0);
    assert_eq!(turns, DRAW_LIMIT + 14);
    assert_eq!(
        mines_of(&b),
        vec![(2, 0), (3, 0), (4, 0), (5, 0), (6, 0), (7, 0), (8, 0), (2, 1), (3, 1), (4, 1)]
    );
}

#[test]
fn a_standing_generator_fills_every_preset() {
    check_placement(Preset::Beginner, STILL, 1, 1);
    check_placement(Preset::Intermediate, STILL, 0, 0);
    check_placement(Preset::Expert, STILL, 29, 15);
    let mut b = Board::new(Preset::Expert);
    let mut rng = Random::new_with_seed(STILL);
    assert_eq!(b.place_mines(&mut rng, 0, 0), 65639);
}
