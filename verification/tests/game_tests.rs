use minesweeper::board::Preset;
use minesweeper::game::{Action, Game, GameState, InputEvent};
use minesweeper::rng::Random;
use minesweeper::tile::TileKind;

fn seeded(preset: Preset, seed: u64) -> Game {
    Game::new(preset, Random::new_with_seed(seed))
}

fn move_to(g: &mut Game, x: usize, y: usize) {
    while g.cursor().0 > x {
        g.step(InputEvent::MoveLeft, 0);
    }
    while g.cursor().0 < x {
        g.step(InputEvent::MoveRight, 0);
    }
    while g.cursor().1 > y {
        g.step(InputEvent::MoveUp, 0);
    }
    while g.cursor().1 < y {
        g.step(InputEvent::MoveDown, 0);
    }
    assert_eq!(g.cursor(), (x, y));
}

/// A beginner game from seed 12345 with its first reveal at (4, 4).
fn started() -> Game {
    let mut g = seeded(Preset::Beginner, 12345);
    move_to(&mut g, 4, 4);
    assert_eq!(g.step(InputEvent::Reveal, 5000), Action::DrawBoard);
    g
}

fn revealed_count(g: &Game) -> usize {
    let b = g.board();
    let mut n = 0;
    for y in 0..b.height() {
        for x in 0..b.width() {
            if b.tile(x, y).is_revealed() {
                n += 1;
            }
        }
    }
    n
}

#[test]
fn a_new_game_has_not_started() {
    let g = seeded(Preset::Intermediate, 3);
    assert_eq!(g.state(), GameState::NotStarted);
    assert!(!g.is_over());
    assert_eq!(g.cursor(), (0, 0));
    assert_eq!(g.board().width(), 16);
    assert_eq!(g.board().height(), 16);
    assert_eq!(g.board().mine_count(), 40);
    assert_eq!(g.board().mines_laid(), 0);
    assert_eq!(g.board().safe_remaining(), 216);
    assert_eq!(revealed_count(&g), 0);
}

#[test]
fn the_cursor_moves_by_one_cell() {
    let mut g = seeded(Preset::Beginner, 1);
    assert_eq!(g.step(InputEvent::MoveRight, 0), Action::Nothing);
    assert_eq!(g.cursor(), (1, 0));
    assert_eq!(g.step(InputEvent::MoveDown, 0), Action::Nothing);
    assert_eq!(g.cursor(), (1, 1));
    assert_eq!(g.step(InputEvent::MoveLeft, 0), Action::Nothing);
    assert_eq!(g.cursor(), (0, 1));
    assert_eq!(g.step(InputEvent::MoveUp, 0), Action::Nothing);
    assert_eq!(g.cursor(), (0, 0));
    assert_eq!(g.state(), GameState::NotStarted);
    assert_eq!(g.board().mines_laid(), 0);
}

#[test]
fn the_cursor_stops_at_the_edges() {
    let mut g = seeded(Preset::Expert, 1);
    g.step(InputEvent::MoveLeft, 0);
    assert_eq!(g.cursor(), (0, 0));
    g.step(InputEvent::MoveUp, 0);
    assert_eq!(g.cursor(), (0, 0));
    for _ in 0..40 {
        g.step(InputEvent::MoveRight, 0);
    }
    assert_eq!(g.cursor(), (29, 0));
    for _ in 0..40 {
        g.step(InputEvent::MoveDown, 0);
    }
    assert_eq!(g.cursor(), (29, 15));
    g.step(InputEvent::MoveRight, 0);
    g.step(InputEvent::MoveDown, 0);
    assert_eq!(g.cursor(), (29, 15));
}

#[test]
fn an_empty_event_changes_nothing() {
    let mut g = started();
    let safe = g.board().safe_remaining();
    assert_eq!(g.step(InputEvent::Empty, 9000), Action::Nothing);
    assert_eq!(g.cursor(), (4, 4));
    assert_eq!(g.state(), GameState::InProgress);
    assert_eq!(g.board().safe_remaining(), safe);
    assert_eq!(g.elapsed_seconds(6000), 1);
}

#[test]
fn first_reveal_on_a_beginner_board() {
    let mut g = seeded(Preset::Beginner, 12345);
    move_to(&mut g, 4, 4);
    assert_eq!(g.step(InputEvent::Reveal, 5000), Action::DrawBoard);
    assert_eq!(g.state(), GameState::InProgress);
    assert_eq!(g.board().mines_laid(), 10);
    assert!(g.board().is_placed());
    // the flood from (4, 4) uncovers 46 of the 71 safe tiles
    assert_eq!(g.board().safe_remaining(), 71 - 46);
    assert_eq!(revealed_count(&g), 46);
    assert!(g.board().tile(4, 4).is_revealed());
    assert_eq!(g.board().tile(4, 4).kind(), TileKind::Empty);
    for y in 3..=5 {
        for x in 3..=5 {
            assert!(!g.board().tile(x, y).is_mine());
        }
    }
}

#[test]
fn the_first_reveal_never_hits_a_mine() {
    let spots = [(0, 0), (8, 0), (0, 8), (8, 8), (4, 4), (1, 7), (7, 2), (3, 0)];
    for seed in 0..60u64 {
        for (x, y) in spots {
            let mut g = seeded(Preset::Beginner, seed * 7919 + 1);
            move_to(&mut g, x, y);
            let action = g.step(InputEvent::Reveal, 1);
            assert_ne!(g.state(), GameState::Lost);
            assert_ne!(g.state(), GameState::NotStarted);
            assert_ne!(action, Action::Nothing);
            assert!(g.board().tile(x, y).is_revealed());
            assert_eq!(g.board().tile(x, y).kind(), TileKind::Empty);
            assert_eq!(g.board().mines_laid(), 10);
            assert!(g.board().safe_remaining() < 71);
        }
    }
    for seed in [0u64, 5, 0xffff_ffff] {
        let mut g = seeded(Preset::Expert, seed);
        move_to(&mut g, 29, 15);
        g.step(InputEvent::Reveal, 1);
        assert_ne!(g.state(), GameState::Lost);
        assert_eq!(g.board().mines_laid(), 99);
    }
}

#[test]
fn revealing_a_numbered_tile_draws_that_tile() {
    let mut g = started();
    move_to(&mut g, 2, 4);
    assert_eq!(g.step(InputEvent::Reveal, 6000), Action::DrawTile);
    assert_eq!(g.state(), GameState::InProgress);
    assert_eq!(g.board().tile(2, 4).kind(), TileKind::Numbered(3));
    assert_eq!(g.board().safe_remaining(), 24);
    // a second reveal of the same tile does nothing
    assert_eq!(g.step(InputEvent::Reveal, 7000), Action::Nothing);
    assert_eq!(g.board().safe_remaining(), 24);
    assert_eq!(g.state(), GameState::InProgress);
}

#[test]
fn revealing_a_mine_loses_the_game() {
    let mut g = started();
    let safe = g.board().safe_remaining();
    move_to(&mut g, 1, 5);
    assert!(g.board().tile(1, 5).is_mine());
    assert_eq!(g.step(InputEvent::Reveal, 9000), Action::Finish);
    assert_eq!(g.state(), GameState::Lost);
    assert!(g.is_over());
    assert_eq!(g.board().safe_remaining(), safe);
    assert!(g.board().tile(1, 5).is_revealed());
    assert_eq!(revealed_count(&g), 47);
}

#[test]
fn a_game_that_has_ended_takes_no_event() {
    let mut g = started();
    move_to(&mut g, 1, 5);
    g.step(InputEvent::Reveal, 9000);
    assert_eq!(g.state(), GameState::Lost);
    for event in [
        InputEvent::MoveUp,
        InputEvent::MoveDown,
        InputEvent::MoveLeft,
        InputEvent::MoveRight,
        InputEvent::ToggleFlag,
        InputEvent::Reveal,
        InputEvent::Empty,
    ] {
        assert_eq!(g.step(event, 10000), Action::Nothing);
        assert_eq!(g.cursor(), (1, 5));
        assert_eq!(g.state(), GameState::Lost);
        assert_eq!(revealed_count(&g), 47);
        assert!(!g.board().tile(1, 5).is_flagged());
    }
}

#[test]
fn revealing_every_safe_tile_wins_on_the_last_one() {
    let mut g = started();
    let mut wins = 0;
    let mut reveals = 0;
    for y in 0..9 {
        for x in 0..9 {
            let t = g.board().tile(x, y);
            if t.is_mine() || t.is_revealed() {
                continue;
            }
            assert_eq!(g.state(), GameState::InProgress);
            assert!(g.board().safe_remaining() > 0);
            move_to(&mut g, x, y);
            let before = g.board().safe_remaining();
            let action = g.step(InputEvent::Reveal, 7000);
            reveals += 1;
            assert!(g.board().safe_remaining() < before);
            if g.board().safe_remaining() == 0 {
                assert_eq!(g.state(), GameState::Won);
                assert_eq!(action, Action::Finish);
                assert_eq!((x, y), (8, 8));
                wins += 1;
            } else {
                assert_eq!(g.state(), GameState::InProgress);
                assert_ne!(action, Action::Finish);
            }
        }
    }
    assert_eq!(wins, 1);
    assert_eq!(reveals, 19);
    assert_eq!(g.state(), GameState::Won);
    assert_eq!(g.board().safe_remaining(), 0);
    assert_eq!(revealed_count(&g), 71);
    // the game is over: nothing moves any more
    assert_eq!(g.step(InputEvent::MoveLeft, 8000), Action::Nothing);
    assert_eq!(g.cursor(), (8, 8));
    assert_eq!(g.state(), GameState::Won);
}

#[test]
fn a_flag_is_toggled_on_a_covered_tile_only() {
    let mut g = started();
    move_to(&mut g, 0, 3);
    assert_eq!(g.step(InputEvent::ToggleFlag, 6000), Action::DrawTile);
    assert!(g.board().tile(0, 3).is_flagged());
    assert_eq!(g.state(), GameState::InProgress);
    assert_eq!(g.board().safe_remaining(), 25);
    assert_eq!(g.step(InputEvent::ToggleFlag, 6000), Action::DrawTile);
    assert!(!g.board().tile(0, 3).is_flagged());
    move_to(&mut g, 4, 4);
    assert_eq!(g.step(InputEvent::ToggleFlag, 6000), Action::Nothing);
    assert!(!g.board().tile(4, 4).is_flagged());
    assert!(g.board().tile(4, 4).is_revealed());
}

#[test]
fn a_flagged_tile_is_not_revealed_by_the_player() {
    let mut g = started();
    move_to(&mut g, 1, 5);
    g.step(InputEvent::ToggleFlag, 6000);
    assert_eq!(g.step(InputEvent::Reveal, 6500), Action::Nothing);
    assert_eq!(g.state(), GameState::InProgress);
    assert!(!g.board().tile(1, 5).is_revealed());
    assert!(g.board().tile(1, 5).is_flagged());
    // without the flag the mine goes off
    g.step(InputEvent::ToggleFlag, 7000);
    assert_eq!(g.step(InputEvent::Reveal, 7500), Action::Finish);
    assert_eq!(g.state(), GameState::Lost);
}

#[test]
fn a_flag_does_not_start_the_game() {
    let mut g = seeded(Preset::Beginner, 12345);
    move_to(&mut g, 4, 4);
    assert_eq!(g.step(InputEvent::ToggleFlag, 100), Action::DrawTile);
    assert_eq!(g.state(), GameState::NotStarted);
    assert_eq!(g.board().mines_laid(), 0);
    // a reveal on the flag does nothing either: no mine is laid yet
    assert_eq!(g.step(InputEvent::Reveal, 200), Action::Nothing);
    assert_eq!(g.state(), GameState::NotStarted);
    assert_eq!(g.board().mines_laid(), 0);
    assert_eq!(g.elapsed_seconds(99_000), 0);
    // the flag comes off and the game starts as it would have
    g.step(InputEvent::ToggleFlag, 300);
    assert_eq!(g.step(InputEvent::Reveal, 400), Action::DrawBoard);
    assert_eq!(g.state(), GameState::InProgress);
    assert_eq!(g.board().safe_remaining(), 25);
}

#[test]
fn the_clock_starts_with_the_first_reveal() {
    let mut g = seeded(Preset::Beginner, 12345);
    assert_eq!(g.elapsed_seconds(123_456), 0);
    move_to(&mut g, 4, 4);
    g.step(InputEvent::Reveal, 5000);
    assert_eq!(g.elapsed_seconds(5000), 0);
    assert_eq!(g.elapsed_seconds(5999), 0);
    assert_eq!(g.elapsed_seconds(6000), 1);
    assert_eq!(g.elapsed_seconds(17_999), 12);
    assert_eq!(g.elapsed_seconds(4999), 0);
    assert_eq!(g.elapsed_seconds(0), 0);
    // later reveals leave the start where it is
    move_to(&mut g, 2, 4);
    g.step(InputEvent::Reveal, 60_000);
    assert_eq!(g.elapsed_seconds(65_000), 60);
    assert_eq!(g.elapsed_seconds(u64::MAX), (u64::MAX - 5000) / 1000);
}

#[test]
fn the_layout_depends_on_the_seed_alone() {
    let mut a = seeded(Preset::Intermediate, 4242);
    let mut b = seeded(Preset::Intermediate, 4242);
    move_to(&mut a, 7, 7);
    move_to(&mut b, 7, 7);
    a.step(InputEvent::Reveal, 1);
    b.step(InputEvent::Reveal, 999_999);
    for y in 0..16 {
        for x in 0..16 {
            assert_eq!(a.board().tile(x, y).kind(), b.board().tile(x, y).kind());
            assert_eq!(a.board().tile(x, y).is_revealed(), b.board().tile(x, y).is_revealed());
        }
    }
    assert_eq!(a.board().safe_remaining(), b.board().safe_remaining());
}

#[test]
fn no_step_changes_what_lies_under_a_tile() {
    let mut g = started();
    let mut kinds = Vec::new();
    for y in 0..9 {
        for x in 0..9 {
            kinds.push(g.board().tile(x, y).kind());
        }
    }
    let events = [
        InputEvent::MoveLeft,
        InputEvent::ToggleFlag,
        InputEvent::MoveLeft,
        InputEvent::Reveal,
        InputEvent::MoveDown,
        InputEvent::MoveDown,
        InputEvent::ToggleFlag,
        InputEvent::ToggleFlag,
        InputEvent::Reveal,
        InputEvent::MoveLeft,
        InputEvent::MoveLeft,
        InputEvent::MoveDown,
        InputEvent::MoveDown,
        InputEvent::Reveal,
        InputEvent::Empty,
        InputEvent::MoveUp,
        InputEvent::MoveUp,
        InputEvent::MoveUp,
        InputEvent::Reveal,
        InputEvent::MoveRight,
        InputEvent::Reveal,
    ];
    for event in events {
        g.step(event, 8000);
        for y in 0..9 {
            for x in 0..9 {
                assert_eq!(g.board().tile(x, y).kind(), kinds[y * 9 + x]);
            }
        }
    }
    assert_eq!(g.cursor(), (1, 5));
    assert_eq!(g.state(), GameState::Lost);
    assert_eq!(g.board().safe_remaining(), 13);
}

fn check_invariants(g: &Game, preset: Preset) {
    let b = g.board();
    let (cx, cy) = g.cursor();
    assert!(cx < b.width() && cy < b.height());
    let mut mines = 0;
    let mut shown_safe = 0;
    let mut shown_mines = 0;
    for y in 0..b.height() {
        for x in 0..b.width() {
            let t = b.tile(x, y);
            assert!(!(t.is_revealed() && t.is_flagged()));
            if t.is_mine() {
                mines += 1;
                if t.is_revealed() {
                    shown_mines += 1;
                }
            } else if t.is_revealed() {
                shown_safe += 1;
            }
        }
    }
    let safe = preset.width() * preset.height() - preset.mines();
    assert_eq!(b.safe_remaining(), safe - shown_safe);
    assert_eq!(b.mines_laid(), mines);
    match g.state() {
        GameState::NotStarted => {
            assert_eq!(mines, 0);
            assert_eq!(shown_safe, 0);
        }
        GameState::InProgress => {
            assert_eq!(mines, preset.mines());
            assert_eq!(shown_mines, 0);
            assert!(b.safe_remaining() > 0);
            assert!(shown_safe > 0);
        }
        GameState::Won => {
            assert_eq!(mines, preset.mines());
            assert_eq!(shown_mines, 0);
            assert_eq!(b.safe_remaining(), 0);
        }
        GameState::Lost => {
            assert_eq!(mines, preset.mines());
            assert_eq!(shown_mines, 1);
            assert!(b.safe_remaining() > 0);
        }
    }
}

#[test]
fn random_play_keeps_the_game_well_formed() {
    let events = [
        InputEvent::Empty,
        InputEvent::MoveUp,
        InputEvent::MoveDown,
        InputEvent::MoveLeft,
        InputEvent::MoveRight,
        InputEvent::ToggleFlag,
        InputEvent::Reveal,
        InputEvent::Reveal,
    ];
    let mut choice = Random::new_with_seed(20_240_601);
    let mut won = 0;
    let mut lost = 0;
    for round in 0..150u64 {
        let preset = match round % 3 {
            0 => Preset::Beginner,
            1 => Preset::Intermediate,
            _ => Preset::Expert,
        };
        let mut g = seeded(preset, round * 1_000_003 + 17);
        check_invariants(&g, preset);
        let mut now = 0;
        for _ in 0..400 {
            let event = events[(choice.next() >> 8) as usize % events.len()];
            now += 250;
            let over = g.is_over();
            let state = g.state();
            let cursor = g.cursor();
            let action = g.step(event, now);
            check_invariants(&g, preset);
            if over {
                assert_eq!(action, Action::Nothing);
                assert_eq!(g.state(), state);
                assert_eq!(g.cursor(), cursor);
            }
            assert_eq!(action == Action::Finish, g.is_over() && !over);
        }
        match g.state() {
            GameState::Won => won += 1,
            GameState::Lost => lost += 1,
            _ => {}
        }
    }
    // random play loses much more often than it wins
    assert!(lost > won);
    assert!(lost > 0);
}

#[test]
fn the_first_reveal_is_safe_even_when_the_generator_stands_still() {
    for (x, y) in [(0, 0), (1, 1), (4, 4), (8, 8)] {
        let mut g = seeded(Preset::Beginner, 0xb047_bfc1);
        move_to(&mut g, x, y);
        g.step(InputEvent::Reveal, 1);
        assert_eq!(g.board().mines_laid(), 10);
        assert_ne!(g.state(), GameState::Lost);
        assert!(g.board().tile(x, y).is_revealed());
        check_invariants(&g, Preset::Beginner);
    }
}
