use minesweeper::board::{Board, Preset};
use minesweeper::game::{Game, GameState, InputEvent};
use minesweeper::console::screen_position;
use minesweeper::render::{
    color, decimal, end_message, glyph, render_frame, report, COLOR_FLAG, COLOR_FLAG_RIGHT,
    COLOR_FLAG_WRONG, COLOR_HIDDEN_MINE, COLOR_MINE, COLOR_PLAIN,
};
use minesweeper::rng::Random;
use minesweeper::tile::Tile;

fn text(bytes: Vec<u8>) -> String {
    String::from_utf8(bytes).unwrap()
}

fn lost_game() -> Game {
    let mut g = Game::new(Preset::Beginner, Random::new_with_seed(12345));
    for _ in 0..4 {
        g.step(InputEvent::MoveRight, 0);
        g.step(InputEvent::MoveDown, 0);
    }
    g.step(InputEvent::Reveal, 1000);
    // flags on (0, 3), a mine, and on (0, 4), a safe tile
    for _ in 0..4 {
        g.step(InputEvent::MoveLeft, 0);
    }
    g.step(InputEvent::MoveUp, 0);
    g.step(InputEvent::ToggleFlag, 0);
    g.step(InputEvent::MoveDown, 0);
    g.step(InputEvent::ToggleFlag, 0);
    // the mine at (1, 5)
    g.step(InputEvent::MoveDown, 0);
    g.step(InputEvent::MoveRight, 0);
    g.step(InputEvent::Reveal, 13_500);
    assert_eq!(g.state(), GameState::Lost);
    g
}

#[test]
fn glyphs_of_covered_tiles() {
    let t = Tile::new();
    assert_eq!(glyph(t, false), b'_');
    assert_eq!(glyph(t, true), b'_');
    assert_eq!(glyph(t.flag_toggled(), false), b'$');
    assert_eq!(glyph(t.flag_toggled(), true), b'$');
    assert_eq!(glyph(t.bumped(), false), b'_');
    assert_eq!(glyph(t.mined(), false), b'_');
    assert_eq!(glyph(t.mined(), true), b'!');
    assert_eq!(glyph(t.mined().flag_toggled(), true), b'$');
}

#[test]
fn glyphs_of_revealed_tiles() {
    let mut t = Tile::new();
    assert_eq!(glyph(t.uncovered(), false), b' ');
    let digits = b"12345678";
    for d in digits {
        t = t.bumped();
        assert_eq!(glyph(t.uncovered(), false), *d);
        assert_eq!(glyph(t.uncovered(), true), *d);
    }
    assert_eq!(glyph(Tile::new().mined().uncovered(), false), b'X');
    assert_eq!(glyph(Tile::new().mined().uncovered(), true), b'X');
}

#[test]
fn each_number_has_its_own_colour() {
    let mut t = Tile::new();
    let mut seen: Vec<u8> = Vec::new();
    for _ in 0..8 {
        t = t.bumped();
        let c = color(t.uncovered(), false);
        assert!(!seen.contains(&c));
        assert_ne!(c, COLOR_MINE);
        assert_ne!(c, COLOR_FLAG);
        assert_ne!(c, COLOR_PLAIN);
        seen.push(c);
    }
    assert_eq!(seen, vec![0b1001, 0b0010, 0b1100, 0b0001, 0b0100, 0b0011, 0b1000, 0b1111]);
}

#[test]
fn colours_of_flags_and_mines() {
    let t = Tile::new();
    assert_eq!(color(t, false), COLOR_PLAIN);
    assert_eq!(color(t.uncovered(), false), COLOR_PLAIN);
    assert_eq!(color(t.flag_toggled(), false), COLOR_FLAG);
    assert_eq!(color(t.mined().flag_toggled(), false), COLOR_FLAG);
    assert_eq!(color(t.mined().flag_toggled(), true), COLOR_FLAG_RIGHT);
    assert_eq!(color(t.flag_toggled(), true), COLOR_FLAG_WRONG);
    assert_eq!(color(t.mined(), false), COLOR_PLAIN);
    assert_eq!(color(t.mined(), true), COLOR_HIDDEN_MINE);
    assert_eq!(color(t.mined().uncovered(), false), COLOR_MINE);
    assert_eq!(COLOR_FLAG, 0b1110);
    assert_eq!(COLOR_FLAG_RIGHT, 0b1011);
    assert_eq!(COLOR_FLAG_WRONG, 0b0101);
    assert_eq!(COLOR_PLAIN, 0b0111);
}

#[test]
fn frame_of_a_new_board() {
    let b = Board::new(Preset::Beginner);
    let row = "[ _ _ _ _ _ _ _ _ _ ]\n";
    assert_eq!(text(render_frame(&b, false)), row.repeat(9));
    assert_eq!(text(render_frame(&b, true)), row.repeat(9));
    let e = Board::new(Preset::Expert);
    let frame = render_frame(&e, false);
    assert_eq!(frame.len(), 16 * (2 * 30 + 4));
    assert_eq!(text(frame).lines().count(), 16);
}

#[test]
fn frame_after_the_first_reveal() {
    let mut g = Game::new(Preset::Beginner, Random::new_with_seed(12345));
    for _ in 0..4 {
        g.step(InputEvent::MoveRight, 0);
        g.step(InputEvent::MoveDown, 0);
    }
    g.step(InputEvent::Reveal, 1000);
    let expected = "\
[                   ]
[                   ]
[ 1 2 1 1           ]
[ _ _ _ 1     1 1 1 ]
[ _ _ _ 2   1 2 _ _ ]
[ _ _ _ 1   2 _ _ _ ]
[ _ _ _ 1   2 _ _ _ ]
[ _ _ _ 1 1 2 _ _ _ ]
[ _ _ _ _ _ _ _ _ _ ]
";
    assert_eq!(text(render_frame(g.board(), false)), expected);
}

#[test]
fn frames_of_a_lost_game() {
    let g = lost_game();
    let plain = "\
[                   ]
[                   ]
[ 1 2 1 1           ]
[ $ _ _ 1     1 1 1 ]
[ $ _ _ 2   1 2 _ _ ]
[ _ X _ 1   2 _ _ _ ]
[ _ _ _ 1   2 _ _ _ ]
[ _ _ _ 1 1 2 _ _ _ ]
[ _ _ _ _ _ _ _ _ _ ]
";
    let with_mines = "\
[                   ]
[                   ]
[ 1 2 1 1           ]
[ $ _ ! 1     1 1 1 ]
[ $ _ _ 2   1 2 ! _ ]
[ _ X ! 1   2 ! _ ! ]
[ _ _ _ 1   2 ! _ _ ]
[ _ _ _ 1 1 2 _ _ _ ]
[ _ _ _ _ ! _ _ ! _ ]
";
    assert_eq!(text(render_frame(g.board(), false)), plain);
    assert_eq!(text(render_frame(g.board(), true)), with_mines);
    // the two flags look alike and differ in colour: one is on a mine
    let b = g.board();
    assert_eq!(color(b.tile(0, 3), true), COLOR_FLAG_RIGHT);
    assert_eq!(color(b.tile(0, 4), true), COLOR_FLAG_WRONG);
    assert_eq!(color(b.tile(1, 5), true), COLOR_MINE);
    assert_eq!(color(b.tile(2, 5), true), COLOR_HIDDEN_MINE);
}

#[test]
fn every_glyph_stands_at_its_place_in_the_frame() {
    let g = lost_game();
    let b = g.board();
    for show in [false, true] {
        let frame = render_frame(b, show);
        assert_eq!(frame.len(), 9 * 22);
        for y in 0..9 {
            let line = &frame[y * 22..(y + 1) * 22];
            assert_eq!(line[0], b'[');
            assert_eq!(line[1], b' ');
            assert_eq!(line[20], b']');
            assert_eq!(line[21], b'\n');
            for x in 0..9 {
                assert_eq!(line[2 + 2 * x], glyph(b.tile(x, y), show));
                assert_eq!(line[3 + 2 * x], b' ');
            }
        }
    }
}

#[test]
fn decimal_digits_highest_first() {
    assert_eq!(text(decimal(0)), "0");
    assert_eq!(text(decimal(7)), "7");
    assert_eq!(text(decimal(9)), "9");
    assert_eq!(text(decimal(10)), "10");
    assert_eq!(text(decimal(12)), "12");
    assert_eq!(text(decimal(120)), "120");
    assert_eq!(text(decimal(1000)), "1000");
    assert_eq!(text(decimal(987_654_321)), "987654321");
    assert_eq!(text(decimal(u64::MAX)), "18446744073709551615");
}

#[test]
fn end_messages() {
    assert_eq!(end_message(GameState::Won), "You win!");
    assert_eq!(end_message(GameState::Lost), "Game Over, you clicked a mine!");
    assert_eq!(end_message(GameState::InProgress), "");
    assert_eq!(end_message(GameState::NotStarted), "");
}

#[test]
fn report_of_a_won_and_of_a_lost_game() {
    assert_eq!(text(report(GameState::Won, 12)), "You win!\nPlaytime: 12s\n");
    assert_eq!(text(report(GameState::Won, 0)), "You win!\nPlaytime: 0s\n");
    assert_eq!(
        text(report(GameState::Lost, 3600)),
        "Game Over, you clicked a mine!\nPlaytime: 3600s\n"
    );
}

#[test]
fn report_of_the_lost_game_gives_its_whole_seconds() {
    let g = lost_game();
    // first reveal at 1000 ms, asked at 13 999 ms
    let seconds = g.elapsed_seconds(13_999);
    assert_eq!(seconds, 12);
    assert_eq!(
        text(report(g.state(), seconds)),
        "Game Over, you clicked a mine!\nPlaytime: 12s\n"
    );
}

#[test]
fn the_cursor_stands_on_the_glyph_of_its_tile() {
    assert_eq!(screen_position(0, 0), (2, 0));
    assert_eq!(screen_position(1, 0), (4, 0));
    assert_eq!(screen_position(8, 8), (18, 8));
    assert_eq!(screen_position(29, 15), (60, 15));
}
