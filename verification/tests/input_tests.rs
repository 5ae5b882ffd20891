use minesweeper::game::InputEvent;
use minesweeper::input::{decode_key, needs_second, KEY_ENTER, KEY_FLAG, KEY_PREFIX};

#[test]
fn enter_reveals() {
    assert_eq!(decode_key(13, None), Some(InputEvent::Reveal));
    assert_eq!(decode_key(KEY_ENTER, Some(72)), Some(InputEvent::Reveal));
}

#[test]
fn f_toggles_a_flag() {
    assert_eq!(decode_key(102, None), Some(InputEvent::ToggleFlag));
    assert_eq!(decode_key(KEY_FLAG, None), Some(InputEvent::ToggleFlag));
}

#[test]
fn arrows_come_after_the_prefix() {
    assert_eq!(decode_key(224, Some(72)), Some(InputEvent::MoveUp));
    assert_eq!(decode_key(224, Some(77)), Some(InputEvent::MoveRight));
    assert_eq!(decode_key(224, Some(80)), Some(InputEvent::MoveDown));
    assert_eq!(decode_key(224, Some(75)), Some(InputEvent::MoveLeft));
}

#[test]
fn prefix_alone_asks_for_more() {
    assert_eq!(decode_key(KEY_PREFIX, None), None);
    assert!(needs_second(224));
    assert!(!needs_second(13));
    assert!(!needs_second(72));
}

#[test]
fn unknown_codes_mean_nothing() {
    assert_eq!(decode_key(224, Some(13)), Some(InputEvent::Empty));
    assert_eq!(decode_key(224, Some(0)), Some(InputEvent::Empty));
    assert_eq!(decode_key(72, None), Some(InputEvent::Empty));
    assert_eq!(decode_key(0, None), Some(InputEvent::Empty));
    assert_eq!(decode_key(-1, Some(72)), Some(InputEvent::Empty));
    assert_eq!(decode_key(27, None), Some(InputEvent::Empty));
}
