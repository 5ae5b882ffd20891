//! From key codes to input events.
//!
//! The keyboard hands out one code for a plain key. An arrow key comes as
//! two codes: a prefix, then the code of the arrow.

use vstd::prelude::*;
use crate::game::InputEvent;

verus! {

/// The code of the Enter key, which reveals.
pub const KEY_ENTER: i32 = 13;

/// The code of the key `f`, which toggles a flag.
pub const KEY_FLAG: i32 = 102;

/// The code that comes before the code of an arrow key.
pub const KEY_PREFIX: i32 = 224;

/// The second code of the arrow up.
pub const KEY_UP: i32 = 72;

/// The second code of the arrow to the right.
pub const KEY_RIGHT: i32 = 77;

/// The second code of the arrow down.
pub const KEY_DOWN: i32 = 80;

/// The second code of the arrow to the left.
pub const KEY_LEFT: i32 = 75;

/// The event of the arrow key with the given second code; no event for
/// any other code.
pub open spec fn arrow_event(second: i32) -> InputEvent {
    if second == KEY_UP {
        InputEvent::MoveUp
    } else if second == KEY_RIGHT {
        InputEvent::MoveRight
    } else if second == KEY_DOWN {
        InputEvent::MoveDown
    } else if second == KEY_LEFT {
        InputEvent::MoveLeft
    } else {
        InputEvent::Empty
    }
}

/// The event that the codes read so far stand for, or `None` where the
/// first code is the prefix and the second is still to be read.
pub open spec fn key_event(first: i32, second: Option<i32>) -> Option<InputEvent> {
    if first == KEY_ENTER {
        Some(InputEvent::Reveal)
    } else if first == KEY_FLAG {
        Some(InputEvent::ToggleFlag)
    } else if first == KEY_PREFIX {
        match second {
            Some(code) => Some(arrow_event(code)),
            None => None,
        }
    } else {
        Some(InputEvent::Empty)
    }
}

/// Whether another code has to be read after `first`.
pub fn needs_second(first: i32) -> (b: bool)
    ensures
        b == (key_event(first, None) is None),
        b == (first == KEY_PREFIX),
{
    first == KEY_PREFIX
}

/// Decodes the codes of one key. After a first code that is not the
/// prefix, a second code is not looked at.
pub fn decode_key(first: i32, second: Option<i32>) -> (event: Option<InputEvent>)
    ensures
        event == key_event(first, second),
        event is None <==> first == KEY_PREFIX && second is None,
{
    if first == KEY_ENTER {
        Some(InputEvent::Reveal)
    } else if first == KEY_FLAG {
        Some(InputEvent::ToggleFlag)
    } else if first == KEY_PREFIX {
        match second {
            Some(code) => {
                if code == KEY_UP {
                    Some(InputEvent::MoveUp)
                } else if code == KEY_RIGHT {
                    Some(InputEvent::MoveRight)
                } else if code == KEY_DOWN {
                    Some(InputEvent::MoveDown)
                } else if code == KEY_LEFT {
                    Some(InputEvent::MoveLeft)
                } else {
                    Some(InputEvent::Empty)
                }
            },
            None => None,
        }
    } else {
        Some(InputEvent::Empty)
    }
}

} // verus!
