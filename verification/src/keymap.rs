use vstd::prelude::*;

verus! {

/// The keyboard layout the host maps onto the sixteen-key hex keypad:
///
/// ```text
///  1 2 3 4    1 2 3 C
///  q w e r -> 4 5 6 D
///  a s d f    7 8 9 E
///  z x c v    A 0 B F
/// ```
pub open spec fn keypad_of_char(key: char) -> Option<usize> {
    match key {
        '1' => Some(1usize),
        '2' => Some(2usize),
        '3' => Some(3usize),
        '4' => Some(0xCusize),
        'q' => Some(4usize),
        'w' => Some(5usize),
        'e' => Some(6usize),
        'r' => Some(0xDusize),
        'a' => Some(7usize),
        's' => Some(8usize),
        'd' => Some(9usize),
        'f' => Some(0xEusize),
        'z' => Some(0xAusize),
        'x' => Some(0usize),
        'c' => Some(0xBusize),
        'v' => Some(0xFusize),
        _ => None,
    }
}

/// Map a keyboard key to its CHIP-8 keypad index; keys outside the
/// four-by-four block map to nothing. The host hands the character of
/// the physical key that went down or up.
pub fn get_idx_from_keycode(keycode: char) -> (r: Option<usize>)
    ensures
        r == keypad_of_char(keycode),
        r matches Some(k) ==> k < 16,
{
    match keycode {
        '1' => Some(1),
        '2' => Some(2),
        '3' => Some(3),
        '4' => Some(0xC),
        'q' => Some(4),
        'w' => Some(5),
        'e' => Some(6),
        'r' => Some(0xD),
        'a' => Some(7),
        's' => Some(8),
        'd' => Some(9),
        'f' => Some(0xE),
        'z' => Some(0xA),
        'x' => Some(0),
        'c' => Some(0xB),
        'v' => Some(0xF),
        _ => None,
    }
}

} // verus!
