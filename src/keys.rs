//! The two-row computer keyboard layout: which key plays which note, and
//! what a key event does to the synthesizer.
use vstd::prelude::*;

verus! {

/// What a key event asks of the synthesizer.
#[derive(Clone, Copy, Debug, PartialEq, Eq, Structural)]
pub enum NoteEvent {
    On(u32),
    Off(u32),
    Nothing,
}

/// The note of a key, in millihertz: the home row A..L plays the white keys
/// C4..D5, and W, E, T, Y, U, O, P the black keys between them.
pub open spec fn key_frequency(key: char) -> Option<u32> {
    match key {
        'a' => Some(261630u32),
        's' => Some(293660u32),
        'd' => Some(329630u32),
        'f' => Some(349230u32),
        'g' => Some(392000u32),
        'h' => Some(440000u32),
        'j' => Some(493880u32),
        'k' => Some(523250u32),
        'l' => Some(587330u32),
        'w' => Some(277180u32),
        'e' => Some(311130u32),
        't' => Some(369990u32),
        'y' => Some(415300u32),
        'u' => Some(466160u32),
        'o' => Some(554370u32),
        'p' => Some(622250u32),
        _ => None,
    }
}

/// The note of a key, if the key plays one.
pub fn get_frequency_from_key(key: char) -> (r: Option<u32>)
    ensures
        r == key_frequency(key),
{
    match key {
        'a' => Some(261630u32),
        's' => Some(293660u32),
        'd' => Some(329630u32),
        'f' => Some(349230u32),
        'g' => Some(392000u32),
        'h' => Some(440000u32),
        'j' => Some(493880u32),
        'k' => Some(523250u32),
        'l' => Some(587330u32),
        'w' => Some(277180u32),
        'e' => Some(311130u32),
        't' => Some(369990u32),
        'y' => Some(415300u32),
        'u' => Some(466160u32),
        'o' => Some(554370u32),
        'p' => Some(622250u32),
        _ => None,
    }
}

/// A press of a playing key starts its note unless it is a key repeat; a
/// release stops it; other keys do nothing.
pub fn key_event(key: char, pressed: bool, repeat: bool) -> (r: NoteEvent)
    ensures
        r == (match key_frequency(key) {
            Some(f) => if pressed {
                if repeat {
                    NoteEvent::Nothing
                } else {
                    NoteEvent::On(f)
                }
            } else {
                NoteEvent::Off(f)
            },
            None => NoteEvent::Nothing,
        }),
        r matches NoteEvent::On(f) ==> f > 0,
{
    match get_frequency_from_key(key) {
        Some(f) => if pressed {
            if repeat {
                NoteEvent::Nothing
            } else {
                NoteEvent::On(f)
            }
        } else {
            NoteEvent::Off(f)
        },
        None => NoteEvent::Nothing,
    }
}

} // verus!
