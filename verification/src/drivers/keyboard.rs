//! PS/2 keyboard, scancode set 1: bytes in, key events out.

use vstd::prelude::*;

verus! {

use crate::input::{Key, KeyEvent, Modifiers};

/// (unshifted, shifted) byte of every key that produces a character.
/// Anything not listed is a modifier or one of the `special` keys.
pub open spec fn layout(code: u8) -> Option<(u8, u8)> {
    match code {
        0x02 => Some((0x31u8, 0x21u8)),
        0x03 => Some((0x32u8, 0x40u8)),
        0x04 => Some((0x33u8, 0x23u8)),
        0x05 => Some((0x34u8, 0x24u8)),
        0x06 => Some((0x35u8, 0x25u8)),
        0x07 => Some((0x36u8, 0x5Eu8)),
        0x08 => Some((0x37u8, 0x26u8)),
        0x09 => Some((0x38u8, 0x2Au8)),
        0x0A => Some((0x39u8, 0x28u8)),
        0x0B => Some((0x30u8, 0x29u8)),
        0x0C => Some((0x2Du8, 0x5Fu8)),
        0x0D => Some((0x3Du8, 0x2Bu8)),
        0x10 => Some((0x71u8, 0x51u8)),
        0x11 => Some((0x77u8, 0x57u8)),
        0x12 => Some((0x65u8, 0x45u8)),
        0x13 => Some((0x72u8, 0x52u8)),
        0x14 => Some((0x74u8, 0x54u8)),
        0x15 => Some((0x79u8, 0x59u8)),
        0x16 => Some((0x75u8, 0x55u8)),
        0x17 => Some((0x69u8, 0x49u8)),
        0x18 => Some((0x6Fu8, 0x4Fu8)),
        0x19 => Some((0x70u8, 0x50u8)),
        0x1A => Some((0x5Bu8, 0x7Bu8)),
        0x1B => Some((0x5Du8, 0x7Du8)),
        0x1E => Some((0x61u8, 0x41u8)),
        0x1F => Some((0x73u8, 0x53u8)),
        0x20 => Some((0x64u8, 0x44u8)),
        0x21 => Some((0x66u8, 0x46u8)),
        0x22 => Some((0x67u8, 0x47u8)),
        0x23 => Some((0x68u8, 0x48u8)),
        0x24 => Some((0x6Au8, 0x4Au8)),
        0x25 => Some((0x6Bu8, 0x4Bu8)),
        0x26 => Some((0x6Cu8, 0x4Cu8)),
        0x27 => Some((0x3Bu8, 0x3Au8)),
        0x28 => Some((0x27u8, 0x22u8)),
        0x29 => Some((0x60u8, 0x7Eu8)),
        0x2B => Some((0x5Cu8, 0x7Cu8)),
        0x2C => Some((0x7Au8, 0x5Au8)),
        0x2D => Some((0x78u8, 0x58u8)),
        0x2E => Some((0x63u8, 0x43u8)),
        0x2F => Some((0x76u8, 0x56u8)),
        0x30 => Some((0x62u8, 0x42u8)),
        0x31 => Some((0x6Eu8, 0x4Eu8)),
        0x32 => Some((0x6Du8, 0x4Du8)),
        0x33 => Some((0x2Cu8, 0x3Cu8)),
        0x34 => Some((0x2Eu8, 0x3Eu8)),
        0x35 => Some((0x2Fu8, 0x3Fu8)),
        0x39 => Some((0x20u8, 0x20u8)),
        _ => None,
    }
}

/// The character byte for make code `code`, shifted or not.
fn character(code: u8, shift: bool) -> (r: Option<u8>)
    ensures
        r == match layout(code) {
            Some(pair) => Some(if shift { pair.1 } else { pair.0 }),
            None => None,
        },
{
    let pair: Option<(u8, u8)> = match code {
        0x02 => Some((0x31u8, 0x21u8)),
        0x03 => Some((0x32u8, 0x40u8)),
        0x04 => Some((0x33u8, 0x23u8)),
        0x05 => Some((0x34u8, 0x24u8)),
        0x06 => Some((0x35u8, 0x25u8)),
        0x07 => Some((0x36u8, 0x5Eu8)),
        0x08 => Some((0x37u8, 0x26u8)),
        0x09 => Some((0x38u8, 0x2Au8)),
        0x0A => Some((0x39u8, 0x28u8)),
        0x0B => Some((0x30u8, 0x29u8)),
        0x0C => Some((0x2Du8, 0x5Fu8)),
        0x0D => Some((0x3Du8, 0x2Bu8)),
        0x10 => Some((0x71u8, 0x51u8)),
        0x11 => Some((0x77u8, 0x57u8)),
        0x12 => Some((0x65u8, 0x45u8)),
        0x13 => Some((0x72u8, 0x52u8)),
        0x14 => Some((0x74u8, 0x54u8)),
        0x15 => Some((0x79u8, 0x59u8)),
        0x16 => Some((0x75u8, 0x55u8)),
        0x17 => Some((0x69u8, 0x49u8)),
        0x18 => Some((0x6Fu8, 0x4Fu8)),
        0x19 => Some((0x70u8, 0x50u8)),
        0x1A => Some((0x5Bu8, 0x7Bu8)),
        0x1B => Some((0x5Du8, 0x7Du8)),
        0x1E => Some((0x61u8, 0x41u8)),
        0x1F => Some((0x73u8, 0x53u8)),
        0x20 => Some((0x64u8, 0x44u8)),
        0x21 => Some((0x66u8, 0x46u8)),
        0x22 => Some((0x67u8, 0x47u8)),
        0x23 => Some((0x68u8, 0x48u8)),
        0x24 => Some((0x6Au8, 0x4Au8)),
        0x25 => Some((0x6Bu8, 0x4Bu8)),
        0x26 => Some((0x6Cu8, 0x4Cu8)),
        0x27 => Some((0x3Bu8, 0x3Au8)),
        0x28 => Some((0x27u8, 0x22u8)),
        0x29 => Some((0x60u8, 0x7Eu8)),
        0x2B => Some((0x5Cu8, 0x7Cu8)),
        0x2C => Some((0x7Au8, 0x5Au8)),
        0x2D => Some((0x78u8, 0x58u8)),
        0x2E => Some((0x63u8, 0x43u8)),
        0x2F => Some((0x76u8, 0x56u8)),
        0x30 => Some((0x62u8, 0x42u8)),
        0x31 => Some((0x6Eu8, 0x4Eu8)),
        0x32 => Some((0x6Du8, 0x4Du8)),
        0x33 => Some((0x2Cu8, 0x3Cu8)),
        0x34 => Some((0x2Eu8, 0x3Eu8)),
        0x35 => Some((0x2Fu8, 0x3Fu8)),
        0x39 => Some((0x20u8, 0x20u8)),
        _ => None,
    };
    match pair {
        Some(p) => Some(if shift { p.1 } else { p.0 }),
        None => None,
    }
}

/// Non-character keys on the main block.
pub open spec fn special_key(code: u8) -> Option<Key> {
    match code {
        0x01 => Some(Key::Escape),
        0x0E => Some(Key::Backspace),
        0x0F => Some(Key::Tab),
        0x1C => Some(Key::Enter),
        0x3A => Some(Key::CapsLock),
        0x3B => Some(Key::F1),
        0x3C => Some(Key::F2),
        0x3D => Some(Key::F3),
        0x3E => Some(Key::F4),
        0x3F => Some(Key::F5),
        0x40 => Some(Key::F6),
        0x41 => Some(Key::F7),
        0x42 => Some(Key::F8),
        0x43 => Some(Key::F9),
        0x44 => Some(Key::F10),
        0x57 => Some(Key::F11),
        0x58 => Some(Key::F12),
        _ => None,
    }
}

fn special(code: u8) -> (r: Option<Key>)
    ensures
        r == special_key(code),
{
    match code {
        0x01 => Some(Key::Escape),
        0x0E => Some(Key::Backspace),
        0x0F => Some(Key::Tab),
        0x1C => Some(Key::Enter),
        0x3A => Some(Key::CapsLock),
        0x3B => Some(Key::F1),
        0x3C => Some(Key::F2),
        0x3D => Some(Key::F3),
        0x3E => Some(Key::F4),
        0x3F => Some(Key::F5),
        0x40 => Some(Key::F6),
        0x41 => Some(Key::F7),
        0x42 => Some(Key::F8),
        0x43 => Some(Key::F9),
        0x44 => Some(Key::F10),
        0x57 => Some(Key::F11),
        0x58 => Some(Key::F12),
        _ => None,
    }
}

/// Keys reached through the 0xE0 prefix.
pub open spec fn extended_key(code: u8) -> Option<Key> {
    match code {
        0x48 => Some(Key::Up),
        0x50 => Some(Key::Down),
        0x4B => Some(Key::Left),
        0x4D => Some(Key::Right),
        0x47 => Some(Key::Home),
        0x4F => Some(Key::End),
        0x49 => Some(Key::PageUp),
        0x51 => Some(Key::PageDown),
        0x52 => Some(Key::Insert),
        0x53 => Some(Key::Delete),
        0x1C => Some(Key::Enter),
        _ => None,
    }
}

fn extended(code: u8) -> (r: Option<Key>)
    ensures
        r == extended_key(code),
{
    match code {
        0x48 => Some(Key::Up),
        0x50 => Some(Key::Down),
        0x4B => Some(Key::Left),
        0x4D => Some(Key::Right),
        0x47 => Some(Key::Home),
        0x4F => Some(Key::End),
        0x49 => Some(Key::PageUp),
        0x51 => Some(Key::PageDown),
        0x52 => Some(Key::Insert),
        0x53 => Some(Key::Delete),
        0x1C => Some(Key::Enter),
        _ => None,
    }
}

/// An ASCII letter.
pub open spec fn is_letter(b: u8) -> bool {
    (0x41 <= b <= 0x5A) || (0x61 <= b <= 0x7A)
}

/// Caps Lock inverts the shift decision, for letters only.
pub open spec fn caps_adjusted(b: u8, caps: bool, shift: bool) -> u8 {
    if caps && is_letter(b) {
        if shift {
            if 0x41 <= b <= 0x5A { (b + 0x20) as u8 } else { b }
        } else {
            if 0x61 <= b <= 0x7A { (b - 0x20) as u8 } else { b }
        }
    } else {
        b
    }
}

/// What the decoder remembers between bytes.
#[derive(Clone, Copy, Debug, PartialEq, Eq, Structural)]
pub struct KeyboardState {
    pub extended_pending: bool,
    pub shift_left: bool,
    pub shift_right: bool,
    pub ctrl: bool,
    pub alt: bool,
    pub caps: bool,
}

impl KeyboardState {
    pub fn new() -> (s: KeyboardState)
        ensures
            !s.extended_pending && !s.shift_left && !s.shift_right && !s.ctrl && !s.alt && !s.caps,
    {
        KeyboardState {
            extended_pending: false,
            shift_left: false,
            shift_right: false,
            ctrl: false,
            alt: false,
            caps: false,
        }
    }
}

/// The state after byte `byte`, and whether the byte completed a key event.
pub open spec fn step(s: KeyboardState, byte: u8) -> (KeyboardState, Option<KeyEvent>) {
    if byte == 0xE0 {
        (KeyboardState { extended_pending: true, ..s }, None)
    } else {
        let released = byte >= 0x80;
        let code = (byte % 0x80) as u8;
        let ext = s.extended_pending;
        let s0 = KeyboardState { extended_pending: false, ..s };
        if !ext && code == 0x2A {
            (KeyboardState { shift_left: !released, ..s0 }, None)
        } else if !ext && code == 0x36 {
            (KeyboardState { shift_right: !released, ..s0 }, None)
        } else if code == 0x1D {
            (KeyboardState { ctrl: !released, ..s0 }, None)
        } else if code == 0x38 {
            (KeyboardState { alt: !released, ..s0 }, None)
        } else {
            let s1 = if !ext && code == 0x3A && !released { KeyboardState { caps: !s0.caps, ..s0 } } else { s0 };
            let shift = s1.shift_left || s1.shift_right;
            let mods = Modifiers { shift, ctrl: s1.ctrl, alt: s1.alt, caps: s1.caps };
            let (key, ch): (Option<Key>, Option<char>) = if ext {
                (extended_key(code), None)
            } else if special_key(code) is Some {
                (special_key(code), None)
            } else {
                match layout(code) {
                    Some(pair) => {
                        let b = if shift { pair.1 } else { pair.0 };
                        (Some(Key::Char), Some(caps_adjusted(b, s1.caps, shift) as char))
                    },
                    None => (None, None),
                }
            };
            match key {
                Some(k) => (s1, Some(KeyEvent { key: k, character: ch, pressed: !released, modifiers: mods })),
                None => (s1, None),
            }
        }
    }
}

/// Process one scancode byte: update the modifier state and report the
/// key event it completes, if any.
pub fn feed(state: &mut KeyboardState, byte: u8) -> (r: Option<KeyEvent>)
    ensures
        (*final(state), r) == step(*old(state), byte),
{
    if byte == 0xE0 {
        state.extended_pending = true;
        return None;
    }
    let released = byte & 0x80 != 0;
    let code = byte & 0x7F;
    proof {
        assert(byte & 0x80 != 0 <==> byte >= 0x80) by (bit_vector);
        assert(byte & 0x7F == byte % 0x80) by (bit_vector);
    }
    let was_extended = state.extended_pending;
    state.extended_pending = false;

    if !was_extended {
        if code == 0x2A {
            state.shift_left = !released;
            return None;
        }
        if code == 0x36 {
            state.shift_right = !released;
            return None;
        }
        if code == 0x1D {
            state.ctrl = !released;
            return None;
        }
        if code == 0x38 {
            state.alt = !released;
            return None;
        }
        if code == 0x3A && !released {
            state.caps = !state.caps;
        }
    } else if code == 0x1D {
        state.ctrl = !released;
        return None;
    } else if code == 0x38 {
        state.alt = !released;
        return None;
    }

    let shift = state.shift_left || state.shift_right;
    let modifiers = Modifiers { shift, ctrl: state.ctrl, alt: state.alt, caps: state.caps };

    let key_and_char: (Option<Key>, Option<char>) = if was_extended {
        (extended(code), None)
    } else {
        match special(code) {
            Some(k) => (Some(k), None),
            None => match character(code, shift) {
                Some(b) => {
                    let letter = (b >= 0x41 && b <= 0x5A) || (b >= 0x61 && b <= 0x7A);
                    let b2 = if state.caps && letter {
                        if shift {
                            if b >= 0x41 && b <= 0x5A { b + 0x20 } else { b }
                        } else {
                            if b >= 0x61 && b <= 0x7A { b - 0x20 } else { b }
                        }
                    } else {
                        b
                    };
                    (Some(Key::Char), Some(b2 as char))
                },
                None => (None, None),
            },
        }
    };
    match key_and_char.0 {
        Some(k) => Some(KeyEvent { key: k, character: key_and_char.1, pressed: !released, modifiers }),
        None => None,
    }
}

} // verus!
