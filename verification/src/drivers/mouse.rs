//! PS/2 mouse: three-byte movement packets assembled into events.

use vstd::prelude::*;

verus! {

use crate::input::MouseEvent;

/// The packet being assembled and the buttons last reported.
#[derive(Clone, Copy, Debug, PartialEq, Eq, Structural)]
pub struct MouseState {
    pub packet0: u8,
    pub packet1: u8,
    pub packet2: u8,
    pub index: u8,
    pub left: bool,
    pub right: bool,
    pub middle: bool,
}

impl MouseState {
    pub fn new() -> (s: MouseState)
        ensures
            s.index == 0 && !s.left && !s.right && !s.middle,
    {
        MouseState { packet0: 0, packet1: 0, packet2: 0, index: 0, left: false, right: false, middle: false }
    }
}

/// A delta byte with the sign bit from the flags: 9-bit two's complement.
pub open spec fn delta(byte: u8, negative: bool) -> int {
    if negative { byte - 256 } else { byte as int }
}

/// The state after byte `byte`, and the event it completes, if any.
pub open spec fn mouse_step(s: MouseState, byte: u8) -> (MouseState, Option<MouseEvent>) {
    if s.index == 0 && byte & 0x08 == 0 {
        // Out of sync: bit 3 of a first byte is always set.
        (s, None)
    } else if s.index == 0 {
        (MouseState { packet0: byte, index: 1, ..s }, None)
    } else if s.index == 1 {
        (MouseState { packet1: byte, index: 2, ..s }, None)
    } else {
        let flags = s.packet0;
        let done = MouseState { packet2: byte, index: 0, ..s };
        if flags & 0xC0 != 0 {
            (done, None)
        } else {
            let left = flags & 0x01 != 0;
            let right = flags & 0x02 != 0;
            let middle = flags & 0x04 != 0;
            let ev = MouseEvent {
                dx: delta(s.packet1, flags & 0x10 != 0) as i32,
                dy: (-delta(byte, flags & 0x20 != 0)) as i32,
                left,
                right,
                middle,
                left_changed: left != s.left,
                right_changed: right != s.right,
                middle_changed: middle != s.middle,
            };
            (MouseState { left, right, middle, ..done }, Some(ev))
        }
    }
}

/// Feed one byte from the controller into the packet assembler.
pub fn feed(state: &mut MouseState, byte: u8) -> (r: Option<MouseEvent>)
    requires
        old(state).index < 3,
    ensures
        (*final(state), r) == mouse_step(*old(state), byte),
        final(state).index < 3,
{
    if state.index == 0 && byte & 0x08 == 0 {
        return None;
    }
    if state.index == 0 {
        state.packet0 = byte;
        state.index = 1;
        return None;
    }
    if state.index == 1 {
        state.packet1 = byte;
        state.index = 2;
        return None;
    }
    state.packet2 = byte;
    state.index = 0;
    let flags = state.packet0;
    if flags & 0xC0 != 0 {
        return None;
    }
    let mut dx = state.packet1 as i32;
    let mut dy = byte as i32;
    if flags & 0x10 != 0 {
        dx -= 256;
    }
    if flags & 0x20 != 0 {
        dy -= 256;
    }
    let left = flags & 0x01 != 0;
    let right = flags & 0x02 != 0;
    let middle = flags & 0x04 != 0;
    let event = MouseEvent {
        dx,
        dy: -dy,
        left,
        right,
        middle,
        left_changed: left != state.left,
        right_changed: right != state.right,
        middle_changed: middle != state.middle,
    };
    state.left = left;
    state.right = right;
    state.middle = middle;
    Some(event)
}

} // verus!
