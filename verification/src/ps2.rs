//! The i8042 PS/2 controller: status bits and configuration bytes.

use vstd::prelude::*;

verus! {

pub const STATUS_OUTPUT_FULL: u8 = 0x01;
pub const STATUS_INPUT_FULL: u8 = 0x02;
pub const STATUS_MOUSE_DATA: u8 = 0x20;
pub const ACK: u8 = 0xfa;

/// Which devices answered when the controller was set up.
#[derive(Clone, Copy, Debug, PartialEq, Eq, Structural)]
pub struct Status {
    pub keyboard: bool,
    pub mouse: bool,
    pub wheel: bool,
}

/// The configuration byte with both port interrupts off and scancode
/// translation on.
pub fn quiet_config(config: u8) -> (r: u8)
    ensures
        r == (config & !0x03u8) | 0x40u8,
{
    (config & !0x03u8) | 0x40u8
}

/// The configuration byte with the keyboard interrupt on, the mouse
/// interrupt on when its port works, and both clocks running.
pub fn active_config(quiet: u8, mouse_port: bool) -> (r: u8)
    ensures
        r == (quiet | 0x01u8 | (if mouse_port { 0x02u8 } else { 0u8 })) & !0x30u8,
{
    (quiet | 0x01u8 | if mouse_port {
        0x02u8
    } else {
        0u8
    }) & !0x30u8
}

/// A byte is waiting, from the device wanted (the mouse or the keyboard).
pub fn data_ready(status: u8, expect_mouse: bool) -> (r: bool)
    ensures
        r == (status & STATUS_OUTPUT_FULL != 0 && ((status & STATUS_MOUSE_DATA != 0) == expect_mouse)),
{
    status & STATUS_OUTPUT_FULL != 0 && ((status & STATUS_MOUSE_DATA) != 0) == expect_mouse
}

/// The controller can take another byte.
pub fn input_clear(status: u8) -> (r: bool)
    ensures
        r == (status & STATUS_INPUT_FULL == 0),
{
    status & STATUS_INPUT_FULL == 0
}

/// A mouse id that reports a wheel.
pub fn wheel_id(id: u8) -> (r: bool)
    ensures
        r == (id == 3 || id == 4),
{
    id == 3 || id == 4
}

} // verus!
