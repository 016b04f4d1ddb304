//! Keyboard and mouse input: PS/2 scancode and packet decoding, the
//! interrupt-side queues, and the packets handed to userspace.

use crate::bytes::{le32, put_u32};
use vstd::prelude::*;

verus! {

pub const PACKET_BYTES: usize = 24;

pub const INPUT_KEY: u32 = 1;

pub const INPUT_MOUSE: u32 = 2;

pub const KEY_TAB: u32 = 0x100;

pub const KEY_ENTER: u32 = 0x101;

pub const KEY_ESCAPE: u32 = 0x102;

pub const KEY_BACKSPACE: u32 = 0x103;

pub const KEY_F12: u32 = 0x104;

pub const KEY_ARROW_UP: u32 = 0x110;

pub const KEY_ARROW_DOWN: u32 = 0x111;

pub const KEY_ARROW_LEFT: u32 = 0x112;

pub const KEY_ARROW_RIGHT: u32 = 0x113;

pub const SCANCODE_CAPACITY: usize = 256;

pub const MOUSE_CAPACITY: usize = 128;

#[derive(Debug, Clone, Copy, PartialEq, Eq, Structural)]
pub enum Key {
    Char(u8),
    Tab,
    Enter,
    Backspace,
    Escape,
    F12,
    ArrowUp,
    ArrowDown,
    ArrowLeft,
    ArrowRight,
}

#[derive(Clone, Copy, Debug, Default, PartialEq, Eq, Structural)]
pub struct MouseEvent {
    pub dx: i16,
    pub dy: i16,
    pub wheel: i8,
    pub buttons: u8,
}

#[derive(Clone, Copy, Debug, Default)]
pub struct InputPacket {
    pub kind: u32,
    pub code: u32,
    pub x: i32,
    pub y: i32,
    pub z: i32,
    pub flags: u32,
}

impl InputPacket {
    /// The packet's wire form: six little-endian 32-bit fields.
    pub fn encode(self) -> (r: [u8; PACKET_BYTES])
        ensures
            le32(r@, 0) == self.kind,
            le32(r@, 4) == self.code,
            le32(r@, 8) == self.x as u32,
            le32(r@, 12) == self.y as u32,
            le32(r@, 16) == self.z as u32,
            le32(r@, 20) == self.flags,
    {
        let mut bytes = [0u8; PACKET_BYTES];
        put_u32(&mut bytes, 0, self.kind);
        put_u32(&mut bytes, 4, self.code);
        put_u32(&mut bytes, 8, self.x as u32);
        put_u32(&mut bytes, 12, self.y as u32);
        put_u32(&mut bytes, 16, self.z as u32);
        put_u32(&mut bytes, 20, self.flags);
        bytes
    }
}

/// The code a key is reported with: its byte for characters, a code from
/// `0x100` on for the others.
pub open spec fn key_code_spec(key: Key) -> u32 {
    match key {
        Key::Char(byte) => byte as u32,
        Key::Tab => KEY_TAB,
        Key::Enter => KEY_ENTER,
        Key::Escape => KEY_ESCAPE,
        Key::Backspace => KEY_BACKSPACE,
        Key::F12 => KEY_F12,
        Key::ArrowUp => KEY_ARROW_UP,
        Key::ArrowDown => KEY_ARROW_DOWN,
        Key::ArrowLeft => KEY_ARROW_LEFT,
        Key::ArrowRight => KEY_ARROW_RIGHT,
    }
}

/// The code a key is reported with.
pub fn key_code(key: Key) -> (r: u32)
    ensures
        r == key_code_spec(key),
{
    match key {
        Key::Char(byte) => byte as u32,
        Key::Tab => KEY_TAB,
        Key::Enter => KEY_ENTER,
        Key::Escape => KEY_ESCAPE,
        Key::Backspace => KEY_BACKSPACE,
        Key::F12 => KEY_F12,
        Key::ArrowUp => KEY_ARROW_UP,
        Key::ArrowDown => KEY_ARROW_DOWN,
        Key::ArrowLeft => KEY_ARROW_LEFT,
        Key::ArrowRight => KEY_ARROW_RIGHT,
    }
}

/// The packet reporting a key press.
pub fn key_packet(key: Key) -> (r: InputPacket)
    ensures
        r.kind == INPUT_KEY,
        r.code == key_code_spec(key),
        r.x == 0 && r.y == 0 && r.z == 0,
        r.flags == 1,
{
    InputPacket { kind: INPUT_KEY, code: key_code(key), x: 0, y: 0, z: 0, flags: 1 }
}

/// The packet reporting a mouse event.
pub fn mouse_packet(event: MouseEvent) -> (r: InputPacket)
    ensures
        r.kind == INPUT_MOUSE,
        r.code == 0,
        r.x == event.dx,
        r.y == event.dy,
        r.z == event.wheel,
        r.flags == event.buttons,
{
    InputPacket {
        kind: INPUT_MOUSE,
        code: 0,
        x: event.dx as i32,
        y: event.dy as i32,
        z: event.wheel as i32,
        flags: event.buttons as u32,
    }
}

/// A bounded queue of raw scancodes, filled from the keyboard interrupt.
/// When full, the oldest byte makes room for a new one.
pub struct ScancodeQueue {
    bytes: [u8; SCANCODE_CAPACITY],
    read: usize,
    write: usize,
    len: usize,
}

impl ScancodeQueue {
    #[verifier::type_invariant]
    closed spec fn inv(&self) -> bool {
        &&& self.read < SCANCODE_CAPACITY
        &&& self.len <= SCANCODE_CAPACITY
        &&& self.write == (self.read + self.len) % SCANCODE_CAPACITY as int
    }

    /// The queued bytes, oldest first.
    pub closed spec fn contents(&self) -> Seq<u8> {
        Seq::new(
            self.len as nat,
            |i: int| self.bytes@[(self.read + i) % SCANCODE_CAPACITY as int],
        )
    }

    pub fn new() -> (r: Self)
        ensures
            r.contents().len() == 0,
    {
        ScancodeQueue { bytes: [0u8; SCANCODE_CAPACITY], read: 0, write: 0, len: 0 }
    }

    /// Queues `byte`, dropping the oldest byte when the queue is full.
    pub fn push(&mut self, byte: u8)
        ensures
            final(self).contents() == if old(self).contents().len() == SCANCODE_CAPACITY {
                old(self).contents().drop_first().push(byte)
            } else {
                old(self).contents().push(byte)
            },
    {
        proof {
            use_type_invariant(&*self);
        }
        let ghost before = self.contents();
        let mut read = self.read;
        let mut len = self.len;
        if len == SCANCODE_CAPACITY {
            read = (read + 1) % SCANCODE_CAPACITY;
            len = len - 1;
        }
        let mut bytes = self.bytes;
        let write = self.write;
        bytes[write] = byte;
        *self = ScancodeQueue { bytes, read, write: (write + 1) % SCANCODE_CAPACITY, len: len + 1 };
        proof {
            let expected = if before.len() == SCANCODE_CAPACITY {
                before.drop_first().push(byte)
            } else {
                before.push(byte)
            };
            assert forall|i: int| 0 <= i < self.contents().len() implies self.contents()[i]
                == expected[i] by {
                if i < len {
                    assert((read + i) % SCANCODE_CAPACITY as int != write as int) by {
                        vstd::arithmetic::div_mod::lemma_mod_bound(read + i, SCANCODE_CAPACITY as int);
                    }
                    if before.len() == SCANCODE_CAPACITY {
                        assert((old(self).read + (i + 1)) % SCANCODE_CAPACITY as int == (read
                            + i) % SCANCODE_CAPACITY as int) by {
                            vstd::arithmetic::div_mod::lemma_add_mod_noop(
                                old(self).read + 1,
                                i,
                                SCANCODE_CAPACITY as int,
                            );
                            vstd::arithmetic::div_mod::lemma_mod_twice(
                                old(self).read + 1,
                                SCANCODE_CAPACITY as int,
                            );
                            vstd::arithmetic::div_mod::lemma_add_mod_noop(
                                (old(self).read + 1) % SCANCODE_CAPACITY as int,
                                i,
                                SCANCODE_CAPACITY as int,
                            );
                        }
                    }
                } else {
                    assert((read + i) % SCANCODE_CAPACITY as int == write as int);
                }
            }
            assert(self.contents() =~= expected);
        }
    }

    /// Takes the oldest byte, if any.
    pub fn pop(&mut self) -> (r: Option<u8>)
        ensures
            old(self).contents().len() == 0 ==> r is None && final(self).contents().len() == 0,
            old(self).contents().len() > 0 ==> r == Some(old(self).contents()[0]) && final(self).contents() == old(self).contents().drop_first(),
    {
        proof {
            use_type_invariant(&*self);
        }
        if self.len == 0 {
            return None;
        }
        let byte = self.bytes[self.read];
        let ghost before = self.contents();
        let read = (self.read + 1) % SCANCODE_CAPACITY;
        *self = ScancodeQueue { bytes: self.bytes, read, write: self.write, len: self.len - 1 };
        proof {
            assert forall|i: int| 0 <= i < self.contents().len() implies self.contents()[i]
                == before.drop_first()[i] by {
                vstd::arithmetic::div_mod::lemma_add_mod_noop(
                    old(self).read + 1,
                    i,
                    SCANCODE_CAPACITY as int,
                );
                vstd::arithmetic::div_mod::lemma_mod_twice(old(self).read + 1, SCANCODE_CAPACITY as int);
                vstd::arithmetic::div_mod::lemma_add_mod_noop(
                    (old(self).read + 1) % SCANCODE_CAPACITY as int,
                    i,
                    SCANCODE_CAPACITY as int,
                );
            }
            assert(self.contents() =~= before.drop_first());
        }
        Some(byte)
    }

    /// Empties the queue.
    pub fn clear(&mut self)
        ensures
            final(self).contents().len() == 0,
    {
        *self = ScancodeQueue { bytes: self.bytes, read: 0, write: 0, len: 0 };
    }
}

/// The lowercase letter a scancode stands for, if any.
pub open spec fn letter_of(code: u8) -> Option<u8> {
    if code == 0x10 { Some(0x71u8) }
    else if code == 0x11 { Some(0x77u8) }
    else if code == 0x12 { Some(0x65u8) }
    else if code == 0x13 { Some(0x72u8) }
    else if code == 0x14 { Some(0x74u8) }
    else if code == 0x15 { Some(0x79u8) }
    else if code == 0x16 { Some(0x75u8) }
    else if code == 0x17 { Some(0x69u8) }
    else if code == 0x18 { Some(0x6fu8) }
    else if code == 0x19 { Some(0x70u8) }
    else if code == 0x1e { Some(0x61u8) }
    else if code == 0x1f { Some(0x73u8) }
    else if code == 0x20 { Some(0x64u8) }
    else if code == 0x21 { Some(0x66u8) }
    else if code == 0x22 { Some(0x67u8) }
    else if code == 0x23 { Some(0x68u8) }
    else if code == 0x24 { Some(0x6au8) }
    else if code == 0x25 { Some(0x6bu8) }
    else if code == 0x26 { Some(0x6cu8) }
    else if code == 0x2c { Some(0x7au8) }
    else if code == 0x2d { Some(0x78u8) }
    else if code == 0x2e { Some(0x63u8) }
    else if code == 0x2f { Some(0x76u8) }
    else if code == 0x30 { Some(0x62u8) }
    else if code == 0x31 { Some(0x6eu8) }
    else if code == 0x32 { Some(0x6du8) }
    else { None }
}

/// The unshifted and shifted characters of a non-letter scancode, if any.
pub open spec fn pair_of(code: u8) -> Option<(u8, u8)> {
    if code == 0x02 { Some((0x31u8, 0x21u8)) }
    else if code == 0x03 { Some((0x32u8, 0x40u8)) }
    else if code == 0x04 { Some((0x33u8, 0x23u8)) }
    else if code == 0x05 { Some((0x34u8, 0x24u8)) }
    else if code == 0x06 { Some((0x35u8, 0x25u8)) }
    else if code == 0x07 { Some((0x36u8, 0x5eu8)) }
    else if code == 0x08 { Some((0x37u8, 0x26u8)) }
    else if code == 0x09 { Some((0x38u8, 0x2au8)) }
    else if code == 0x0a { Some((0x39u8, 0x28u8)) }
    else if code == 0x0b { Some((0x30u8, 0x29u8)) }
    else if code == 0x0c { Some((0x2du8, 0x5fu8)) }
    else if code == 0x0d { Some((0x3du8, 0x2bu8)) }
    else if code == 0x1a { Some((0x5bu8, 0x7bu8)) }
    else if code == 0x1b { Some((0x5du8, 0x7du8)) }
    else if code == 0x27 { Some((0x3bu8, 0x3au8)) }
    else if code == 0x28 { Some((0x27u8, 0x22u8)) }
    else if code == 0x29 { Some((0x60u8, 0x7eu8)) }
    else if code == 0x2b { Some((0x5cu8, 0x7cu8)) }
    else if code == 0x33 { Some((0x2cu8, 0x3cu8)) }
    else if code == 0x34 { Some((0x2eu8, 0x3eu8)) }
    else if code == 0x35 { Some((0x2fu8, 0x3fu8)) }
    else if code == 0x39 { Some((0x20u8, 0x20u8)) }
    else { None }
}

/// The character a make code types: letters are uppercase when exactly one
/// of shift and caps lock is on, other keys follow shift alone.
pub open spec fn ascii_of(shift: bool, caps_lock: bool, code: u8) -> Option<u8> {
    match letter_of(code) {
        Some(byte) => Some(if shift != caps_lock { (byte - 0x20) as u8 } else { byte }),
        None => match pair_of(code) {
            Some(pair) => Some(if shift { pair.1 } else { pair.0 }),
            None => None,
        },
    }
}

/// The state of a scancode decoder.
pub struct KeyboardView {
    pub shift: bool,
    pub caps: bool,
    pub extended: bool,
}

/// Scancode set 1: the decoder state after `code`, and the key `code`
/// completes. `0xe0` announces an extended code (the arrows); the shift
/// codes and caps lock change the state; break codes type nothing.
pub open spec fn decode_spec(k: KeyboardView, code: u8) -> (KeyboardView, Option<Key>) {
    if code == 0xe0 {
        (KeyboardView { extended: true, ..k }, None)
    } else if k.extended {
        (
            KeyboardView { extended: false, ..k },
            if code & 0x80 != 0 {
                None
            } else if code == 0x48 {
                Some(Key::ArrowUp)
            } else if code == 0x50 {
                Some(Key::ArrowDown)
            } else if code == 0x4b {
                Some(Key::ArrowLeft)
            } else if code == 0x4d {
                Some(Key::ArrowRight)
            } else {
                None
            },
        )
    } else {
        (
            KeyboardView {
                shift: if code == 0x2a || code == 0x36 {
                    true
                } else if code == 0xaa || code == 0xb6 {
                    false
                } else {
                    k.shift
                },
                caps: if code == 0x3a { !k.caps } else { k.caps },
                extended: false,
            },
            if code == 0x2a || code == 0x36 || code == 0xaa || code == 0xb6 || code == 0x3a {
                None
            } else if code == 0x01 {
                Some(Key::Escape)
            } else if code == 0x0f {
                Some(Key::Tab)
            } else if code == 0x1c {
                Some(Key::Enter)
            } else if code == 0x0e {
                Some(Key::Backspace)
            } else if code == 0x58 {
                Some(Key::F12)
            } else if code & 0x80 != 0 {
                None
            } else {
                match ascii_of(k.shift, k.caps, code) {
                    Some(byte) => Some(Key::Char(byte)),
                    None => None,
                }
            },
        )
    }
}

/// Feeding `codes` in turn to a decoder in state `k` until one completes a
/// key: the key (if any), how many codes were used, and the state left.
pub open spec fn first_key(k: KeyboardView, codes: Seq<u8>) -> (Option<Key>, nat, KeyboardView)
    decreases codes.len(),
{
    if codes.len() == 0 {
        (None, 0, k)
    } else {
        let (k2, key) = decode_spec(k, codes[0]);
        if key is Some {
            (key, 1, k2)
        } else {
            let (rest_key, used, k3) = first_key(k2, codes.drop_first());
            (rest_key, used + 1, k3)
        }
    }
}

/// PS/2 scancode set 1 decoder state.
pub struct Keyboard {
    shift: bool,
    caps_lock: bool,
    extended: bool,
}

impl Keyboard {
    /// Whether a shift key is held.
    pub closed spec fn shift_spec(&self) -> bool {
        self.shift
    }

    /// Whether caps lock is on.
    pub closed spec fn caps_spec(&self) -> bool {
        self.caps_lock
    }

    /// Whether the previous byte was the `0xe0` prefix.
    pub closed spec fn extended_spec(&self) -> bool {
        self.extended
    }

    pub fn new() -> (r: Self)
        ensures
            !r.shift_spec() && !r.caps_spec() && !r.extended_spec(),
    {
        Keyboard { shift: false, caps_lock: false, extended: false }
    }

    /// The decoder state: shift held, caps lock on, after the `0xe0` prefix.
    pub open spec fn view(&self) -> KeyboardView {
        KeyboardView { shift: self.shift_spec(), caps: self.caps_spec(), extended: self.extended_spec() }
    }

    /// Feeds one scancode byte; returns the key it completes, if any.
    pub fn decode_scancode(&mut self, code: u8) -> (r: Option<Key>)
        ensures
            (final(self).view(), r) == decode_spec(old(self).view(), code),
    {
        if code == 0xe0 {
            self.extended = true;
            return None;
        }
        if self.extended {
            self.extended = false;
            if code & 0x80 != 0 {
                return None;
            }
            return match code {
                0x48 => Some(Key::ArrowUp),
                0x50 => Some(Key::ArrowDown),
                0x4b => Some(Key::ArrowLeft),
                0x4d => Some(Key::ArrowRight),
                _ => None,
            };
        }
        match code {
            0x2a | 0x36 => {
                self.shift = true;
                return None;
            },
            0xaa | 0xb6 => {
                self.shift = false;
                return None;
            },
            0x3a => {
                self.caps_lock = !self.caps_lock;
                return None;
            },
            0x01 => {
                return Some(Key::Escape);
            },
            0x0f => {
                return Some(Key::Tab);
            },
            0x1c => {
                return Some(Key::Enter);
            },
            0x0e => {
                return Some(Key::Backspace);
            },
            0x58 => {
                return Some(Key::F12);
            },
            _ => {},
        }
        if code & 0x80 != 0 {
            return None;
        }
        match self.scancode_to_ascii(code) {
            Some(byte) => Some(Key::Char(byte)),
            None => None,
        }
    }

    /// The character a make code types in the current shift state.
    pub fn scancode_to_ascii(&self, code: u8) -> (r: Option<u8>)
        ensures
            r == ascii_of(self.shift_spec(), self.caps_spec(), code),
    {
        let letter: Option<u8> = match code {
            0x10 => Some(0x71u8),
            0x11 => Some(0x77u8),
            0x12 => Some(0x65u8),
            0x13 => Some(0x72u8),
            0x14 => Some(0x74u8),
            0x15 => Some(0x79u8),
            0x16 => Some(0x75u8),
            0x17 => Some(0x69u8),
            0x18 => Some(0x6fu8),
            0x19 => Some(0x70u8),
            0x1e => Some(0x61u8),
            0x1f => Some(0x73u8),
            0x20 => Some(0x64u8),
            0x21 => Some(0x66u8),
            0x22 => Some(0x67u8),
            0x23 => Some(0x68u8),
            0x24 => Some(0x6au8),
            0x25 => Some(0x6bu8),
            0x26 => Some(0x6cu8),
            0x2c => Some(0x7au8),
            0x2d => Some(0x78u8),
            0x2e => Some(0x63u8),
            0x2f => Some(0x76u8),
            0x30 => Some(0x62u8),
            0x31 => Some(0x6eu8),
            0x32 => Some(0x6du8),
            _ => None,
        };
        if let Some(byte) = letter {
            if self.shift != self.caps_lock {
                return Some(byte - 0x20);
            }
            return Some(byte);
        }
        let pair: (u8, u8) = match code {
            0x02 => (0x31u8, 0x21u8),
            0x03 => (0x32u8, 0x40u8),
            0x04 => (0x33u8, 0x23u8),
            0x05 => (0x34u8, 0x24u8),
            0x06 => (0x35u8, 0x25u8),
            0x07 => (0x36u8, 0x5eu8),
            0x08 => (0x37u8, 0x26u8),
            0x09 => (0x38u8, 0x2au8),
            0x0a => (0x39u8, 0x28u8),
            0x0b => (0x30u8, 0x29u8),
            0x0c => (0x2du8, 0x5fu8),
            0x0d => (0x3du8, 0x2bu8),
            0x1a => (0x5bu8, 0x7bu8),
            0x1b => (0x5du8, 0x7du8),
            0x27 => (0x3bu8, 0x3au8),
            0x28 => (0x27u8, 0x22u8),
            0x29 => (0x60u8, 0x7eu8),
            0x2b => (0x5cu8, 0x7cu8),
            0x33 => (0x2cu8, 0x3cu8),
            0x34 => (0x2eu8, 0x3eu8),
            0x35 => (0x2fu8, 0x3fu8),
            0x39 => (0x20u8, 0x20u8),
            _ => {
                return None;
            },
        };
        Some(if self.shift { pair.1 } else { pair.0 })
    }
}

/// The mouse event a complete packet reports: X and Y movement (Y growing
/// downward on screen), the wheel's signed nibble when packets carry one,
/// and the three button bits.
pub open spec fn packet_event(packet: Seq<u8>, packet_len: int) -> MouseEvent {
    let nibble = packet[3] & 0x0f;
    MouseEvent {
        dx: packet[1] as i8 as i16,
        dy: -(packet[2] as i8 as i16) as i16,
        wheel: if packet_len == 4 {
            if nibble & 0x08 != 0 {
                (nibble | 0xf0) as i8
            } else {
                nibble as i8
            }
        } else {
            0
        },
        buttons: packet[0] & 0x07,
    }
}

/// PS/2 mouse packet assembly and the queue of decoded events.
pub struct MouseState {
    packet: [u8; 4],
    packet_index: usize,
    packet_len: usize,
    queue: [MouseEvent; MOUSE_CAPACITY],
    read: usize,
    write: usize,
    len: usize,
}

impl MouseState {
    #[verifier::type_invariant]
    closed spec fn inv(&self) -> bool {
        &&& self.packet_len == 3 || self.packet_len == 4
        &&& self.packet_index < self.packet_len
        &&& self.read < MOUSE_CAPACITY
        &&& self.len <= MOUSE_CAPACITY
        &&& self.write == (self.read + self.len) % MOUSE_CAPACITY as int
    }

    /// The bytes of the packet being assembled.
    pub closed spec fn partial(&self) -> Seq<u8> {
        self.packet@.take(self.packet_index as int)
    }

    /// Bytes per packet: 3, or 4 with a wheel.
    pub closed spec fn packet_len_spec(&self) -> int {
        self.packet_len as int
    }

    /// The queued events, oldest first.
    pub closed spec fn events(&self) -> Seq<MouseEvent> {
        Seq::new(self.len as nat, |i: int| self.queue@[(self.read + i) % MOUSE_CAPACITY as int])
    }

    pub fn new() -> (r: Self)
        ensures
            r.partial().len() == 0,
            r.packet_len_spec() == 3,
            r.events().len() == 0,
    {
        let empty = MouseEvent { dx: 0, dy: 0, wheel: 0, buttons: 0 };
        MouseState {
            packet: [0u8; 4],
            packet_index: 0,
            packet_len: 3,
            queue: [empty; MOUSE_CAPACITY],
            read: 0,
            write: 0,
            len: 0,
        }
    }

    /// Switches between 3-byte packets and 4-byte packets with a wheel,
    /// restarting packet assembly.
    pub fn set_wheel_mode(&mut self, enabled: bool)
        ensures
            final(self).packet_len_spec() == if enabled { 4int } else { 3int },
            final(self).partial().len() == 0,
            final(self).events() == old(self).events(),
    {
        proof {
            use_type_invariant(&*self);
        }
        *self = MouseState {
            packet: self.packet,
            packet_index: 0,
            packet_len: if enabled { 4 } else { 3 },
            queue: self.queue,
            read: self.read,
            write: self.write,
            len: self.len,
        };
    }

    /// Drops queued events and any partial packet.
    pub fn drain(&mut self)
        ensures
            final(self).packet_len_spec() == old(self).packet_len_spec(),
            final(self).partial().len() == 0,
            final(self).events().len() == 0,
    {
        proof {
            use_type_invariant(&*self);
        }
        *self = MouseState {
            packet: self.packet,
            packet_index: 0,
            packet_len: self.packet_len,
            queue: self.queue,
            read: 0,
            write: 0,
            len: 0,
        };
    }

    /// Feeds one byte from the mouse. A packet starts only with a byte that
    /// has bit 3 set; a complete packet without overflow bits becomes an
    /// event, the oldest event making room when the queue is full.
    #[verifier::spinoff_prover]
    #[verifier::rlimit(40)]
    pub fn push_byte(&mut self, byte: u8)
        ensures
            final(self).packet_len_spec() == old(self).packet_len_spec(),
            ({
                let before = old(self).partial();
                let len = old(self).packet_len_spec();
                let events = old(self).events();
                if before.len() == 0 && byte & 0x08 == 0 {
                    final(self).partial() == before && final(self).events() == events
                } else if before.len() + 1 < len {
                    final(self).partial() == before.push(byte) && final(self).events() == events
                } else {
                    let packet = before.push(byte);
                    &&& final(self).partial().len() == 0
                    &&& final(self).events() == if packet[0] & 0xc0 != 0 {
                        events
                    } else if events.len() == MOUSE_CAPACITY {
                        events.drop_first().push(packet_event(packet, len))
                    } else {
                        events.push(packet_event(packet, len))
                    }
                }
            }),
    {
        proof {
            use_type_invariant(&*self);
        }
        if self.packet_index == 0 && byte & 0x08 == 0 {
            return;
        }
        let ghost before = self.partial();
        let mut packet = self.packet;
        packet[self.packet_index] = byte;
        let index = self.packet_index + 1;
        if index < self.packet_len {
            *self = MouseState {
                packet,
                packet_index: index,
                packet_len: self.packet_len,
                queue: self.queue,
                read: self.read,
                write: self.write,
                len: self.len,
            };
            assert(self.partial() =~= before.push(byte));
            return;
        }
        let ghost full = packet@.take(index as int);
        assert(full =~= before.push(byte));
        let first = packet[0];
        if first & 0xc0 != 0 {
            *self = MouseState {
                packet,
                packet_index: 0,
                packet_len: self.packet_len,
                queue: self.queue,
                read: self.read,
                write: self.write,
                len: self.len,
            };
            return;
        }
        let dx = packet[1] as i8 as i16;
        let dy = -(packet[2] as i8 as i16);
        let wheel: i8 = if self.packet_len == 4 {
            let nibble = packet[3] & 0x0f;
            if nibble & 0x08 != 0 {
                (nibble | 0xf0) as i8
            } else {
                nibble as i8
            }
        } else {
            0
        };
        let event = MouseEvent { dx, dy, wheel, buttons: first & 0x07 };
        assert(event == packet_event(full, self.packet_len as int));
        let ghost events = self.events();
        let mut read = self.read;
        let mut len = self.len;
        if len == MOUSE_CAPACITY {
            read = (read + 1) % MOUSE_CAPACITY;
            len = len - 1;
        }
        let mut queue = self.queue;
        let write = self.write;
        queue[write] = event;
        *self = MouseState {
            packet,
            packet_index: 0,
            packet_len: self.packet_len,
            queue,
            read,
            write: (write + 1) % MOUSE_CAPACITY,
            len: len + 1,
        };
        proof {
            let expected = if events.len() == MOUSE_CAPACITY {
                events.drop_first().push(event)
            } else {
                events.push(event)
            };
            assert forall|i: int| 0 <= i < self.events().len() implies self.events()[i]
                == expected[i] by {
                if i < len {
                    assert((read + i) % MOUSE_CAPACITY as int != write as int) by {
                        vstd::arithmetic::div_mod::lemma_mod_bound(read + i, MOUSE_CAPACITY as int);
                    }
                    if events.len() == MOUSE_CAPACITY {
                        vstd::arithmetic::div_mod::lemma_add_mod_noop(
                            old(self).read + 1,
                            i,
                            MOUSE_CAPACITY as int,
                        );
                        vstd::arithmetic::div_mod::lemma_mod_twice(
                            old(self).read + 1,
                            MOUSE_CAPACITY as int,
                        );
                        vstd::arithmetic::div_mod::lemma_add_mod_noop(
                            (old(self).read + 1) % MOUSE_CAPACITY as int,
                            i,
                            MOUSE_CAPACITY as int,
                        );
                    }
                } else {
                    assert((read + i) % MOUSE_CAPACITY as int == write as int);
                }
            }
            assert(self.events() =~= expected);
        }
    }

    /// Takes the oldest event, if any.
    pub fn pop(&mut self) -> (r: Option<MouseEvent>)
        ensures
            final(self).packet_len_spec() == old(self).packet_len_spec(),
            final(self).partial() == old(self).partial(),
            old(self).events().len() == 0 ==> r is None && final(self).events().len() == 0,
            old(self).events().len() > 0 ==> r == Some(old(self).events()[0]) && final(self).events()
                == old(self).events().drop_first(),
    {
        proof {
            use_type_invariant(&*self);
        }
        if self.len == 0 {
            return None;
        }
        let event = self.queue[self.read];
        let ghost before = self.events();
        let read = (self.read + 1) % MOUSE_CAPACITY;
        *self = MouseState {
            packet: self.packet,
            packet_index: self.packet_index,
            packet_len: self.packet_len,
            queue: self.queue,
            read,
            write: self.write,
            len: self.len - 1,
        };
        proof {
            assert forall|i: int| 0 <= i < self.events().len() implies self.events()[i]
                == before.drop_first()[i] by {
                vstd::arithmetic::div_mod::lemma_add_mod_noop(
                    old(self).read + 1,
                    i,
                    MOUSE_CAPACITY as int,
                );
                vstd::arithmetic::div_mod::lemma_mod_twice(old(self).read + 1, MOUSE_CAPACITY as int);
                vstd::arithmetic::div_mod::lemma_add_mod_noop(
                    (old(self).read + 1) % MOUSE_CAPACITY as int,
                    i,
                    MOUSE_CAPACITY as int,
                );
            }
            assert(self.events() =~= before.drop_first());
        }
        Some(event)
    }
}

impl Keyboard {
    /// Decodes queued scancodes, oldest first, until one completes a key;
    /// `None` once the queue runs dry.
    pub fn poll_key(&mut self, queue: &mut ScancodeQueue) -> (r: Option<Key>)
        ensures
            ({
                let (key, used, k) = first_key(old(self).view(), old(queue).contents());
                &&& r == key
                &&& final(self).view() == k
                &&& final(queue).contents() == old(queue).contents().skip(used as int)
            }),
    {
        let ghost start = old(queue).contents();
        loop
            invariant
                start == old(queue).contents(),
                queue.contents().len() <= start.len(),
                queue.contents() == start.skip(start.len() - queue.contents().len()),
                ({
                    let rest = first_key(self.view(), queue.contents());
                    first_key(old(self).view(), start) == (rest.0, rest.1 + (start.len() - queue.contents().len()) as nat, rest.2)
                }),
            decreases queue.contents().len(),
        {
            let ghost before = queue.contents();
            let ghost view = self.view();
            match queue.pop() {
                None => {
                    return None;
                },
                Some(code) => {
                    proof {
                        assert(before.drop_first() =~= start.skip(start.len() - before.len() + 1));
                    }
                    let key = self.decode_scancode(code);
                    if key.is_some() {
                        return key;
                    }
                },
            }
        }
    }
}

/// The next input event: a key from the queued scancodes, else a mouse
/// event.
pub fn poll(keyboard: &mut Keyboard, scancodes: &mut ScancodeQueue, mouse: &mut MouseState) -> (r: Option<
    InputPacket,
>)
    ensures
        ({
            let (key, used, k) = first_key(old(keyboard).view(), old(scancodes).contents());
            &&& final(keyboard).view() == k
            &&& final(scancodes).contents() == old(scancodes).contents().skip(used as int)
            &&& match key {
                Some(key) => {
                    &&& r matches Some(p) && p.kind == INPUT_KEY && p.code == key_code_spec(key) && p.x == 0
                        && p.y == 0 && p.z == 0 && p.flags == 1
                    &&& final(mouse).events() == old(mouse).events()
                },
                None => if old(mouse).events().len() == 0 {
                    r is None && final(mouse).events().len() == 0
                } else {
                    let e = old(mouse).events()[0];
                    &&& r matches Some(p) && p.kind == INPUT_MOUSE && p.code == 0 && p.x == e.dx && p.y
                        == e.dy && p.z == e.wheel && p.flags == e.buttons
                    &&& final(mouse).events() == old(mouse).events().drop_first()
                },
            }
        }),
{
    if let Some(key) = keyboard.poll_key(scancodes) {
        return Some(key_packet(key));
    }
    match mouse.pop() {
        Some(event) => Some(mouse_packet(event)),
        None => None,
    }
}

} // verus!
