//! PCI configuration space (mechanism #1): addresses, 16-bit fields of the
//! 32-bit registers, and the search for the legacy virtio block device.
//! The caller performs the port I/O that `PciProbe` asks for.

use vstd::prelude::*;

verus! {

pub const VIRTIO_VENDOR: u16 = 0x1af4;
pub const VIRTIO_BLOCK_LEGACY: u16 = 0x1001;

#[derive(Clone, Copy, Debug, PartialEq, Eq, Structural)]
pub struct PciDevice {
    pub bus: u8,
    pub device: u8,
    pub function: u8,
    pub io_base: u16,
}

/// The configuration address of register `offset` (rounded down to a
/// multiple of 4) of `function` of `device` on `bus`.
pub open spec fn address_spec(bus: u8, device: u8, function: u8, offset: u8) -> u32 {
    0x8000_0000u32 | ((bus as u32) << 16u32) | ((device as u32) << 11u32) | ((function as u32) << 8u32) | ((
    offset as u32) & 0xfcu32)
}

pub fn address(bus: u8, device: u8, function: u8, offset: u8) -> (r: u32)
    ensures
        r == address_spec(bus, device, function, offset),
{
    0x8000_0000u32 | ((bus as u32) << 16u32) | ((device as u32) << 11u32) | ((function as u32) << 8u32) | ((
    offset as u32) & 0xfcu32)
}

/// An address names its bus, device, function and register again, for
/// devices below 32 and functions below 8.
pub proof fn lemma_address_fields(bus: u8, device: u8, function: u8, offset: u8)
    requires
        device < 32,
        function < 8,
    ensures
        (address_spec(bus, device, function, offset) >> 16u32) & 0xff == bus as u32,
        (address_spec(bus, device, function, offset) >> 11u32) & 0x1f == device as u32,
        (address_spec(bus, device, function, offset) >> 8u32) & 0x7 == function as u32,
        address_spec(bus, device, function, offset) & 0xff == (offset as u32) & 0xfc,
        address_spec(bus, device, function, offset) & 0x8000_0000 != 0,
{
    let b = bus as u32;
    let d = device as u32;
    let f = function as u32;
    let o = offset as u32;
    assert(((0x8000_0000u32 | (b << 16u32) | (d << 11u32) | (f << 8u32) | (o & 0xfcu32)) >> 16u32) & 0xff == b)
        by (bit_vector)
        requires
            b < 256,
            d < 32,
            f < 8,
    ;
    assert(((0x8000_0000u32 | (b << 16u32) | (d << 11u32) | (f << 8u32) | (o & 0xfcu32)) >> 11u32) & 0x1f == d)
        by (bit_vector)
        requires
            b < 256,
            d < 32,
            f < 8,
    ;
    assert(((0x8000_0000u32 | (b << 16u32) | (d << 11u32) | (f << 8u32) | (o & 0xfcu32)) >> 8u32) & 0x7 == f)
        by (bit_vector)
        requires
            b < 256,
            d < 32,
            f < 8,
    ;
    assert((0x8000_0000u32 | (b << 16u32) | (d << 11u32) | (f << 8u32) | (o & 0xfcu32)) & 0xff == o & 0xfc)
        by (bit_vector)
        requires
            b < 256,
            d < 32,
            f < 8,
            o < 256,
    ;
    assert((0x8000_0000u32 | (b << 16u32) | (d << 11u32) | (f << 8u32) | (o & 0xfcu32)) & 0x8000_0000 != 0)
        by (bit_vector);
}

/// The bit position of the 16-bit field at `offset` in its register.
pub open spec fn field_shift(offset: u8) -> u32 {
    (((offset & 2u8) as u32) * 8) as u32
}

/// The 16-bit field at `offset` of the register value `value`.
pub open spec fn field_spec(value: u32, offset: u8) -> u16 {
    ((value >> field_shift(offset)) & 0xffffu32) as u16
}

pub fn field(value: u32, offset: u8) -> (r: u16)
    ensures
        r == field_spec(value, offset),
{
    proof {
        assert(offset & 2u8 <= 2u8) by (bit_vector);
    }
    ((value >> (((offset & 2u8) as u32) * 8)) & 0xffff) as u16
}

/// The register value `current` with the 16-bit field at `offset` set to
/// `value`.
pub open spec fn merge_spec(current: u32, offset: u8, value: u16) -> u32 {
    (current & !(0xffffu32 << field_shift(offset))) | ((value as u32) << field_shift(offset))
}

pub fn merge(current: u32, offset: u8, value: u16) -> (r: u32)
    ensures
        r == merge_spec(current, offset, value),
{
    proof {
        assert(offset & 2u8 <= 2u8) by (bit_vector);
    }
    let shift = ((offset & 2u8) as u32) * 8;
    (current & !(0xffffu32 << shift)) | ((value as u32) << shift)
}

/// Writing a field and reading it back gives what was written, and the
/// other field of the register keeps its value.
pub proof fn lemma_merge_then_field(current: u32, offset: u8, value: u16)
    ensures
        field_spec(merge_spec(current, offset, value), offset) == value,
        field_spec(merge_spec(current, offset, value), offset ^ 2u8) == field_spec(current, offset ^ 2u8),
{
    let v = value as u32;
    assert(offset & 2u8 == 0u8 || offset & 2u8 == 2u8) by (bit_vector);
    assert((offset ^ 2u8) & 2u8 == 2u8 - (offset & 2u8)) by (bit_vector);
    if offset & 2u8 == 0u8 {
        assert(field_shift(offset) == 0);
        assert(field_shift(offset ^ 2u8) == 16);
        assert((((current & !(0xffffu32 << 0u32)) | (v << 0u32)) >> 0u32) & 0xffffu32 == v) by (bit_vector)
            requires
                v < 0x10000,
        ;
        assert((((current & !(0xffffu32 << 0u32)) | (v << 0u32)) >> 16u32) & 0xffffu32 == (current >> 16u32)
            & 0xffffu32) by (bit_vector)
            requires
                v < 0x10000,
        ;
    } else {
        assert(field_shift(offset) == 16);
        assert(field_shift(offset ^ 2u8) == 0);
        assert((((current & !(0xffffu32 << 16u32)) | (v << 16u32)) >> 16u32) & 0xffffu32 == v) by (bit_vector)
            requires
                v < 0x10000,
        ;
        assert((((current & !(0xffffu32 << 16u32)) | (v << 16u32)) >> 0u32) & 0xffffu32 == (current >> 0u32)
            & 0xffffu32) by (bit_vector)
            requires
                v < 0x10000,
        ;
    }
}

/// The I/O port base of a legacy virtio block device: the vendor and
/// device ids match and BAR0 is an I/O BAR.
pub open spec fn io_base_of(vendor: u16, device_id: u16, bar0: u32) -> Option<u16> {
    if vendor == VIRTIO_VENDOR && device_id == VIRTIO_BLOCK_LEGACY && bar0 & 1 != 0 {
        Some((bar0 & !3u32) as u16)
    } else {
        None
    }
}

/// A slot of the configuration space: bus, device (below 32), function
/// (below 8).
#[derive(Clone, Copy, Debug, PartialEq, Eq, Structural)]
pub struct Slot {
    pub bus: u8,
    pub device: u8,
    pub function: u8,
}

/// The slot after `s`, functions first, then devices, then buses.
pub open spec fn next_slot(s: Slot) -> Option<Slot> {
    if s.function < 7 {
        Some(Slot { function: (s.function + 1) as u8, ..s })
    } else if s.device < 31 {
        Some(Slot { device: (s.device + 1) as u8, function: 0, ..s })
    } else if s.bus < 255 {
        Some(Slot { bus: (s.bus + 1) as u8, device: 0, function: 0 })
    } else {
        None
    }
}

fn following(s: Slot) -> (r: Option<Slot>)
    ensures
        r == next_slot(s),
{
    if s.function < 7 {
        Some(Slot { function: s.function + 1, ..s })
    } else if s.device < 31 {
        Some(Slot { device: s.device + 1, function: 0, ..s })
    } else if s.bus < 255 {
        Some(Slot { bus: s.bus + 1, device: 0, function: 0 })
    } else {
        None
    }
}

/// What the search asks of the caller.
#[derive(Clone, Copy, Debug, PartialEq, Eq, Structural)]
pub enum PciAction {
    /// Read the register at this configuration address and hand its value
    /// back.
    Read(u32),
    /// Write `value` to the register at `address`: the device is found.
    Enable { address: u32, value: u32, device: PciDevice },
    /// No slot holds the device.
    NotFound,
}

/// Which register of the slot the search waits for.
#[derive(Clone, Copy, Debug, PartialEq, Eq, Structural)]
pub enum Stage {
    Vendor,
    DeviceId { vendor: u16 },
    Bar0,
    Command { io_base: u16 },
    CommandAgain { io_base: u16, command: u16 },
}

/// The search of all slots, in order, for the legacy virtio block device.
pub struct PciProbe {
    pub slot: Slot,
    pub stage: Stage,
}

/// The vendor id register of slot `s`: where the search of `s` starts.
pub open spec fn slot_start(s: Slot) -> PciAction {
    PciAction::Read(address_spec(s.bus, s.device, s.function, 0))
}

/// The search past slot `s`.
pub open spec fn skip_spec(s: Slot) -> (Option<Slot>, PciAction) {
    match next_slot(s) {
        Some(n) => (Some(n), slot_start(n)),
        None => (None, PciAction::NotFound),
    }
}

impl PciProbe {
    /// Starts at bus 0, device 0, function 0.
    pub fn start() -> (r: (PciProbe, PciAction))
        ensures
            r.0.slot == (Slot { bus: 0, device: 0, function: 0 }),
            r.0.stage == Stage::Vendor,
            r.1 == slot_start(Slot { bus: 0, device: 0, function: 0 }),
    {
        let slot = Slot { bus: 0, device: 0, function: 0 };
        (PciProbe { slot, stage: Stage::Vendor }, PciAction::Read(address(0, 0, 0, 0)))
    }

    fn skip(slot: Slot) -> (r: (PciProbe, PciAction))
        ensures
            r.1 == skip_spec(slot).1,
            skip_spec(slot).0 matches Some(n) ==> r.0.slot == n && r.0.stage == Stage::Vendor,
            skip_spec(slot).0 is None ==> r.0.slot == slot,
    {
        match following(slot) {
            Some(next) => (
                PciProbe { slot: next, stage: Stage::Vendor },
                PciAction::Read(address(next.bus, next.device, next.function, 0)),
            ),
            None => (PciProbe { slot, stage: Stage::Vendor }, PciAction::NotFound),
        }
    }

    /// Takes the value of the register last asked for and says what comes
    /// next. A slot is passed over when nothing answers (vendor `0xffff`),
    /// when it is not the legacy virtio block device, or when its BAR0 is
    /// not an I/O BAR; the device found gets I/O space and bus mastering
    /// turned on in its command register.
    pub fn advance(self, value: u32) -> (r: (PciProbe, PciAction))
        ensures
            r.0.slot == self.slot || skip_spec(self.slot).0 == Some(r.0.slot),
            ({
                let s = self.slot;
                match self.stage {
                    Stage::Vendor => if field_spec(value, 0) == 0xffff {
                        r.1 == skip_spec(s).1
                    } else {
                        r.0.slot == s && r.0.stage == (Stage::DeviceId { vendor: field_spec(value, 0) })
                            && r.1 == PciAction::Read(address_spec(s.bus, s.device, s.function, 2))
                    },
                    Stage::DeviceId { vendor } => if vendor != VIRTIO_VENDOR || field_spec(value, 2)
                        != VIRTIO_BLOCK_LEGACY {
                        r.1 == skip_spec(s).1
                    } else {
                        r.0.slot == s && r.0.stage == Stage::Bar0 && r.1 == PciAction::Read(
                            address_spec(s.bus, s.device, s.function, 0x10),
                        )
                    },
                    Stage::Bar0 => if value & 1 == 0 {
                        r.1 == skip_spec(s).1
                    } else {
                        r.0.slot == s && r.0.stage == (Stage::Command { io_base: (value & !3u32) as u16 })
                            && r.1 == PciAction::Read(address_spec(s.bus, s.device, s.function, 4))
                    },
                    Stage::Command { io_base } => r.0.slot == s && r.0.stage == (Stage::CommandAgain {
                        io_base,
                        command: field_spec(value, 4),
                    }) && r.1 == PciAction::Read(address_spec(s.bus, s.device, s.function, 4)),
                    Stage::CommandAgain { io_base, command } => r.1 == PciAction::Enable {
                        address: address_spec(s.bus, s.device, s.function, 4),
                        value: merge_spec(value, 4, command | 0x0005),
                        device: PciDevice { bus: s.bus, device: s.device, function: s.function, io_base },
                    },
                }
            }),
    {
        let s = self.slot;
        match self.stage {
            Stage::Vendor => {
                let vendor = field(value, 0);
                if vendor == 0xffff {
                    return PciProbe::skip(s);
                }
                (
                    PciProbe { slot: s, stage: Stage::DeviceId { vendor } },
                    PciAction::Read(address(s.bus, s.device, s.function, 2)),
                )
            },
            Stage::DeviceId { vendor } => {
                let device_id = field(value, 2);
                if vendor != VIRTIO_VENDOR || device_id != VIRTIO_BLOCK_LEGACY {
                    return PciProbe::skip(s);
                }
                (
                    PciProbe { slot: s, stage: Stage::Bar0 },
                    PciAction::Read(address(s.bus, s.device, s.function, 0x10)),
                )
            },
            Stage::Bar0 => {
                if value & 1 == 0 {
                    return PciProbe::skip(s);
                }
                let io_base = (value & !3u32) as u16;
                (
                    PciProbe { slot: s, stage: Stage::Command { io_base } },
                    PciAction::Read(address(s.bus, s.device, s.function, 4)),
                )
            },
            Stage::Command { io_base } => {
                let command = field(value, 4);
                (
                    PciProbe { slot: s, stage: Stage::CommandAgain { io_base, command } },
                    PciAction::Read(address(s.bus, s.device, s.function, 4)),
                )
            },
            Stage::CommandAgain { io_base, command } => {
                let updated = merge(value, 4, command | 0x0001 | 0x0004);
                proof {
                    assert(command | 0x0001u16 | 0x0004u16 == command | 0x0005u16) by (bit_vector);
                }
                (
                    PciProbe { slot: s, stage: Stage::CommandAgain { io_base, command } },
                    PciAction::Enable {
                        address: address(s.bus, s.device, s.function, 4),
                        value: updated,
                        device: PciDevice { bus: s.bus, device: s.device, function: s.function, io_base },
                    },
                )
            },
        }
    }
}

} // verus!
