use kernel_core::acpi::{ApicInfo, InterruptOverride, IoApicInfo};
use kernel_core::apic::{
    apic_base_value, redirection_register, redirections_from_version, route_isa_irq, ApicAction, ApicInit, ApicStage,
    InitError, IoApicRange, RouteError,
};
use kernel_core::pci::{address, field, merge, PciAction, PciDevice, PciProbe};
use kernel_core::ps2::{active_config, data_ready, quiet_config, wheel_id};
use kernel_core::timer::{millis, next_tick, pit_divisor, wait_target};
use kernel_core::user::{dispatch, exit_ok, ENOSYS, EXIT_SENTINEL, SYS_EXIT, SYS_TICKS};

#[test]
fn timer_arithmetic() {
    assert_eq!(pit_divisor(), 11931);
    assert_eq!(millis(0), 0);
    assert_eq!(millis(250), 2500);
    assert_eq!(millis(u64::MAX), u64::MAX / 100);
    assert_eq!(wait_target(10, 5), 15);
    assert_eq!(wait_target(u64::MAX - 1, 5), u64::MAX);
    assert_eq!(next_tick(u64::MAX), u64::MAX);
    assert_eq!(next_tick(41), 42);
}

#[test]
fn pci_addresses_and_fields() {
    assert_eq!(address(0, 0, 0, 0), 0x8000_0000);
    assert_eq!(address(1, 2, 3, 0x11), 0x8000_0000 | (1 << 16) | (2 << 11) | (3 << 8) | 0x10);
    assert_eq!(field(0x1234_5678, 0), 0x5678);
    assert_eq!(field(0x1234_5678, 2), 0x1234);
    assert_eq!(merge(0x1234_5678, 2, 0xabcd), 0xabcd_5678);
    assert_eq!(merge(0x1234_5678, 4, 0xabcd), 0x1234_abcd);
}

fn slot_register(bus: u8, device: u8, function: u8, offset: u8) -> u32 {
    // a virtio block device at 0:3.0 with I/O BAR 0xc041
    if bus == 0 && device == 3 && function == 0 {
        match offset & 0xfc {
            0x00 => 0x1001_1af4,
            0x04 => 0x0000_0000,
            0x10 => 0x0000_c041,
            _ => 0,
        }
    } else {
        0xffff_ffff
    }
}

#[test]
fn pci_probe_finds_the_block_device() {
    let (mut probe, mut action) = PciProbe::start();
    let mut steps = 0;
    let found = loop {
        steps += 1;
        assert!(steps < 1000);
        match action {
            PciAction::Read(addr) => {
                let bus = ((addr >> 16) & 0xff) as u8;
                let device = ((addr >> 11) & 0x1f) as u8;
                let function = ((addr >> 8) & 0x7) as u8;
                let value = slot_register(bus, device, function, (addr & 0xff) as u8);
                let (next, next_action) = probe.advance(value);
                probe = next;
                action = next_action;
            }
            PciAction::Enable { address: addr, value, device } => {
                assert_eq!(addr, address(0, 3, 0, 4));
                assert_eq!(value & 0x5, 0x5);
                break Some(device);
            }
            PciAction::NotFound => break None,
        }
    };
    assert_eq!(found, Some(PciDevice { bus: 0, device: 3, function: 0, io_base: 0xc040 }));
}

#[test]
fn apic_register_values() {
    assert_eq!(apic_base_value(0xfee0_0d00, 0xfec0_0000), 0xfec0_0900);
    assert_eq!(redirections_from_version(0x0017_0020), 0x18);
    assert_eq!(redirection_register(3), 0x16);
}

fn info() -> ApicInfo {
    let mut overrides = [None; 16];
    overrides[0] = Some(InterruptOverride { source_irq: 0, gsi: 2, flags: 0 });
    overrides[9] = Some(InterruptOverride { source_irq: 9, gsi: 9, flags: 0b1111 });
    overrides[5] = Some(InterruptOverride { source_irq: 5, gsi: 5, flags: 0b10 });
    ApicInfo {
        local_apic_address: 0xfee0_0000,
        io_apics: [IoApicInfo { address: 0xfec0_0000, gsi_base: 0 }; 4],
        io_apic_count: 1,
        overrides,
    }
}

#[test]
fn routes_legacy_lines() {
    let io = [Some(IoApicRange { gsi_base: 0, redirections: 24 }), None, None, None];
    let route = route_isa_irq(&io, &info(), 0, 0x20, 1).unwrap();
    assert_eq!(route.io_apic, 0);
    assert_eq!(route.entry, 2);
    assert_eq!(route.low, 0x20);
    assert_eq!(route.high, 1 << 24);
    let level_low = route_isa_irq(&io, &info(), 9, 0x29, 0).unwrap();
    assert_eq!(level_low.low, 0x29 | 0x2000 | 0x8000);
    assert_eq!(route_isa_irq(&io, &info(), 5, 0x25, 0), Err(RouteError::UnsupportedPolarity));
    let none = [None, Some(IoApicRange { gsi_base: 24, redirections: 8 }), None, None];
    assert_eq!(route_isa_irq(&none, &info(), 1, 0x21, 0), Err(RouteError::NoIoApic));
}

#[test]
fn ps2_configuration_bytes() {
    assert_eq!(quiet_config(0xff), 0xfc);
    assert_eq!(active_config(0x40, true), 0x43);
    assert_eq!(active_config(0x70, false), 0x41);
    assert!(data_ready(0x21, true));
    assert!(!data_ready(0x21, false));
    assert!(!data_ready(0x20, true));
    assert!(wheel_id(3) && wheel_id(4) && !wheel_id(0));
}

#[test]
fn system_calls() {
    let exit = dispatch(SYS_EXIT, 7, 0x23, 100);
    assert_eq!(exit.result, EXIT_SENTINEL);
    assert_eq!(exit.exit_code, Some(7));
    assert_eq!(exit.caller_cpl, 3);
    let ticks = dispatch(SYS_TICKS, 0, 0x08, 100);
    assert_eq!(ticks.result, 100);
    assert_eq!(ticks.caller_cpl, 0);
    assert_eq!(dispatch(99, 0, 0, 0).result, ENOSYS);
    assert!(exit_ok(100));
    assert!(!exit_ok(0));
    assert!(!exit_ok(ENOSYS));
}

#[test]
fn apic_init_refuses_a_second_run_and_a_missing_apic() {
    let (state, action) = ApicInit::start(true, true, &info(), [0x20, 0x21, 0x2c]);
    assert_eq!(action, ApicAction::Fail(InitError::Twice));
    assert_eq!(state.stage, ApicStage::Finished);
    let (_, action) = ApicInit::start(false, false, &info(), [0x20, 0x21, 0x2c]);
    assert_eq!(action, ApicAction::Fail(InitError::NoLocalApic));
}

#[test]
fn apic_init_runs_to_the_routes() {
    let (state, action) = ApicInit::start(false, true, &info(), [0x20, 0x21, 0x2c]);
    assert_eq!(action, ApicAction::MaskPicAndMapLocal { physical: 0xfee0_0000 });
    let (state, action) = state.advance(Some(0x1000));
    assert_eq!(action, ApicAction::ProgramLocalAndReadId { physical: 0xfee0_0000, virtual_address: 0x1000 });
    let (state, action) = state.advance(Some(3 << 24));
    assert_eq!(state.local_id, 3);
    assert_eq!(action, ApicAction::MapIoApic { physical: 0xfec0_0000 });
    let (state, action) = state.advance(Some(0x2000));
    assert_eq!(action, ApicAction::ReadIoApicVersion { virtual_address: 0x2000 });
    let (state, action) = state.advance(Some(0x0017_0020));
    assert_eq!(action, ApicAction::MaskIoApic { virtual_address: 0x2000, redirections: 24 });
    let (state, action) = state.advance(None);
    assert_eq!(action, ApicAction::WriteRedirection { virtual_address: 0x2000, entry: 2, low: 0x20, high: 3 << 24 });
    let (state, action) = state.advance(None);
    assert_eq!(action, ApicAction::WriteRedirection { virtual_address: 0x2000, entry: 1, low: 0x21, high: 3 << 24 });
    let (state, action) = state.advance(None);
    assert_eq!(action, ApicAction::WriteRedirection { virtual_address: 0x2000, entry: 12, low: 0x2c, high: 3 << 24 });
    let (state, action) = state.advance(None);
    assert_eq!(action, ApicAction::Done { local_apic_id: 3, io_apic_count: 1 });
    assert_eq!(state.stage, ApicStage::Finished);
}

#[test]
fn apic_init_stops_when_a_mapping_fails() {
    let (state, _) = ApicInit::start(false, true, &info(), [0x20, 0x21, 0x2c]);
    let (state, action) = state.advance(None);
    assert_eq!(action, ApicAction::Fail(InitError::MapLocalFailed));
    assert_eq!(state.stage, ApicStage::Finished);
    assert_eq!(InitError::MapLocalFailed.message(), "failed to map local APIC MMIO");
}
