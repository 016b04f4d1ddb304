use kernel_core::acpi::{
    checksum, direct_map_address, parse_madt, AcpiError, AcpiStep, ApicDiscovery, ApicInfo,
};

fn fix_checksum(table: &mut [u8], at: usize) {
    table[at] = 0;
    let sum = table.iter().fold(0u8, |s, b| s.wrapping_add(*b));
    table[at] = 0u8.wrapping_sub(sum);
}

fn sdt(signature: &[u8; 4], body: &[u8]) -> Vec<u8> {
    let mut t = vec![0u8; 36];
    t[0..4].copy_from_slice(signature);
    t.extend_from_slice(body);
    let len = t.len() as u32;
    t[4..8].copy_from_slice(&len.to_le_bytes());
    fix_checksum(&mut t, 9);
    t
}

fn madt() -> Vec<u8> {
    let mut body = Vec::new();
    body.extend_from_slice(&0xfee0_0000u32.to_le_bytes()); // local APIC
    body.extend_from_slice(&1u32.to_le_bytes()); // flags
    // I/O APIC: type 1, length 12, id, reserved, address, gsi base
    body.extend_from_slice(&[1, 12, 0, 0]);
    body.extend_from_slice(&0xfec0_0000u32.to_le_bytes());
    body.extend_from_slice(&0u32.to_le_bytes());
    // override: IRQ0 -> GSI 2, flags 0
    body.extend_from_slice(&[2, 10, 0, 0]);
    body.extend_from_slice(&2u32.to_le_bytes());
    body.extend_from_slice(&0u16.to_le_bytes());
    // an entry of an unknown type
    body.extend_from_slice(&[9, 4, 0, 0]);
    sdt(b"APIC", &body)
}

struct Memory {
    tables: Vec<(u64, Vec<u8>)>,
}

impl Memory {
    fn read(&self, physical: u64, length: usize) -> Vec<u8> {
        for (base, bytes) in &self.tables {
            if physical >= *base && physical + length as u64 <= *base + bytes.len() as u64 {
                let start = (physical - base) as usize;
                return bytes[start..start + length].to_vec();
            }
        }
        vec![0; length]
    }
}

fn discover(memory: &Memory, rsdp: u64) -> Result<ApicInfo, AcpiError> {
    let (mut discovery, mut step) = ApicDiscovery::start(rsdp);
    loop {
        match step {
            AcpiStep::Read(read) => {
                let bytes = memory.read(read.physical, read.length);
                let (next, next_step) = discovery.advance(&bytes);
                discovery = next;
                step = next_step;
            }
            AcpiStep::Done(result) => return result,
        }
    }
}

fn platform() -> Memory {
    let mut rsdp = vec![0u8; 20];
    rsdp[0..8].copy_from_slice(b"RSD PTR ");
    rsdp[15] = 0;
    rsdp[16..20].copy_from_slice(&0x2000u32.to_le_bytes());
    fix_checksum(&mut rsdp, 8);
    let mut root_body = Vec::new();
    root_body.extend_from_slice(&0u32.to_le_bytes()); // a null entry is skipped
    root_body.extend_from_slice(&0x3000u32.to_le_bytes());
    root_body.extend_from_slice(&0x4000u32.to_le_bytes());
    let rsdt = sdt(b"RSDT", &root_body);
    let facp = sdt(b"FACP", &[0u8; 8]);
    Memory { tables: vec![(0x1000, rsdp), (0x2000, rsdt), (0x3000, facp), (0x4000, madt())] }
}

#[test]
fn finds_interrupt_controllers_through_the_root_table() {
    let info = discover(&platform(), 0x1000).unwrap();
    assert_eq!(info.local_apic_address, 0xfee0_0000);
    assert_eq!(info.io_apic_count, 1);
    assert_eq!(info.io_apics[0].address, 0xfec0_0000);
    assert_eq!(info.io_apics[0].gsi_base, 0);
    let over = info.overrides[0].unwrap();
    assert_eq!(over.gsi, 2);
    assert_eq!(over.source_irq, 0);
    assert!(info.overrides[1].is_none());
}

#[test]
fn rejects_a_bad_root_pointer() {
    let mut memory = platform();
    memory.tables[0].1[0] = b'X';
    assert_eq!(discover(&memory, 0x1000).unwrap_err(), AcpiError::InvalidRsdpSignature);
    let mut memory = platform();
    memory.tables[0].1[10] ^= 1;
    assert_eq!(discover(&memory, 0x1000).unwrap_err(), AcpiError::InvalidRsdpChecksum);
}

#[test]
fn reports_missing_madt_and_bad_tables() {
    let mut memory = platform();
    memory.tables.pop();
    assert_eq!(discover(&memory, 0x1000).unwrap_err(), AcpiError::InvalidSdtLength);
    let mut memory = platform();
    memory.tables[3].1[40] ^= 1;
    assert_eq!(discover(&memory, 0x1000).unwrap_err(), AcpiError::InvalidSdtChecksum);
    assert_eq!(AcpiError::MadtNotFound.message(), "ACPI MADT not found");
}

#[test]
fn madt_entries_are_checked() {
    assert_eq!(parse_madt(&[0u8; 20]).unwrap_err(), AcpiError::MadtTruncated);
    let mut table = madt();
    table.push(1); // a lone type byte
    assert_eq!(parse_madt(&table).unwrap_err(), AcpiError::TruncatedMadtEntry);
    let mut table = madt();
    table.extend_from_slice(&[1, 1]);
    assert_eq!(parse_madt(&table).unwrap_err(), AcpiError::InvalidMadtEntryLength);
    let mut table = madt();
    table[36..40].copy_from_slice(&0u32.to_le_bytes());
    assert_eq!(parse_madt(&table).unwrap_err(), AcpiError::NoLocalApic);
}

#[test]
fn checksum_and_direct_map() {
    assert_eq!(checksum(&[0xff, 0x02]), 1);
    assert_eq!(checksum(&[]), 0);
    assert_eq!(direct_map_address(0x1000, 0x20, 4), Ok(0x1020));
    assert_eq!(direct_map_address(u64::MAX, 1, 4), Err(AcpiError::AddressOverflow));
    assert_eq!(direct_map_address(0, 1, 0), Err(AcpiError::ZeroLength));
}
