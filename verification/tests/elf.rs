use kernel_core::elf::{ElfError, ElfImage};

fn fixture() -> Vec<u8> {
    let mut elf = vec![0u8; 0x104];
    elf[0..4].copy_from_slice(b"\x7fELF");
    elf[4] = 2;
    elf[5] = 1;
    elf[6] = 1;
    elf[16..18].copy_from_slice(&2u16.to_le_bytes());
    elf[18..20].copy_from_slice(&62u16.to_le_bytes());
    elf[20..24].copy_from_slice(&1u32.to_le_bytes());
    elf[24..32].copy_from_slice(&0x400000u64.to_le_bytes());
    elf[32..40].copy_from_slice(&64u64.to_le_bytes());
    elf[52..54].copy_from_slice(&64u16.to_le_bytes());
    elf[54..56].copy_from_slice(&56u16.to_le_bytes());
    elf[56..58].copy_from_slice(&1u16.to_le_bytes());

    let ph = 64;
    elf[ph..ph + 4].copy_from_slice(&1u32.to_le_bytes());
    elf[ph + 4..ph + 8].copy_from_slice(&5u32.to_le_bytes());
    elf[ph + 8..ph + 16].copy_from_slice(&0x100u64.to_le_bytes());
    elf[ph + 16..ph + 24].copy_from_slice(&0x400000u64.to_le_bytes());
    elf[ph + 32..ph + 40].copy_from_slice(&4u64.to_le_bytes());
    elf[ph + 40..ph + 48].copy_from_slice(&16u64.to_le_bytes());
    elf[ph + 48..ph + 56].copy_from_slice(&0x100u64.to_le_bytes());
    elf[0x100..0x104].copy_from_slice(&[0x90, 0x90, 0xcd, 0x80]);
    elf
}

#[test]
fn parses_x86_64_load_segment() {
    let elf = fixture();
    let image = ElfImage::parse(&elf).unwrap();
    assert_eq!(image.entry(), 0x400000);
    assert_eq!(image.segments().len(), 1);
    let segment = image.segments()[0];
    assert_eq!(segment.virtual_address, 0x400000);
    assert_eq!(segment.memory_size, 16);
    assert_eq!(segment.file_data, &[0x90, 0x90, 0xcd, 0x80]);
    assert!(segment.readable);
    assert!(!segment.writable);
    assert!(segment.executable);
}

#[test]
fn rejects_truncated_segment() {
    let mut elf = fixture();
    let ph = 64;
    elf[ph + 32..ph + 40].copy_from_slice(&128u64.to_le_bytes());
    assert_eq!(ElfImage::parse(&elf).unwrap_err(), ElfError::TruncatedSegment);
}

#[test]
fn rejects_non_x86_64_and_bad_alignment() {
    let mut elf = fixture();
    elf[18..20].copy_from_slice(&3u16.to_le_bytes());
    assert_eq!(ElfImage::parse(&elf).unwrap_err(), ElfError::UnsupportedMachine);

    let mut elf = fixture();
    let ph = 64;
    elf[ph + 48..ph + 56].copy_from_slice(&3u64.to_le_bytes());
    assert_eq!(ElfImage::parse(&elf).unwrap_err(), ElfError::InvalidSegment);
}

#[test]
fn rejects_bad_magic_and_short_files() {
    let mut elf = fixture();
    elf[1] = b'X';
    assert_eq!(ElfImage::parse(&elf).unwrap_err(), ElfError::BadMagic);
    assert_eq!(ElfImage::parse(&elf[..10]).unwrap_err(), ElfError::TooSmall);
}
