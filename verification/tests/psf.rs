use kernel_core::psf::{Psf2Font, PsfError, PSF2_HAS_UNICODE_TABLE, PSF2_HEADER_SIZE, PSF2_MAGIC};

fn font_with_glyphs(width: u32, height: u32, glyph_count: u32) -> Vec<u8> {
    let bytes_per_row = (width as usize).div_ceil(8);
    let char_size = bytes_per_row * height as usize;
    let mut data = vec![0u8; PSF2_HEADER_SIZE + char_size * glyph_count as usize];
    data[0..4].copy_from_slice(&PSF2_MAGIC.to_le_bytes());
    data[4..8].copy_from_slice(&0u32.to_le_bytes());
    data[8..12].copy_from_slice(&(PSF2_HEADER_SIZE as u32).to_le_bytes());
    data[12..16].copy_from_slice(&0u32.to_le_bytes());
    data[16..20].copy_from_slice(&glyph_count.to_le_bytes());
    data[20..24].copy_from_slice(&(char_size as u32).to_le_bytes());
    data[24..28].copy_from_slice(&height.to_le_bytes());
    data[28..32].copy_from_slice(&width.to_le_bytes());
    data
}

#[test]
fn parses_and_reads_direct_ascii_glyph() {
    let mut data = font_with_glyphs(8, 8, 128);
    let glyph_size = 8usize;
    let a = PSF2_HEADER_SIZE + ('A' as usize) * glyph_size;
    data[a] = 0b1000_0001;

    let font = Psf2Font::parse(data).unwrap();
    assert_eq!(font.width(), 8);
    assert_eq!(font.height(), 8);
    assert_eq!(font.glyph_count(), 128);
    assert!(font.pixel('A', 0, 0));
    assert!(font.pixel('A', 7, 0));
    assert!(!font.pixel('A', 1, 0));
}

#[test]
fn rejects_invalid_dimensions_and_truncated_data() {
    assert_eq!(Psf2Font::parse(font_with_glyphs(0, 8, 128)).unwrap_err(), PsfError::InvalidDimensions);

    let mut data = font_with_glyphs(8, 16, 128);
    data.truncate(data.len() - 1);
    assert_eq!(Psf2Font::parse(data).unwrap_err(), PsfError::TruncatedGlyphData);
}

#[test]
fn unicode_table_can_override_direct_glyph_index() {
    let mut data = font_with_glyphs(8, 8, 2);
    data[12..16].copy_from_slice(&PSF2_HAS_UNICODE_TABLE.to_le_bytes());
    let glyph_size = 8usize;
    let glyph_one = PSF2_HEADER_SIZE + glyph_size;
    data[glyph_one] = 0x80;
    data.extend_from_slice(&[b'A', 0xff, b'B', 0xff]);

    let font = Psf2Font::parse(data).unwrap();
    assert!(font.pixel('B', 0, 0));
    assert!(!font.pixel('A', 0, 0));
}

#[test]
fn rejects_bad_magic() {
    let mut data = font_with_glyphs(8, 8, 1);
    data[0] ^= 0xff;
    assert_eq!(Psf2Font::parse(data).unwrap_err(), PsfError::BadMagic);
}
