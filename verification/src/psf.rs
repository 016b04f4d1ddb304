//! PSF2 bitmap fonts: header validation and glyph lookup.

use crate::bytes::{get_u32, le32};
use vstd::prelude::*;
use vstd::utf8::{decode_first_scalar, length_of_first_scalar, valid_first_scalar};

verus! {

pub const PSF2_MAGIC: u32 = 0x864a_b572;

pub const PSF2_HEADER_SIZE: usize = 32;

pub const PSF2_HAS_UNICODE_TABLE: u32 = 1;

pub const MAX_DIMENSION: usize = 64;

pub const MAX_GLYPHS: usize = 65_536;

#[derive(Debug, Clone, Copy, PartialEq, Eq, Structural)]
pub enum PsfError {
    TooSmall,
    BadMagic,
    UnsupportedVersion,
    InvalidHeader,
    InvalidDimensions,
    InvalidGlyphCount,
    InvalidCharSize,
    TruncatedGlyphData,
}

impl PsfError {
    /// A one-line description of the error.
    pub fn message(&self) -> (r: &'static str)
        ensures
            r@ == match *self {
                PsfError::TooSmall => "PSF2 file is too small"@,
                PsfError::BadMagic => "not a PSF2 font"@,
                PsfError::UnsupportedVersion => "unsupported PSF2 version"@,
                PsfError::InvalidHeader => "invalid PSF2 header"@,
                PsfError::InvalidDimensions => "invalid PSF2 glyph dimensions"@,
                PsfError::InvalidGlyphCount => "invalid PSF2 glyph count"@,
                PsfError::InvalidCharSize => "invalid PSF2 glyph size"@,
                PsfError::TruncatedGlyphData => "truncated PSF2 glyph data"@,
            },
    {
        match self {
            PsfError::TooSmall => "PSF2 file is too small",
            PsfError::BadMagic => "not a PSF2 font",
            PsfError::UnsupportedVersion => "unsupported PSF2 version",
            PsfError::InvalidHeader => "invalid PSF2 header",
            PsfError::InvalidDimensions => "invalid PSF2 glyph dimensions",
            PsfError::InvalidGlyphCount => "invalid PSF2 glyph count",
            PsfError::InvalidCharSize => "invalid PSF2 glyph size",
            PsfError::TruncatedGlyphData => "truncated PSF2 glyph data",
        }
    }
}

/// Bytes of one bitmap row of a glyph `width` pixels wide.
pub open spec fn row_bytes(width: int) -> int {
    (width + 7) / 8
}

/// The first problem with a PSF2 file, checked in order.
pub open spec fn psf_error(d: Seq<u8>) -> Option<PsfError> {
    let header_size = le32(d, 8);
    let glyph_count = le32(d, 16);
    let char_size = le32(d, 20);
    let height = le32(d, 24);
    let width = le32(d, 28);
    if d.len() < PSF2_HEADER_SIZE {
        Some(PsfError::TooSmall)
    } else if le32(d, 0) != PSF2_MAGIC {
        Some(PsfError::BadMagic)
    } else if le32(d, 4) != 0 {
        Some(PsfError::UnsupportedVersion)
    } else if header_size < PSF2_HEADER_SIZE || header_size > d.len() {
        Some(PsfError::InvalidHeader)
    } else if width == 0 || height == 0 || width > MAX_DIMENSION || height > MAX_DIMENSION {
        Some(PsfError::InvalidDimensions)
    } else if glyph_count == 0 || glyph_count > MAX_GLYPHS {
        Some(PsfError::InvalidGlyphCount)
    } else if char_size < row_bytes(width) * height {
        Some(PsfError::InvalidCharSize)
    } else if header_size + glyph_count * char_size > d.len() {
        Some(PsfError::TruncatedGlyphData)
    } else {
        None
    }
}

/// Length of the UTF-8 sequence that starts with `first`, for the leading
/// bytes a PSF2 Unicode table may hold.
pub open spec fn sequence_len(first: u8) -> Option<int> {
    if first <= 0x7f {
        Some(1)
    } else if 0xc2 <= first <= 0xdf {
        Some(2)
    } else if 0xe0 <= first <= 0xef {
        Some(3)
    } else if 0xf0 <= first <= 0xf4 {
        Some(4)
    } else {
        None
    }
}

/// `bytes` is exactly the UTF-8 encoding of one scalar, and that scalar is `c`.
pub open spec fn encodes_char(bytes: Seq<u8>, c: char) -> bool {
    &&& valid_first_scalar(bytes)
    &&& length_of_first_scalar(bytes) == bytes.len()
    &&& decode_first_scalar(bytes) == c as u32
}

/// The glyph that the Unicode table `t` gives `c`, walking it from byte
/// `pos` while the current glyph is `glyph`: `0xff` ends a glyph's entries,
/// `0xfe` starts a sequence entry (skipped), and any other byte starts one
/// UTF-8 encoded character. A malformed entry ends the search.
pub open spec fn unicode_scan(t: Seq<u8>, glyph_count: int, c: char, glyph: int, pos: int) -> Option<int>
    decreases t.len() - pos,
{
    if glyph >= glyph_count || pos >= t.len() || pos < 0 {
        None
    } else if t[pos] == 0xff {
        unicode_scan(t, glyph_count, c, glyph + 1, pos + 1)
    } else if t[pos] == 0xfe {
        unicode_scan(t, glyph_count, c, glyph, pos + 1)
    } else {
        match sequence_len(t[pos]) {
            None => None,
            Some(w) => if pos + w > t.len() {
                None
            } else if encodes_char(t.subrange(pos, pos + w), c) {
                Some(glyph)
            } else {
                unicode_scan(t, glyph_count, c, glyph, pos + w)
            },
        }
    }
}

/// Validated PSF2 bitmap font.
///
/// The complete file is kept owned so the renderer can load fonts directly
/// from Generic VFS without leaking buffers or requiring a static lifetime.
#[derive(Debug)]
pub struct Psf2Font {
    data: Vec<u8>,
    header_size: usize,
    glyph_count: usize,
    char_size: usize,
    height: usize,
    width: usize,
    bytes_per_row: usize,
    flags: u32,
    glyph_data_end: usize,
}

impl Psf2Font {
    #[verifier::type_invariant]
    closed spec fn inv(&self) -> bool {
        let d = self.data@;
        &&& psf_error(d) is None
        &&& self.header_size == le32(d, 8)
        &&& self.flags == le32(d, 12)
        &&& self.glyph_count == le32(d, 16)
        &&& self.char_size == le32(d, 20)
        &&& self.height == le32(d, 24)
        &&& self.width == le32(d, 28)
        &&& self.bytes_per_row == row_bytes(self.width as int)
        &&& self.glyph_data_end == self.header_size + self.glyph_count * self.char_size
    }

    /// The whole font file.
    pub closed spec fn data_spec(&self) -> Seq<u8> {
        self.data@
    }

    /// Glyph width in pixels.
    pub closed spec fn width_spec(&self) -> usize {
        self.width
    }

    /// Glyph height in pixels.
    pub closed spec fn height_spec(&self) -> usize {
        self.height
    }

    /// Number of glyphs.
    pub closed spec fn glyph_count_spec(&self) -> usize {
        self.glyph_count
    }

    /// Where the glyph bitmaps start.
    pub closed spec fn header_size_spec(&self) -> usize {
        self.header_size
    }

    /// Bytes per glyph.
    pub closed spec fn char_size_spec(&self) -> usize {
        self.char_size
    }

    /// The header flags.
    pub closed spec fn flags_spec(&self) -> u32 {
        self.flags
    }

    /// Where the glyph bitmaps end and the Unicode table, if any, starts.
    pub closed spec fn glyph_data_end_spec(&self) -> usize {
        self.glyph_data_end
    }

    /// The glyph drawn for `c`: the Unicode table's choice when the font has
    /// one and it maps `c`, else `c`'s own code when it is a glyph, else `?`,
    /// else glyph 0.
    pub open spec fn glyph_for(&self, c: char) -> int {
        let table = self.data_spec().subrange(
            self.glyph_data_end_spec() as int,
            self.data_spec().len() as int,
        );
        let mapped = unicode_scan(table, self.glyph_count_spec() as int, c, 0, 0);
        if self.flags_spec() & PSF2_HAS_UNICODE_TABLE != 0 && mapped is Some {
            mapped->Some_0
        } else if (c as int) < self.glyph_count_spec() {
            c as int
        } else if 63 < self.glyph_count_spec() {
            63
        } else {
            0
        }
    }

    /// Whether pixel (`x`, `y`) of the glyph for `c` is set.
    pub open spec fn pixel_spec(&self, c: char, x: int, y: int) -> bool {
        let row = self.header_size_spec() + self.glyph_for(c) * self.char_size_spec() + y
            * row_bytes(self.width_spec() as int);
        let byte = self.data_spec()[row + x / 8];
        &&& 0 <= x < self.width_spec()
        &&& 0 <= y < self.height_spec()
        &&& byte & (0x80u8 >> ((x % 8) as u8)) != 0
    }

    /// Validates a PSF2 file and keeps it as a font.
    pub fn parse(data: Vec<u8>) -> (r: Result<Self, PsfError>)
        ensures
            match r {
                Ok(font) => {
                    &&& psf_error(data@) is None
                    &&& font.data_spec() == data@
                    &&& font.width_spec() == le32(data@, 28)
                    &&& font.height_spec() == le32(data@, 24)
                    &&& font.glyph_count_spec() == le32(data@, 16)
                    &&& font.header_size_spec() == le32(data@, 8)
                    &&& font.char_size_spec() == le32(data@, 20)
                    &&& font.flags_spec() == le32(data@, 12)
                    &&& font.glyph_data_end_spec() == le32(data@, 8) + le32(data@, 16) * le32(
                        data@,
                        20,
                    )
                },
                Err(e) => psf_error(data@) == Some(e),
            },
    {
        if data.len() < PSF2_HEADER_SIZE {
            return Err(PsfError::TooSmall);
        }
        if read_u32(&data, 0) != PSF2_MAGIC {
            return Err(PsfError::BadMagic);
        }
        if read_u32(&data, 4) != 0 {
            return Err(PsfError::UnsupportedVersion);
        }
        let header_size = read_u32(&data, 8) as usize;
        let flags = read_u32(&data, 12);
        let glyph_count = read_u32(&data, 16) as usize;
        let char_size = read_u32(&data, 20) as usize;
        let height = read_u32(&data, 24) as usize;
        let width = read_u32(&data, 28) as usize;
        if header_size < PSF2_HEADER_SIZE || header_size > data.len() {
            return Err(PsfError::InvalidHeader);
        }
        if width == 0 || height == 0 || width > MAX_DIMENSION || height > MAX_DIMENSION {
            return Err(PsfError::InvalidDimensions);
        }
        if glyph_count == 0 || glyph_count > MAX_GLYPHS {
            return Err(PsfError::InvalidGlyphCount);
        }
        let bytes_per_row = (width + 7) / 8;
        assert(bytes_per_row * height <= 8 * 64) by (nonlinear_arith)
            requires
                bytes_per_row <= 8,
                height <= 64,
        ;
        let minimum_char_size = bytes_per_row * height;
        if char_size < minimum_char_size {
            return Err(PsfError::InvalidCharSize);
        }
        let glyph_bytes = match glyph_count.checked_mul(char_size) {
            Some(bytes) => bytes,
            None => {
                return Err(PsfError::TruncatedGlyphData);
            },
        };
        let glyph_data_end = match header_size.checked_add(glyph_bytes) {
            Some(end) => end,
            None => {
                return Err(PsfError::TruncatedGlyphData);
            },
        };
        if glyph_data_end > data.len() {
            return Err(PsfError::TruncatedGlyphData);
        }
        Ok(Psf2Font {
            data,
            header_size,
            glyph_count,
            char_size,
            height,
            width,
            bytes_per_row,
            flags,
            glyph_data_end,
        })
    }

    /// Glyph width in pixels.
    pub fn width(&self) -> (r: usize)
        ensures
            r == self.width_spec(),
    {
        self.width
    }

    /// Glyph height in pixels.
    pub fn height(&self) -> (r: usize)
        ensures
            r == self.height_spec(),
    {
        self.height
    }

    /// Number of glyphs.
    pub fn glyph_count(&self) -> (r: usize)
        ensures
            r == self.glyph_count_spec(),
    {
        self.glyph_count
    }

    /// Whether pixel (`x`, `y`) of the glyph for `character` is set; `false`
    /// outside the glyph cell.
    pub fn pixel(&self, character: char, x: usize, y: usize) -> (r: bool)
        ensures
            r == self.pixel_spec(character, x as int, y as int),
    {
        proof {
            use_type_invariant(self);
        }
        if x >= self.width || y >= self.height {
            return false;
        }
        let glyph = self.glyph_index(character);
        proof {
            lemma_cell_inside(
                glyph as int,
                self.glyph_count as int,
                self.char_size as int,
                y as int,
                self.height as int,
                self.bytes_per_row as int,
                x as int,
                self.width as int,
            );
        }
        let row = self.header_size + glyph * self.char_size + y * self.bytes_per_row;
        let byte = self.data[row + x / 8];
        let mask: u8 = 0x80u8 >> ((x % 8) as u8);
        byte & mask != 0
    }

    /// The glyph drawn for `character`.
    fn glyph_index(&self, character: char) -> (r: usize)
        ensures
            r == self.glyph_for(character),
            r < self.glyph_count_spec(),
    {
        proof {
            use_type_invariant(self);
        }
        if self.flags & PSF2_HAS_UNICODE_TABLE != 0 {
            if let Some(index) = self.unicode_glyph_index(character) {
                return index;
            }
        }
        let direct = character as u32 as usize;
        if direct < self.glyph_count {
            direct
        } else if 63 < self.glyph_count {
            63
        } else {
            0
        }
    }

    /// The glyph that the Unicode table maps `character` to, if any.
    fn unicode_glyph_index(&self, character: char) -> (r: Option<usize>)
        ensures
            ({
                let scan = unicode_scan(
                    self.data_spec().subrange(
                        self.glyph_data_end_spec() as int,
                        self.data_spec().len() as int,
                    ),
                    self.glyph_count_spec() as int,
                    character,
                    0,
                    0,
                );
                match r {
                    Some(g) => g < self.glyph_count_spec() && scan == Some(g as int),
                    None => scan is None,
                }
            }),
    {
        proof {
            use_type_invariant(self);
        }
        let table = &self.data.as_slice()[self.glyph_data_end..self.data.len()];
        let ghost t = table@;
        let mut glyph: usize = 0;
        let mut position: usize = 0;
        while glyph < self.glyph_count && position < table.len()
            invariant
                t == table@,
                t == self.data_spec().subrange(
                    self.glyph_data_end_spec() as int,
                    self.data_spec().len() as int,
                ),
                glyph <= self.glyph_count,
                position <= t.len(),
                self.glyph_count == self.glyph_count_spec(),
                unicode_scan(t, self.glyph_count as int, character, 0, 0) == unicode_scan(
                    t,
                    self.glyph_count as int,
                    character,
                    glyph as int,
                    position as int,
                ),
            decreases t.len() - position,
        {
            if table[position] == 0xff {
                glyph = glyph + 1;
                position = position + 1;
                continue;
            }
            if table[position] == 0xfe {
                position = position + 1;
                continue;
            }
            let width = match utf8_sequence_len(table[position]) {
                Some(w) => w,
                None => {
                    return None;
                },
            };
            if width > table.len() - position {
                return None;
            }
            let end = position + width;
            let bytes = &table[position..end];
            if let Some(scalar) = decode_scalar(bytes) {
                if scalar == character as u32 {
                    return Some(glyph);
                }
            }
            position = end;
        }
        None
    }
}

/// The row that holds pixel (`x`, `y`) of glyph `g` lies inside the glyph data.
proof fn lemma_cell_inside(g: int, count: int, size: int, y: int, height: int, per_row: int, x: int, width: int)
    requires
        0 <= g < count,
        0 <= y < height,
        0 <= x < width,
        per_row == row_bytes(width),
        size >= per_row * height,
    ensures
        0 <= g * size,
        g * size + size <= count * size,
        0 <= y * per_row,
        y * per_row + x / 8 < size,
{
    assert(g * size + size <= count * size) by (nonlinear_arith)
        requires
            g < count,
            size >= 0,
    ;
    assert(y * per_row + per_row <= height * per_row) by (nonlinear_arith)
        requires
            y < height,
            per_row >= 0,
    ;
    assert(height * per_row == per_row * height) by (nonlinear_arith);
    assert(0 <= g * size) by (nonlinear_arith)
        requires
            g >= 0,
            size >= 0,
    ;
    assert(0 <= y * per_row) by (nonlinear_arith)
        requires
            y >= 0,
            per_row >= 0,
    ;
}

/// The little-endian u32 at `offset`.
fn read_u32(data: &Vec<u8>, offset: usize) -> (r: u32)
    requires
        offset + 4 <= data@.len(),
    ensures
        r == le32(data@, offset as int),
{
    get_u32(data.as_slice(), offset)
}

/// Length of the UTF-8 sequence that starts with `first`.
fn utf8_sequence_len(first: u8) -> (r: Option<usize>)
    ensures
        match r {
            Some(w) => sequence_len(first) == Some(w as int),
            None => sequence_len(first) is None,
        },
{
    if first <= 0x7f {
        Some(1)
    } else if 0xc2 <= first && first <= 0xdf {
        Some(2)
    } else if 0xe0 <= first && first <= 0xef {
        Some(3)
    } else if 0xf0 <= first && first <= 0xf4 {
        Some(4)
    } else {
        None
    }
}

/// The scalar that `bytes` encodes, when it is exactly one well-formed UTF-8
/// sequence whose length its leading byte gives.
fn decode_scalar(bytes: &[u8]) -> (r: Option<u32>)
    requires
        bytes@.len() >= 1,
        sequence_len(bytes@[0]) == Some(bytes@.len() as int),
    ensures
        match r {
            Some(v) => valid_first_scalar(bytes@) && length_of_first_scalar(bytes@)
                == bytes@.len() && v == decode_first_scalar(bytes@),
            None => !valid_first_scalar(bytes@),
        },
{
    let b0 = bytes[0];
    if bytes.len() == 1 {
        return Some((b0 & 0x7f) as u32);
    }
    let b1 = bytes[1];
    if !(0x80 <= b1 && b1 <= 0xbf) {
        return None;
    }
    if bytes.len() == 2 {
        let v = (((b0 & 0x1f) as u32) << 6u32) | ((b1 & 0x3f) as u32);
        assert(v <= 0x7ff) by (bit_vector)
            requires
                v == (((b0 & 0x1f) as u32) << 6u32) | ((b1 & 0x3f) as u32),
        ;
        if v < 0x80 {
            return None;
        }
        return Some(v);
    }
    let b2 = bytes[2];
    if !(0x80 <= b2 && b2 <= 0xbf) {
        return None;
    }
    if bytes.len() == 3 {
        let v = (((b0 & 0x0f) as u32) << 12u32) | (((b1 & 0x3f) as u32) << 6u32) | ((b2 & 0x3f) as u32);
        if v < 0x800 || (0xd800 <= v && v <= 0xdfff) {
            return None;
        }
        return Some(v);
    }
    let b3 = bytes[3];
    if !(0x80 <= b3 && b3 <= 0xbf) {
        return None;
    }
    let v = (((b0 & 0x07) as u32) << 18u32) | (((b1 & 0x3f) as u32) << 12u32) | (((b2 & 0x3f) as u32)
        << 6u32) | ((b3 & 0x3f) as u32);
    if v < 0x10000 || v > 0x10ffff {
        return None;
    }
    Some(v)
}

/// A font is what `Psf2Font::parse` makes of the file `data`.
pub open spec fn font_of(font: Psf2Font, data: Seq<u8>) -> bool {
    &&& font.data_spec() == data
    &&& font.width_spec() == le32(data, 28)
    &&& font.height_spec() == le32(data, 24)
    &&& font.glyph_count_spec() == le32(data, 16)
    &&& font.header_size_spec() == le32(data, 8)
    &&& font.char_size_spec() == le32(data, 20)
    &&& font.flags_spec() == le32(data, 12)
    &&& font.glyph_data_end_spec() == le32(data, 8) + le32(data, 16) * le32(data, 20)
}

/// Where in a PSF2 file the byte holding pixel (`x`, `y`) of glyph `g` is:
/// after the header, `g` whole glyphs of `char_size` bytes, `y` rows of
/// one byte per started eight pixels, and `x / 8` bytes of row `y`.
pub open spec fn glyph_byte_at(data: Seq<u8>, g: int, x: int, y: int) -> int {
    le32(data, 8) + g * le32(data, 20) + y * ((le32(data, 28) + 7) / 8) + x / 8
}

/// A glyph pixel is one bit of the font file: pixel (`x`, `y`) of the glyph
/// drawn for `c` is set exactly when it lies inside the cell and bit
/// `7 - x % 8` (most significant first) of the byte at `glyph_byte_at` is
/// set; outside the cell it is clear.
pub proof fn law_pixel_is_file_bit(font: Psf2Font, data: Seq<u8>, c: char, x: int, y: int)
    requires
        font_of(font, data),
    ensures
        font.pixel_spec(c, x, y) == (0 <= x < le32(data, 28) && 0 <= y < le32(data, 24) && data[glyph_byte_at(
            data,
            font.glyph_for(c),
            x,
            y,
        )] & (0x80u8 >> ((x % 8) as u8)) != 0),
{
}

/// Each bitmap byte holds only its own pixels: two fonts read from files
/// that differ only in one byte `k` of the glyph bitmaps draw the same
/// glyphs, and show the same pixel everywhere except at the pixels byte
/// `k` holds. In particular distinct rows of a glyph are held by distinct
/// bytes, so changing one row leaves the others as they were.
pub proof fn law_pixel_reads_own_byte(
    a: Psf2Font,
    da: Seq<u8>,
    b: Psf2Font,
    db: Seq<u8>,
    k: int,
    c: char,
    x: int,
    y: int,
)
    requires
        font_of(a, da),
        font_of(b, db),
        da.len() == db.len(),
        32 <= k < le32(da, 8) + le32(da, 16) * le32(da, 20),
        le32(da, 8) + le32(da, 16) * le32(da, 20) <= da.len(),
        forall|j: int| 0 <= j < da.len() && j != k ==> #[trigger] da[j] == db[j],
    ensures
        a.glyph_for(c) == b.glyph_for(c),
        glyph_byte_at(da, a.glyph_for(c), x, y) != k && 0 <= glyph_byte_at(da, a.glyph_for(c), x, y) < da.len()
            ==> a.pixel_spec(c, x, y) == b.pixel_spec(c, x, y),
{
    assert forall|j: int| 0 <= j < 32 implies da[j] == db[j] by {}
    assert(le32(da, 8) == le32(db, 8));
    assert(le32(da, 12) == le32(db, 12));
    assert(le32(da, 16) == le32(db, 16));
    assert(le32(da, 20) == le32(db, 20));
    assert(le32(da, 24) == le32(db, 24));
    assert(le32(da, 28) == le32(db, 28));
    let end = a.glyph_data_end_spec() as int;
    assert forall|j: int| 0 <= j < da.len() - end implies da.subrange(end, da.len() as int)[j] == db.subrange(
        end,
        db.len() as int,
    )[j] by {
        assert(da[end + j] == db[end + j]);
    }
    assert(da.subrange(end, da.len() as int) =~= db.subrange(end, db.len() as int));
    let idx = glyph_byte_at(da, a.glyph_for(c), x, y);
    if idx != k && 0 <= idx < da.len() {
        assert(da[idx] == db[idx]);
    }
}

/// Without a Unicode table (bit 0 of the header flags at offset 12 clear),
/// a character whose code is below the glyph count is drawn with the glyph
/// of that number, and any other character with glyph 63 (`?`) when the
/// font has one.
pub proof fn law_glyph_without_table(font: Psf2Font, data: Seq<u8>, c: char)
    requires
        font_of(font, data),
        le32(data, 12) % 2 == 0,
    ensures
        (c as int) < le32(data, 16) ==> font.glyph_for(c) == c as int,
        (c as int) >= le32(data, 16) > 63 ==> font.glyph_for(c) == 63,
{
    let f = le32(data, 12) as u32;
    assert(le32(data, 12) < 0x1_0000_0000);
    assert(f as int == le32(data, 12));
    assert(f % 2 == 0 ==> f & 1 == 0) by (bit_vector);
}

} // verus!
