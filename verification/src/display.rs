//! The boot framebuffer as user programs see it: its description, and the
//! copy of an XRGB8888 picture into it in the framebuffer's own layout.

use vstd::prelude::*;

verus! {

pub const ABI_VERSION: u32 = 1;
pub const SOURCE_FORMAT_XRGB8888: u32 = 1;

#[derive(Clone, Copy, Debug, PartialEq, Eq, Structural)]
pub struct DisplayInfo {
    pub width: usize,
    pub height: usize,
    pub native_pixel_format: u32,
}

#[derive(Clone, Copy, Debug, PartialEq, Eq, Structural)]
pub enum NativePixelFormat {
    Rgb,
    Bgr,
    U8,
    Other,
}

/// The framebuffer: `length` bytes at `address`, rows of `stride` pixels of
/// `bytes_per_pixel` bytes, `width` by `height` of them shown.
#[derive(Clone, Copy, Debug, PartialEq, Eq, Structural)]
pub struct DisplayState {
    pub address: usize,
    pub length: usize,
    pub width: usize,
    pub height: usize,
    pub stride: usize,
    pub bytes_per_pixel: usize,
    pub format: NativePixelFormat,
}

#[derive(Clone, Copy, Debug, PartialEq, Eq, Structural)]
pub enum DisplayError {
    NotInitialized,
    SizeOverflow,
    SizeMismatch,
    PixelOverflow,
    OffsetOverflow,
    MappingTooSmall,
}

/// The text that describes `e`.
pub open spec fn display_text(e: DisplayError) -> Seq<char> {
    match e {
        DisplayError::NotInitialized => "display is not initialized"@,
        DisplayError::SizeOverflow => "display size overflow"@,
        DisplayError::SizeMismatch => "display buffer size mismatch"@,
        DisplayError::PixelOverflow => "framebuffer pixel overflow"@,
        DisplayError::OffsetOverflow => "framebuffer offset overflow"@,
        DisplayError::MappingTooSmall => "framebuffer mapping is too small"@,
    }
}

impl DisplayError {
    /// A one-line description of the error.
    pub fn message(&self) -> (r: &'static str)
        ensures
            r@ == display_text(*self),
    {
        match self {
            DisplayError::NotInitialized => "display is not initialized",
            DisplayError::SizeOverflow => "display size overflow",
            DisplayError::SizeMismatch => "display buffer size mismatch",
            DisplayError::PixelOverflow => "framebuffer pixel overflow",
            DisplayError::OffsetOverflow => "framebuffer offset overflow",
            DisplayError::MappingTooSmall => "framebuffer mapping is too small",
        }
    }
}

/// The number user programs know a layout by.
pub open spec fn format_number(f: NativePixelFormat) -> u32 {
    match f {
        NativePixelFormat::Rgb => 1,
        NativePixelFormat::Bgr => 2,
        NativePixelFormat::U8 => 3,
        NativePixelFormat::Other => 0,
    }
}

pub fn format_code(f: NativePixelFormat) -> (r: u32)
    ensures
        r == format_number(f),
{
    match f {
        NativePixelFormat::Rgb => 1,
        NativePixelFormat::Bgr => 2,
        NativePixelFormat::U8 => 3,
        NativePixelFormat::Other => 0,
    }
}

/// The description of the display, once there is one.
pub fn info(state: Option<DisplayState>) -> (r: Option<DisplayInfo>)
    ensures
        match state {
            None => r is None,
            Some(s) => r == Some(
                DisplayInfo { width: s.width, height: s.height, native_pixel_format: format_number(s.format) },
            ),
        },
{
    match state {
        None => None,
        Some(s) => Some(DisplayInfo { width: s.width, height: s.height, native_pixel_format: format_code(s.format) }),
    }
}

/// A picture of `length` bytes fits the display: 4 bytes for each pixel
/// shown. Gives the display where it does.
pub fn check_picture(state: Option<DisplayState>, length: usize) -> (r: Result<DisplayState, DisplayError>)
    ensures
        match state {
            None => r == Err::<DisplayState, DisplayError>(DisplayError::NotInitialized),
            Some(s) => if s.width * s.height * 4 > usize::MAX {
                r == Err::<DisplayState, DisplayError>(DisplayError::SizeOverflow)
            } else if length != s.width * s.height * 4 {
                r == Err::<DisplayState, DisplayError>(DisplayError::SizeMismatch)
            } else {
                r == Ok::<DisplayState, DisplayError>(s)
            },
        },
{
    let s = match state {
        Some(s) => s,
        None => return Err(DisplayError::NotInitialized),
    };
    let pixels = match s.width.checked_mul(s.height) {
        Some(p) => p,
        None => {
            proof {
                assert(s.width * s.height * 4 > usize::MAX) by (nonlinear_arith)
                    requires
                        s.width * s.height > usize::MAX,
                ;
            }
            return Err(DisplayError::SizeOverflow);
        },
    };
    let expected = match pixels.checked_mul(4) {
        Some(e) => e,
        None => return Err(DisplayError::SizeOverflow),
    };
    if length != expected {
        return Err(DisplayError::SizeMismatch);
    }
    Ok(s)
}

/// Where pixel (`x`, `y`) starts in the framebuffer, or why it has no place.
pub open spec fn pixel_place(s: DisplayState, x: int, y: int) -> Result<int, DisplayError> {
    let row = y * s.stride;
    if row > usize::MAX || row + x > usize::MAX {
        Err(DisplayError::PixelOverflow)
    } else if (row + x) * s.bytes_per_pixel > usize::MAX {
        Err(DisplayError::OffsetOverflow)
    } else if (row + x) * s.bytes_per_pixel >= s.length {
        Err(DisplayError::MappingTooSmall)
    } else {
        Ok((row + x) * s.bytes_per_pixel)
    }
}

/// The first pixel without a place, scanning rows from pixel `n` (counted
/// row by row) on.
pub open spec fn scan_places(s: DisplayState, n: int) -> Result<(), DisplayError>
    decreases s.width * s.height - n,
{
    if n < 0 || n >= s.width * s.height || s.width == 0 {
        Ok(())
    } else {
        match pixel_place(s, n % s.width as int, n / s.width as int) {
            Err(e) => Err(e),
            Ok(_) => scan_places(s, n + 1),
        }
    }
}

/// The bytes a framebuffer pixel gets for the XRGB8888 pixel of blue `b`,
/// green `g`, red `r`.
pub open spec fn encode(f: NativePixelFormat, b: u8, g: u8, r: u8) -> Seq<u8> {
    match f {
        NativePixelFormat::Rgb => seq![r, g, b, 0u8],
        NativePixelFormat::Bgr => seq![b, g, r, 0u8],
        NativePixelFormat::U8 => seq![((r as int + g as int + b as int) / 3) as u8, 0u8, 0u8, 0u8],
        NativePixelFormat::Other => seq![b, g, r, 0u8],
    }
}

/// How many bytes of a pixel at `offset` are written: the pixel size, at
/// most 4, and nothing past the end.
pub open spec fn byte_count(s: DisplayState, offset: int) -> int {
    let c = if s.bytes_per_pixel < 4 { s.bytes_per_pixel as int } else { 4 };
    if c < s.length - offset { c } else { s.length - offset }
}

/// Pixel `n` of `picture` (4 bytes each: blue, green, red, unused) in the
/// framebuffer's layout.
pub open spec fn encoded_pixel(s: DisplayState, picture: Seq<u8>, n: int) -> Seq<u8> {
    encode(s.format, picture[4 * n], picture[4 * n + 1], picture[4 * n + 2])
}

/// Pixel `n` of `picture` is in the framebuffer `frame`.
pub open spec fn pixel_shown(s: DisplayState, picture: Seq<u8>, frame: Seq<u8>, n: int) -> bool {
    let x = n % s.width as int;
    let y = n / s.width as int;
    pixel_place(s, x, y) matches Ok(offset) && forall|k: int|
        0 <= k < byte_count(s, offset) ==> #[trigger] frame[offset + k] == encoded_pixel(s, picture, n)[k]
}

/// Copies the XRGB8888 `picture` into the framebuffer `frame` row by row,
/// stopping at the first pixel that has no place in it.
pub fn present_xrgb8888(s: &DisplayState, picture: &[u8], frame: &mut [u8]) -> (r: Result<(), DisplayError>)
    requires
        picture@.len() == s.width * s.height * 4,
        old(frame)@.len() == s.length,
    ensures
        final(frame)@.len() == s.length,
        r == scan_places(*s, 0),
        r is Ok && s.stride >= s.width ==> forall|n: int|
            0 <= n < s.width * s.height ==> #[trigger] pixel_shown(*s, picture@, final(frame)@, n),
{
    let width = s.width;
    let height = s.height;
    let plen = picture.len();
    let flen = frame.len();
    let ghost total = width * height;
    let mut y: usize = 0;
    while y < height
        invariant
            width == s.width,
            height == s.height,
            total == width * height,
            picture@.len() == total * 4,
            plen == picture@.len(),
            flen == frame@.len(),
            frame@.len() == s.length,
            y <= height,
            width > 0 ==> scan_places(*s, 0) == scan_places(*s, (y * width) as int),
            s.stride >= s.width ==> forall|n: int| 0 <= n < y * width ==> #[trigger] pixel_shown(*s, picture@, frame@, n),
        decreases height - y,
    {
        let mut x: usize = 0;
        while x < width
            invariant
                width == s.width,
                height == s.height,
                total == width * height,
                picture@.len() == total * 4,
                plen == picture@.len(),
                flen == frame@.len(),
                frame@.len() == s.length,
                y < height,
                x <= width,
                scan_places(*s, 0) == scan_places(*s, (y * width + x) as int),
                s.stride >= s.width ==> forall|n: int|
                    0 <= n < y * width + x ==> #[trigger] pixel_shown(*s, picture@, frame@, n),
            decreases width - x,
        {
            let ghost n = y * width + x;
            proof {
                lemma_index_parts(x as int, y as int, width as int, height as int);
                assert((y + 1) * width * 4 <= width * height * 4) by (nonlinear_arith)
                    requires
                        (y + 1) * width <= width * height,
                ;
            }
            let row = match y.checked_mul(s.stride) {
                Some(row) => row,
                None => return Err(DisplayError::PixelOverflow),
            };
            let pixel = match row.checked_add(x) {
                Some(p) => p,
                None => return Err(DisplayError::PixelOverflow),
            };
            let offset = match pixel.checked_mul(s.bytes_per_pixel) {
                Some(o) => o,
                None => return Err(DisplayError::OffsetOverflow),
            };
            if offset >= s.length {
                return Err(DisplayError::MappingTooSmall);
            }
            let source = pixel_of(y, width, x);
            let blue = picture[source];
            let green = picture[source + 1];
            let red = picture[source + 2];
            let encoded: [u8; 4] = match s.format {
                NativePixelFormat::Rgb => [red, green, blue, 0],
                NativePixelFormat::Bgr => [blue, green, red, 0],
                NativePixelFormat::U8 => {
                    let intensity = ((red as u16 + green as u16 + blue as u16) / 3) as u8;
                    [intensity, 0, 0, 0]
                },
                NativePixelFormat::Other => [blue, green, red, 0],
            };
            proof {
                assert(encoded@ =~= encoded_pixel(*s, picture@, n));
            }
            let mut count = s.bytes_per_pixel;
            if count > 4 {
                count = 4;
            }
            if count > s.length - offset {
                count = s.length - offset;
            }
            let ghost before = frame@;
            let mut k: usize = 0;
            while k < count
                invariant
                    count <= 4,
                    flen == frame@.len(),
                    offset + count <= frame@.len(),
                    frame@.len() == before.len(),
                    k <= count,
                    forall|i: int| 0 <= i < frame@.len() && !(offset <= i < offset + k) ==> frame@[i] == before[i],
                    forall|i: int| 0 <= i < k ==> frame@[offset + i] == encoded@[i],
                decreases count - k,
            {
                frame[offset + k] = encoded[k];
                k += 1;
            }
            proof {
                assert(pixel_place(*s, x as int, y as int) == Ok::<int, DisplayError>(offset as int));
                assert(count == byte_count(*s, offset as int));
                if s.stride >= s.width {
                    assert forall|m: int| 0 <= m < n + 1 implies #[trigger] pixel_shown(*s, picture@, frame@, m) by {
                        if m < n {
                            lemma_earlier_pixel(*s, m, n, x as int, y as int);
                            assert(pixel_shown(*s, picture@, before, m));
                            let o = pixel_place(*s, m % s.width as int, m / s.width as int)->Ok_0;
                            assert forall|k: int| 0 <= k < byte_count(*s, o) implies #[trigger] frame@[o + k]
                                == encoded_pixel(*s, picture@, m)[k] by {
                                assert(before[o + k] == encoded_pixel(*s, picture@, m)[k]);
                                assert(frame@[o + k] == before[o + k]);
                            }
                        } else {
                            assert forall|k: int| 0 <= k < byte_count(*s, offset as int) implies #[trigger] frame@[
                                offset + k] == encoded_pixel(*s, picture@, m)[k] by {
                                assert(frame@[offset + k] == encoded@[k]);
                            }
                        }
                    }
                }
            }
            x += 1;
        }
        proof {
            assert(y * width + width == (y + 1) * width) by (nonlinear_arith);
        }
        y += 1;
    }
    proof {
        assert(y * width == width * height) by (nonlinear_arith)
            requires
                y == height,
        ;
        if width > 0 {
            assert(scan_places(*s, (y * width) as int) == Ok::<(), DisplayError>(()));
        } else {
            assert(scan_places(*s, 0) == Ok::<(), DisplayError>(()));
            assert(total == 0) by (nonlinear_arith)
                requires
                    width == 0,
                    total == width * height,
            ;
        }
    }
    Ok(())
}

/// The index of the first byte of pixel (`x`, `y`) in the picture.
fn pixel_of(y: usize, width: usize, x: usize) -> (r: usize)
    requires
        y < usize::MAX,
        x < width,
        (y + 1) * width * 4 <= usize::MAX,
    ensures
        r == 4 * (y * width + x),
        r + 3 < (y + 1) * width * 4,
{
    assert(y * width + x < (y + 1) * width) by (nonlinear_arith)
        requires
            x < width,
    ;
    assert(4 * (y * width + x) + 3 < (y + 1) * width * 4) by (nonlinear_arith)
        requires
            y * width + x < (y + 1) * width,
    ;
    assert(y * width <= (y + 1) * width * 4) by (nonlinear_arith)
        requires
            width > 0,
    ;
    4 * (y * width + x)
}

/// The pixel at (`x`, `y`) is pixel `y * w + x` of its scan, inside the
/// picture.
proof fn lemma_index_parts(x: int, y: int, w: int, h: int)
    requires
        0 <= x < w,
        0 <= y < h,
    ensures
        (y * w + x) % w == x,
        (y * w + x) / w == y,
        0 <= y * w + x < w * h,
        (y + 1) * w <= w * h,
{
    vstd::arithmetic::div_mod::lemma_fundamental_div_mod_converse(y * w + x, w, y, x);
    assert(0 <= y * w + x < w * h) by (nonlinear_arith)
        requires
            0 <= x < w,
            0 <= y < h,
    ;
    assert((y + 1) * w <= w * h) by (nonlinear_arith)
        requires
            0 <= x < w,
            0 <= y < h,
    ;
}

/// An earlier pixel starts a whole pixel before the bytes of a later one,
/// when rows are at least as long as the picture's.
proof fn lemma_earlier_pixel(s: DisplayState, m: int, n: int, x: int, y: int)
    requires
        0 <= m < n,
        n == y * s.width + x,
        0 <= x < s.width,
        0 <= y,
        s.stride >= s.width,
        pixel_place(s, x, y) is Ok,
    ensures
        pixel_place(s, m % s.width as int, m / s.width as int) matches Ok(o) ==> o + byte_count(s, o) <= pixel_place(
            s,
            x,
            y,
        )->Ok_0,
{
    let w = s.width as int;
    let mx = m % w;
    let my = m / w;
    vstd::arithmetic::div_mod::lemma_fundamental_div_mod(m, w);
    vstd::arithmetic::div_mod::lemma_mod_bound(m, w);
    let stride = s.stride as int;
    let bpp = s.bytes_per_pixel as int;
    assert(my * stride + mx < y * stride + x) by (nonlinear_arith)
        requires
            m == w * my + mx,
            0 <= mx < w,
            m < n,
            n == y * w + x,
            0 <= x < w,
            0 <= y,
            stride >= w,
            my >= 0,
    ;
    assert((my * stride + mx) * bpp + bpp <= (y * stride + x) * bpp) by (nonlinear_arith)
        requires
            my * stride + mx < y * stride + x,
            bpp >= 0,
    ;
    vstd::arithmetic::div_mod::lemma_div_pos_is_pos(m, w);
}

} // verus!
