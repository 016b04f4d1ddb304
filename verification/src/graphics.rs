//! 2D drawing: points, rectangles, colors, text styles and a backbuffered
//! display that is copied to the framebuffer on present.

use vstd::prelude::*;

verus! {

#[derive(Clone, Copy, Debug, Default, PartialEq, Eq, Structural)]
pub struct Point {
    pub x: i32,
    pub y: i32,
}

#[derive(Clone, Copy, Debug, Default, PartialEq, Eq, Structural)]
pub struct Rect {
    pub x: i32,
    pub y: i32,
    pub width: i32,
    pub height: i32,
}

/// `a + b`, clamped to the range of `i32`.
pub open spec fn sat_add(a: i32, b: i32) -> int {
    if a + b > i32::MAX {
        i32::MAX as int
    } else if a + b < i32::MIN {
        i32::MIN as int
    } else {
        a + b
    }
}

/// `a + b`, clamped to the range of `i32`.
pub fn saturating_add(a: i32, b: i32) -> (r: i32)
    ensures
        r == sat_add(a, b),
{
    let sum = a as i64 + b as i64;
    if sum > i32::MAX as i64 {
        i32::MAX
    } else if sum < i32::MIN as i64 {
        i32::MIN
    } else {
        sum as i32
    }
}

/// The right edge of `r`, clamped.
pub open spec fn right_of(r: Rect) -> int {
    sat_add(r.x, r.width)
}

/// The bottom edge of `r`, clamped.
pub open spec fn bottom_of(r: Rect) -> int {
    sat_add(r.y, r.height)
}

/// The smaller of two integers.
pub open spec fn min_int(a: int, b: int) -> int {
    if a <= b {
        a
    } else {
        b
    }
}

/// The larger of two integers.
pub open spec fn max_int(a: int, b: int) -> int {
    if a >= b {
        a
    } else {
        b
    }
}

/// The overlap of two rectangles, when it is not empty.
pub open spec fn intersection(a: Rect, b: Rect) -> Option<(int, int, int, int)> {
    let left = max_int(a.x as int, b.x as int);
    let top = max_int(a.y as int, b.y as int);
    let right = min_int(right_of(a), right_of(b));
    let bottom = min_int(bottom_of(a), bottom_of(b));
    if right <= left || bottom <= top {
        None
    } else {
        Some((left, top, right - left, bottom - top))
    }
}

/// The smallest rectangle covering both.
pub open spec fn bounding(a: Rect, b: Rect) -> (int, int, int, int) {
    let left = min_int(a.x as int, b.x as int);
    let top = min_int(a.y as int, b.y as int);
    let right = max_int(right_of(a), right_of(b));
    let bottom = max_int(bottom_of(a), bottom_of(b));
    (left, top, right - left, bottom - top)
}

impl Rect {
    pub fn new(x: i32, y: i32, width: i32, height: i32) -> (r: Self)
        ensures
            r == (Rect { x, y, width, height }),
    {
        Rect { x, y, width, height }
    }

    /// Whether `point` lies inside, the right and bottom edges excluded.
    pub fn contains(self, point: Point) -> (r: bool)
        ensures
            r == (point.x >= self.x && point.y >= self.y && point.x < right_of(self) && point.y
                < bottom_of(self)),
    {
        point.x >= self.x && point.y >= self.y && point.x < saturating_add(self.x, self.width)
            && point.y < saturating_add(self.y, self.height)
    }

    /// The overlap with `other`, when it is not empty.
    pub fn intersect(self, other: Self) -> (r: Option<Self>)
        requires
            intersection(self, other) matches Some(i) ==> i.2 <= i32::MAX && i.3 <= i32::MAX,
        ensures
            match intersection(self, other) {
                None => r is None,
                Some(i) => r == Some(Rect { x: i.0 as i32, y: i.1 as i32, width: i.2 as i32, height: i.3 as i32 }),
            },
    {
        let left = if self.x >= other.x {
            self.x
        } else {
            other.x
        };
        let top = if self.y >= other.y {
            self.y
        } else {
            other.y
        };
        let a_right = saturating_add(self.x, self.width);
        let b_right = saturating_add(other.x, other.width);
        let right = if a_right <= b_right {
            a_right
        } else {
            b_right
        };
        let a_bottom = saturating_add(self.y, self.height);
        let b_bottom = saturating_add(other.y, other.height);
        let bottom = if a_bottom <= b_bottom {
            a_bottom
        } else {
            b_bottom
        };
        if right <= left || bottom <= top {
            None
        } else {
            Some(Rect::new(left, top, right - left, bottom - top))
        }
    }

    /// The smallest rectangle covering this one and `other`.
    pub fn union(self, other: Self) -> (r: Self)
        requires
            bounding(self, other).2 <= i32::MAX,
            bounding(self, other).3 <= i32::MAX,
        ensures
            ({
                let b = bounding(self, other);
                r == (Rect { x: b.0 as i32, y: b.1 as i32, width: b.2 as i32, height: b.3 as i32 })
            }),
    {
        let left = if self.x <= other.x {
            self.x
        } else {
            other.x
        };
        let top = if self.y <= other.y {
            self.y
        } else {
            other.y
        };
        let a_right = saturating_add(self.x, self.width);
        let b_right = saturating_add(other.x, other.width);
        let right = if a_right >= b_right {
            a_right
        } else {
            b_right
        };
        let a_bottom = saturating_add(self.y, self.height);
        let b_bottom = saturating_add(other.y, other.height);
        let bottom = if a_bottom >= b_bottom {
            a_bottom
        } else {
            b_bottom
        };
        Rect::new(left, top, right - left, bottom - top)
    }
}

/// A 24-bit RGB color.
#[derive(Clone, Copy, Debug, PartialEq, Eq, Structural)]
pub struct Color(u32);

/// The packed value of the color with these channels.
pub open spec fn packed(r: u8, g: u8, b: u8) -> u32 {
    ((r as u32) << 16u32) | ((g as u32) << 8u32) | (b as u32)
}

impl Color {
    /// The packed `0xRRGGBB` value.
    pub closed spec fn value(self) -> u32 {
        self.0
    }

    /// The color whose packed value is `v`.
    pub closed spec fn of_value(v: u32) -> Color {
        Color(v)
    }

    /// A color is the one of its packed value.
    pub broadcast proof fn lemma_of_value(c: Color)
        ensures
            #[trigger] Color::of_value(c.value()) == c,
    {
    }

    /// The packed value of the color of `v` is `v`.
    pub broadcast proof fn lemma_value_of(v: u32)
        ensures
            #[trigger] Color::of_value(v).value() == v,
    {
    }

    pub fn rgb(r: u8, g: u8, b: u8) -> (c: Self)
        ensures
            c.value() == packed(r, g, b),
    {
        Color(((r as u32) << 16u32) | ((g as u32) << 8u32) | (b as u32))
    }

    pub fn r(self) -> (v: u8)
        ensures
            v == (self.value() >> 16u32) as u8,
    {
        (self.0 >> 16u32) as u8
    }

    pub fn g(self) -> (v: u8)
        ensures
            v == (self.value() >> 8u32) as u8,
    {
        (self.0 >> 8u32) as u8
    }

    pub fn b(self) -> (v: u8)
        ensures
            v == self.value() as u8,
    {
        self.0 as u8
    }

    pub fn black() -> (c: Self)
        ensures
            c.value() == packed(0, 0, 0),
    {
        Color::rgb(0, 0, 0)
    }

    pub fn white() -> (c: Self)
        ensures
            c.value() == packed(255, 255, 255),
    {
        Color::rgb(255, 255, 255)
    }

    /// The color with packed value `value`.
    pub fn from_value(value: u32) -> (c: Self)
        ensures
            c.value() == value,
    {
        Color(value)
    }

    /// The packed `0xRRGGBB` value.
    pub fn to_value(self) -> (v: u32)
        ensures
            v == self.value(),
    {
        self.0
    }
}

/// A color's channels read back as they were given.
pub proof fn law_color_channels(r: u8, g: u8, b: u8)
    ensures
        (packed(r, g, b) >> 16u32) as u8 == r,
        (packed(r, g, b) >> 8u32) as u8 == g,
        packed(r, g, b) as u8 == b,
{
    assert(((((r as u32) << 16u32) | ((g as u32) << 8u32) | (b as u32)) >> 16u32) as u8 == r)
        by (bit_vector);
    assert(((((r as u32) << 16u32) | ((g as u32) << 8u32) | (b as u32)) >> 8u32) as u8 == g)
        by (bit_vector);
    assert((((r as u32) << 16u32) | ((g as u32) << 8u32) | (b as u32)) as u8 == b) by (bit_vector);
}

#[derive(Clone, Copy, Debug, PartialEq, Eq, Structural)]
pub enum TextStyle {
    Regular16,
    Bold16,
    Bold20,
}

/// The raster height of a style's glyphs, in pixels.
pub open spec fn style_height(style: TextStyle) -> int {
    match style {
        TextStyle::Regular16 => 16,
        TextStyle::Bold16 => 16,
        TextStyle::Bold20 => 20,
    }
}

/// The width of a style's glyphs, in pixels.
pub open spec fn style_width(style: TextStyle) -> int {
    match style {
        TextStyle::Regular16 => 7,
        TextStyle::Bold16 => 7,
        TextStyle::Bold20 => 9,
    }
}

/// The name of the raster that the bundled Noto Sans Mono font gives
/// character `c` in `style`.
pub uninterp spec fn font_raster(c: char, style: TextStyle) -> Option<Seq<Seq<u8>>>;

/// `noto_sans_mono_bitmap::get_raster_width`: the width of every glyph of
/// the style's weight and height, as the crate's tables give it.
#[verifier::external_body]
pub(crate) fn raster_width(style: TextStyle) -> (r: usize)
    ensures
        r == style_width(style),
{
    match style {
        TextStyle::Regular16 => noto_sans_mono_bitmap::get_raster_width(
            noto_sans_mono_bitmap::FontWeight::Regular,
            noto_sans_mono_bitmap::RasterHeight::Size16,
        ),
        TextStyle::Bold16 => noto_sans_mono_bitmap::get_raster_width(
            noto_sans_mono_bitmap::FontWeight::Bold,
            noto_sans_mono_bitmap::RasterHeight::Size16,
        ),
        TextStyle::Bold20 => noto_sans_mono_bitmap::get_raster_width(
            noto_sans_mono_bitmap::FontWeight::Bold,
            noto_sans_mono_bitmap::RasterHeight::Size20,
        ),
    }
}

/// `noto_sans_mono_bitmap::get_raster`: the glyph of `c`, one row of
/// intensities per pixel row, or none for a character the font lacks. Its
/// rows are as many as the style's height and as wide as its glyphs.
#[verifier::external_body]
pub(crate) fn glyph_raster(c: char, style: TextStyle) -> (r: Option<Vec<Vec<u8>>>)
    ensures
        match r {
            Some(rows) => font_raster(c, style) == Some(rows@.map_values(|row: Vec<u8>| row@))
                && rows@.len() == style_height(style) && forall|k: int|
                0 <= k < rows@.len() ==> (#[trigger] rows@[k])@.len() == style_width(style),
            None => font_raster(c, style) is None,
        },
{
    let (weight, height) = match style {
        TextStyle::Regular16 => (noto_sans_mono_bitmap::FontWeight::Regular, noto_sans_mono_bitmap::RasterHeight::Size16),
        TextStyle::Bold16 => (noto_sans_mono_bitmap::FontWeight::Bold, noto_sans_mono_bitmap::RasterHeight::Size16),
        TextStyle::Bold20 => (noto_sans_mono_bitmap::FontWeight::Bold, noto_sans_mono_bitmap::RasterHeight::Size20),
    };
    noto_sans_mono_bitmap::get_raster(c, weight, height).map(
        |glyph| glyph.raster().iter().map(|row| row.to_vec()).collect(),
    )
}

impl TextStyle {
    /// The raster height of the style's glyphs.
    pub fn height_px(self) -> (r: usize)
        ensures
            r == style_height(self),
    {
        match self {
            TextStyle::Regular16 => 16,
            TextStyle::Bold16 => 16,
            TextStyle::Bold20 => 20,
        }
    }

    /// The distance between text lines: the raster height and three pixels.
    pub fn line_height(self) -> (r: i32)
        ensures
            r == style_height(self) + 3,
    {
        self.height_px() as i32 + 3
    }

    /// The width of one glyph.
    pub fn glyph_width(self) -> (r: i32)
        ensures
            r == style_width(self),
    {
        raster_width(self) as i32
    }
}

/// How the framebuffer lays out a pixel's channels.
#[derive(Clone, Copy, Debug, PartialEq, Eq, Structural)]
pub enum PixelLayout {
    Rgb,
    Bgr,
    U8,
    Unknown { red_position: u8, green_position: u8, blue_position: u8 },
    Other,
}

/// The framebuffer's geometry, as the bootloader reports it.
#[derive(Clone, Copy, Debug, PartialEq, Eq, Structural)]
pub struct FrameGeometry {
    pub width: usize,
    pub height: usize,
    pub stride: usize,
    pub bytes_per_pixel: usize,
    pub pixel_format: PixelLayout,
}

/// Point (`x`, `y`) lies in `r`.
pub open spec fn in_rect(x: int, y: int, r: Rect) -> bool {
    r.x <= x < right_of(r) && r.y <= y < bottom_of(r)
}

/// The channel value that blending `source` over `destination` with
/// coverage `alpha` gives.
pub open spec fn blend_channel(source: u8, destination: u8, alpha: u8) -> u8 {
    ((source as int * alpha as int + destination as int * (255 - alpha)) / 255) as u8
}

/// The FNV-style checksum of `pixels` folded from `seed`.
pub open spec fn pixel_checksum(pixels: Seq<u32>, seed: u64) -> u64
    decreases pixels.len(),
{
    if pixels.len() == 0 {
        seed
    } else {
        pixel_checksum(
            pixels.drop_first(),
            vstd::wrapping::u64_specs::wrapping_mul(seed, 0x100_0000_01b3) ^ (pixels[0] as u64),
        )
    }
}

/// A backbuffered display: drawing goes to memory, and `present` copies the
/// region drawn since the last present to the framebuffer.
pub struct Display {
    info: FrameGeometry,
    back: Vec<u32>,
    dirty: Option<Rect>,
}

impl Display {
    #[verifier::type_invariant]
    closed spec fn inv(&self) -> bool {
        &&& self.info.width <= i32::MAX
        &&& self.info.height <= i32::MAX
        &&& self.back@.len() == self.info.width * self.info.height
        &&& self.back@.len() * 4 <= usize::MAX
        &&& self.dirty matches Some(d) ==> within(d, self.info.width as int, self.info.height as int)
    }

    /// The framebuffer geometry.
    pub closed spec fn geometry(&self) -> FrameGeometry {
        self.info
    }

    /// The backbuffer, row by row.
    pub closed spec fn pixels(&self) -> Seq<u32> {
        self.back@
    }

    /// The region drawn since the last present.
    pub closed spec fn dirty_spec(&self) -> Option<Rect> {
        self.dirty
    }

    /// The index of pixel (`x`, `y`) in the backbuffer.
    pub open spec fn index_of(&self, x: int, y: int) -> int {
        y * self.geometry().width + x
    }

    /// A black backbuffer for a framebuffer of `info`'s geometry, all of it
    /// to be presented.
    pub fn from_geometry(info: FrameGeometry) -> (r: Self)
        requires
            info.width <= i32::MAX,
            info.height <= i32::MAX,
            info.width * info.height * 4 <= usize::MAX,
        ensures
            r.geometry() == info,
            r.pixels().len() == info.width * info.height,
            forall|i: int| 0 <= i < r.pixels().len() ==> r.pixels()[i] == 0,
            r.dirty_spec() == Some(Rect { x: 0, y: 0, width: info.width as i32, height: info.height as i32 }),
    {
        let pixels = info.width * info.height;
        let back: Vec<u32> = vec![0u32; pixels];
        Display {
            info,
            back,
            dirty: Some(Rect::new(0, 0, info.width as i32, info.height as i32)),
        }
    }

    pub fn width(&self) -> (r: i32)
        ensures
            r == self.geometry().width,
    {
        proof {
            use_type_invariant(self);
        }
        self.info.width as i32
    }

    pub fn height(&self) -> (r: i32)
        ensures
            r == self.geometry().height,
    {
        proof {
            use_type_invariant(self);
        }
        self.info.height as i32
    }

    /// The size of the backbuffer in bytes.
    pub fn backbuffer_bytes(&self) -> (r: usize)
        ensures
            r == self.pixels().len() * 4,
    {
        proof {
            use_type_invariant(self);
        }
        self.back.len() * 4
    }

    fn screen_rect(&self) -> (r: Rect)
        ensures
            r == (Rect { x: 0, y: 0, width: self.geometry().width as i32, height: self.geometry().height as i32 }),
    {
        proof {
            use_type_invariant(self);
        }
        Rect::new(0, 0, self.info.width as i32, self.info.height as i32)
    }
}

/// `r` lies inside a `width` by `height` screen.
pub open spec fn within(r: Rect, width: int, height: int) -> bool {
    0 <= r.x && 0 <= r.y && 0 <= r.width && 0 <= r.height && r.x + r.width <= width && r.y
        + r.height <= height
}

/// Pixel (`x`, `y`) of a `w` by `h` screen has an index inside the
/// backbuffer, and rows do not overlap.
/// The backbuffer `p` of a `g` screen with the on-screen part of `rect`
/// painted `c`.
pub open spec fn filled(p: Seq<u32>, g: FrameGeometry, rect: Rect, c: Color) -> Seq<u32> {
    Seq::new(
        p.len(),
        |i: int|
            if in_rect(i % (g.width as int), i / (g.width as int), rect) {
                c.value()
            } else {
                p[i]
            },
    )
}

/// The backbuffer `p` with a border of `rect`, `t` pixels thick, painted
/// `c`: its top, bottom, left and right bands in that order.
pub open spec fn stroked(p: Seq<u32>, g: FrameGeometry, rect: Rect, c: Color, t: i32) -> Seq<u32> {
    if t > 0 && rect.width > 0 && rect.height > 0 {
        let top = Rect { x: rect.x, y: rect.y, width: rect.width, height: t };
        let bottom = Rect { x: rect.x, y: (rect.y + rect.height - t) as i32, width: rect.width, height: t };
        let left = Rect { x: rect.x, y: rect.y, width: t, height: rect.height };
        let right = Rect { x: (rect.x + rect.width - t) as i32, y: rect.y, width: t, height: rect.height };
        filled(filled(filled(filled(p, g, top, c), g, bottom, c), g, left, c), g, right, c)
    } else {
        p
    }
}

/// Pixel `i` of a `w`-wide screen of `h` rows is at column `i % w` of row
/// `i / w`.
pub proof fn lemma_index_split(i: int, w: int, h: int)
    requires
        0 <= i < w * h,
        w > 0,
    ensures
        i == (i / w) * w + i % w,
        0 <= i % w < w,
        0 <= i / w < h,
{
    vstd::arithmetic::div_mod::lemma_fundamental_div_mod(i, w);
    vstd::arithmetic::div_mod::lemma_mod_pos_bound(i, w);
    assert(0 <= i / w < h) by (nonlinear_arith)
        requires
            0 <= i < w * h,
            w > 0,
            i == w * (i / w) + i % w,
            0 <= i % w < w,
    ;
    assert(w * (i / w) == (i / w) * w) by (nonlinear_arith);
}

/// A backbuffer that agrees, pixel by pixel, with `rect` painted `c` over
/// `before` is `filled(before, ..)`.
pub proof fn lemma_filled(before: Seq<u32>, after: Seq<u32>, g: FrameGeometry, rect: Rect, c: Color)
    requires
        before.len() == g.width * g.height,
        after.len() == before.len(),
        forall|x: int, y: int|
            0 <= x < g.width && 0 <= y < g.height ==> #[trigger] after[y * g.width + x] == if in_rect(x, y, rect) {
                c.value()
            } else {
                before[y * g.width + x]
            },
    ensures
        after == filled(before, g, rect, c),
{
    assert forall|i: int| 0 <= i < after.len() implies after[i] == filled(before, g, rect, c)[i] by {
        if g.width == 0 {
            assert(g.width * g.height == 0) by (nonlinear_arith)
                requires
                    g.width == 0,
            ;
        }
        lemma_index_split(i, g.width as int, g.height as int);
        let x = i % (g.width as int);
        let y = i / (g.width as int);
        assert(after[y * g.width + x] == if in_rect(x, y, rect) { c.value() } else { before[y * g.width + x] });
    }
    assert(after =~= filled(before, g, rect, c));
}

pub proof fn lemma_index_in(x: int, y: int, w: int, h: int)
    requires
        0 <= x < w,
        0 <= y < h,
    ensures
        0 <= y * w + x < w * h,
        0 <= y * w,
        y * w + w <= w * h,
{
    assert(0 <= y * w) by (nonlinear_arith)
        requires
            y >= 0,
            w >= 0,
    ;
    assert(y * w + w <= h * w) by (nonlinear_arith)
        requires
            y < h,
            w >= 0,
    ;
    assert(h * w == w * h) by (nonlinear_arith);
}

/// Pixels of different rows, or of different columns of one row, have
/// different indexes; and rows come in order.
pub proof fn lemma_row_order(x1: int, y1: int, x2: int, y2: int, w: int)
    requires
        0 <= x1 < w,
        0 <= x2 < w,
        y1 < y2,
    ensures
        y1 * w + x1 < y2 * w + x2,
        y1 * w + w <= y2 * w,
{
    assert(y1 * w + w <= y2 * w) by (nonlinear_arith)
        requires
            y1 < y2,
            w >= 0,
    ;
}

/// Sets `back[start..end]` to `value`.
fn fill_span(back: &mut Vec<u32>, start: usize, end: usize, value: u32)
    requires
        start <= end <= old(back)@.len(),
    ensures
        final(back)@.len() == old(back)@.len(),
        forall|i: int|
            0 <= i < old(back)@.len() ==> final(back)@[i] == if start <= i < end {
                value
            } else {
                old(back)@[i]
            },
{
    let mut i = start;
    while i < end
        invariant
            start <= i <= end <= back@.len(),
            back@.len() == old(back)@.len(),
            forall|k: int|
                0 <= k < back@.len() ==> back@[k] == if start <= k < i {
                    value
                } else {
                    old(back)@[k]
                },
        decreases end - i,
    {
        back.set(i, value);
        i = i + 1;
    }
}

impl Display {
    /// Takes the display's parts out, leaving an empty display behind.
    fn take_parts(&mut self) -> (r: (FrameGeometry, Vec<u32>, Option<Rect>))
        ensures
            r.0 == old(self).geometry(),
            r.1@ == old(self).pixels(),
            r.2 == old(self).dirty_spec(),
            r.0.width <= i32::MAX,
            r.0.height <= i32::MAX,
            r.1@.len() == r.0.width * r.0.height,
            r.1@.len() * 4 <= usize::MAX,
            r.2 matches Some(d) ==> within(d, r.0.width as int, r.0.height as int),
    {
        proof {
            use_type_invariant(&*self);
        }
        let mut taken = Display::from_geometry(
            FrameGeometry { width: 0, height: 0, stride: 0, bytes_per_pixel: 0, pixel_format: PixelLayout::Other },
        );
        std::mem::swap(self, &mut taken);
        proof {
            use_type_invariant(&taken);
        }
        let Display { info, back, dirty } = taken;
        (info, back, dirty)
    }

    /// Adds `rect` to the region to present.
    fn mark_dirty(&mut self, rect: Rect)
        requires
            within(rect, old(self).geometry().width as int, old(self).geometry().height as int),
        ensures
            final(self).geometry() == old(self).geometry(),
            final(self).pixels() == old(self).pixels(),
            final(self).dirty_spec() == Some(match old(self).dirty_spec() {
                Some(current) => {
                    let b = bounding(current, rect);
                    Rect { x: b.0 as i32, y: b.1 as i32, width: b.2 as i32, height: b.3 as i32 }
                },
                None => rect,
            }),
    {
        proof {
            use_type_invariant(&*self);
        }
        let next = match self.dirty {
            Some(current) => current.union(rect),
            None => rect,
        };
        self.dirty = Some(next);
    }

    /// Paints every pixel `color` and marks the whole screen to present.
    pub fn clear(&mut self, color: Color)
        ensures
            final(self).geometry() == old(self).geometry(),
            final(self).pixels().len() == old(self).pixels().len(),
            forall|i: int| 0 <= i < final(self).pixels().len() ==> final(self).pixels()[i] == color.value(),
            final(self).dirty_spec() == Some(Rect { x: 0, y: 0, width: old(self).geometry().width as i32, height: old(self).geometry().height as i32 }),
    {
        let (info, mut back, _) = self.take_parts();
        let len = back.len();
        fill_span(&mut back, 0, len, color.0);
        *self = Display { info, back, dirty: Some(Rect::new(0, 0, info.width as i32, info.height as i32)) };
    }

    /// Paints the part of `rect` that is on screen.
    pub fn fill_rect(&mut self, rect: Rect, color: Color)
        ensures
            final(self).geometry() == old(self).geometry(),
            final(self).pixels().len() == old(self).pixels().len(),
            final(self).pixels() == filled(old(self).pixels(), old(self).geometry(), rect, color),
            forall|x: int, y: int|
                0 <= x < old(self).geometry().width && 0 <= y < old(self).geometry().height ==> #[trigger] final(self).pixels()[y * old(self).geometry().width + x] == if in_rect(x, y, rect) {
                    color.value()
                } else {
                    old(self).pixels()[y * old(self).geometry().width + x]
                },
    {
        proof {
            use_type_invariant(&*self);
        }
        let screen = self.screen_rect();
        let area = match rect.intersect(screen) {
            None => {
                proof {
                    assert forall|x: int, y: int|
                        0 <= x < old(self).geometry().width && 0 <= y < old(self).geometry().height implies !in_rect(x, y, rect) by {
                        if in_rect(x, y, rect) {
                            assert(in_rect(x, y, screen));
                        }
                    }
                    lemma_filled(old(self).pixels(), self.pixels(), old(self).geometry(), rect, color);
                }
                return;
            },
            Some(area) => area,
        };
        let (info, mut back, dirty) = self.take_parts();
        assert(within(area, info.width as int, info.height as int));
        assert(area.width > 0 && area.height > 0);
        let width = info.width;
        let bottom = area.y + area.height;
        let mut y = area.y;
        while y < bottom
            invariant
                bottom == area.y + area.height,
                right_of(area) == area.x + area.width,
                bottom_of(area) == area.y + area.height,
                area.width > 0,
                width == info.width,
                info == old(self).geometry(),
                back@.len() == old(self).pixels().len(),
                back@.len() == width * info.height,
                back@.len() * 4 <= usize::MAX,
                within(area, width as int, info.height as int),
                area.y <= y <= area.y + area.height,
                forall|px: int, py: int|
                    0 <= px < width && 0 <= py < info.height ==> #[trigger] back@[py * width + px] == if in_rect(px, py, area) && py < y {
                        color.value()
                    } else {
                        old(self).pixels()[py * width + px]
                    },
            decreases bottom - y,
        {
            let row = y as usize;
            proof {
                lemma_index_in(area.x as int, y as int, width as int, info.height as int);
                assert(row as int == y as int);
                assert(row * width + area.x as usize <= back@.len());
            }
            let start = row * width + area.x as usize;
            let end = start + area.width as usize;
            assert(start as int == (y as int) * width + area.x);
            let ghost before = back@;
            fill_span(&mut back, start, end, color.0);
            proof {
                assert forall|px: int, py: int|
                    0 <= px < width && 0 <= py < info.height implies #[trigger] back@[py * width + px] == if in_rect(px, py, area) && py < y + 1 {
                        color.value()
                    } else {
                        old(self).pixels()[py * width + px]
                    } by {
                    lemma_index_in(px, py, width as int, info.height as int);
                    let i = py * width + px;
                    if py == y {
                        assert(py * width == (y as int) * width);
                        assert(i - start == px - area.x);
                        assert(before[i] == old(self).pixels()[i]);
                        assert(0 <= i < before.len());
                        assert(back@[i] == if start <= i < end { color.value() } else { before[i] });
                        assert(in_rect(px, py, area) == (start <= i < end));
                    } else if py < y {
                        lemma_row_order(px, py, area.x as int, y as int, width as int);
                        assert(before[i] == back@[i]);
                    } else {
                        lemma_row_order(0, y as int, px, py, width as int);
                        assert(before[i] == back@[i]);
                    }
                }
            }
            y = y + 1;
        }
        *self = Display { info, back, dirty };
        proof {
            assert forall|x: int, y: int|
                0 <= x < old(self).geometry().width && 0 <= y < old(self).geometry().height implies in_rect(x, y, rect) == in_rect(x, y, area) by {}
        }
        self.mark_dirty(area);
        proof {
            use_type_invariant(&*self);
            lemma_filled(old(self).pixels(), self.pixels(), old(self).geometry(), rect, color);
        }
    }
}

/// The byte value a framebuffer of `layout` stores for `color`, before it is
/// split into bytes.
pub open spec fn native_value(layout: PixelLayout, color: u32) -> u32 {
    let r = (color >> 16u32) as u8 as u32;
    let g = (color >> 8u32) as u8 as u32;
    let b = color as u8 as u32;
    match layout {
        PixelLayout::Rgb => r | (g << 8u32) | (b << 16u32),
        PixelLayout::Bgr => b | (g << 8u32) | (r << 16u32),
        PixelLayout::U8 => (((r + g + b) / 3) as u32) & 0xff,
        PixelLayout::Unknown { red_position, green_position, blue_position } => (
        vstd::wrapping::u32_specs::wrapping_shl(r, red_position as u32))
            | (vstd::wrapping::u32_specs::wrapping_shl(g, green_position as u32))
            | (vstd::wrapping::u32_specs::wrapping_shl(b, blue_position as u32)),
        PixelLayout::Other => color,
    }
}

impl Display {
    /// Paints pixel (`x`, `y`) when it is on screen.
    fn pixel(&mut self, x: i32, y: i32, color: Color)
        ensures
            final(self).geometry() == old(self).geometry(),
            final(self).pixels().len() == old(self).pixels().len(),
            ({
                let w = old(self).geometry().width as int;
                let h = old(self).geometry().height as int;
                if 0 <= x < w && 0 <= y < h {
                    final(self).pixels() == old(self).pixels().update(old(self).index_of(x as int, y as int), color.value())
                } else {
                    final(self).pixels() == old(self).pixels() && final(self).dirty_spec() == old(self).dirty_spec()
                }
            }),
    {
        proof {
            use_type_invariant(&*self);
        }
        if x < 0 || y < 0 || x >= self.width() || y >= self.height() {
            return;
        }
        let (info, mut back, dirty) = self.take_parts();
        proof {
            lemma_index_in(x as int, y as int, info.width as int, info.height as int);
        }
        let row = y as usize;
        assert(row * info.width + (x as usize) < back@.len());
        let index = row * info.width + x as usize;
        back.set(index, color.0);
        *self = Display { info, back, dirty };
        self.mark_dirty(Rect::new(x, y, 1, 1));
    }

    /// Draws `source` over pixel (`x`, `y`) with coverage `alpha`, when the
    /// pixel is on screen.
    fn blend_pixel(&mut self, x: i32, y: i32, source: Color, alpha: u8)
        ensures
            final(self).geometry() == old(self).geometry(),
            final(self).pixels().len() == old(self).pixels().len(),
            ({
                let w = old(self).geometry().width as int;
                let h = old(self).geometry().height as int;
                let i = old(self).index_of(x as int, y as int);
                let d = old(self).pixels()[i];
                if 0 <= x < w && 0 <= y < h {
                    final(self).pixels() == old(self).pixels().update(
                        i,
                        packed(
                            blend_channel((source.value() >> 16u32) as u8, (d >> 16u32) as u8, alpha),
                            blend_channel((source.value() >> 8u32) as u8, (d >> 8u32) as u8, alpha),
                            blend_channel(source.value() as u8, d as u8, alpha),
                        ),
                    )
                } else {
                    final(self).pixels() == old(self).pixels()
                }
            }),
    {
        proof {
            use_type_invariant(&*self);
        }
        if x < 0 || y < 0 || x >= self.width() || y >= self.height() {
            return;
        }
        let (info, mut back, dirty) = self.take_parts();
        proof {
            lemma_index_in(x as int, y as int, info.width as int, info.height as int);
        }
        let row = y as usize;
        assert(row * info.width + (x as usize) < back@.len());
        let index = row * info.width + x as usize;
        let destination = Color(back[index]);
        let alpha32 = alpha as u32;
        let inverse = 255 - alpha32;
        let red = blend(source.r(), destination.r(), alpha32, inverse);
        let green = blend(source.g(), destination.g(), alpha32, inverse);
        let blue = blend(source.b(), destination.b(), alpha32, inverse);
        back.set(index, Color::rgb(red, green, blue).0);
        *self = Display { info, back, dirty };
        self.mark_dirty(Rect::new(x, y, 1, 1));
    }

    /// Outlines `rect` with bands `thickness` pixels wide.
    pub fn stroke_rect(&mut self, rect: Rect, color: Color, thickness: i32)
        requires
            thickness > 0 && rect.width > 0 && rect.height > 0 ==> rect.y + rect.height - thickness
                >= i32::MIN && rect.y + rect.height - thickness <= i32::MAX && rect.x + rect.width
                - thickness >= i32::MIN && rect.x + rect.width - thickness <= i32::MAX,
        ensures
            final(self).pixels() == stroked(old(self).pixels(), old(self).geometry(), rect, color, thickness),
            final(self).geometry() == old(self).geometry(),
            final(self).pixels().len() == old(self).pixels().len(),
            forall|x: int, y: int|
                0 <= x < old(self).geometry().width && 0 <= y < old(self).geometry().height ==> #[trigger] final(self).pixels()[y * old(self).geometry().width + x] == if thickness > 0 && rect.width > 0 && rect.height > 0 && (in_rect(x, y, Rect { x: rect.x, y: rect.y, width: rect.width, height: thickness })
                    || in_rect(x, y, Rect { x: rect.x, y: (rect.y + rect.height - thickness) as i32, width: rect.width, height: thickness })
                    || in_rect(x, y, Rect { x: rect.x, y: rect.y, width: thickness, height: rect.height })
                    || in_rect(x, y, Rect { x: (rect.x + rect.width - thickness) as i32, y: rect.y, width: thickness, height: rect.height })) {
                    color.value()
                } else {
                    old(self).pixels()[y * old(self).geometry().width + x]
                },
    {
        if thickness <= 0 || rect.width <= 0 || rect.height <= 0 {
            return;
        }
        let ghost s0 = self.pixels();
        let ghost w = self.geometry().width as int;
        let top = Rect::new(rect.x, rect.y, rect.width, thickness);
        self.fill_rect(top, color);
        let ghost s1 = self.pixels();
        let lower = (rect.y as i64 + rect.height as i64 - thickness as i64) as i32;
        let bottom = Rect::new(rect.x, lower, rect.width, thickness);
        self.fill_rect(bottom, color);
        let ghost s2 = self.pixels();
        let left = Rect::new(rect.x, rect.y, thickness, rect.height);
        self.fill_rect(left, color);
        let ghost s3 = self.pixels();
        let right = (rect.x as i64 + rect.width as i64 - thickness as i64) as i32;
        let side = Rect::new(right, rect.y, thickness, rect.height);
        self.fill_rect(side, color);
        proof {
            assert forall|x: int, y: int|
                0 <= x < old(self).geometry().width && 0 <= y < old(self).geometry().height implies #[trigger] self.pixels()[y * old(self).geometry().width + x] == if in_rect(x, y, top) || in_rect(x, y, bottom) || in_rect(x, y, left) || in_rect(x, y, side) {
                    color.value()
                } else {
                    s0[y * old(self).geometry().width + x]
                } by {
                let i = y * w + x;
                assert(s1[i] == if in_rect(x, y, top) { color.value() } else { s0[i] });
                assert(s2[i] == if in_rect(x, y, bottom) { color.value() } else { s1[i] });
                assert(s3[i] == if in_rect(x, y, left) { color.value() } else { s2[i] });
                assert(self.pixels()[i] == if in_rect(x, y, side) { color.value() } else { s3[i] });
            }
        }
    }

    /// The checksum of the backbuffer.
    pub fn checksum(&self) -> (r: u64)
        ensures
            r == pixel_checksum(self.pixels(), 0xcbf2_9ce4_8422_2325u64),
    {
        let mut hash: u64 = 0xcbf2_9ce4_8422_2325u64;
        let mut i: usize = 0;
        assert(self.back@.skip(0) =~= self.back@);
        while i < self.back.len()
            invariant
                i <= self.back@.len(),
                pixel_checksum(self.back@, 0xcbf2_9ce4_8422_2325u64) == pixel_checksum(self.back@.skip(i as int), hash),
            decreases self.back@.len() - i,
        {
            proof {
                assert(self.back@.skip(i as int).drop_first() =~= self.back@.skip(i + 1));
            }
            hash = hash.wrapping_mul(0x100_0000_01b3) ^ self.back[i] as u64;
            i = i + 1;
        }
        proof {
            assert(self.back@.skip(i as int).len() == 0);
        }
        hash
    }

    /// Writes pixel (`x`, `y`) of `color` to the framebuffer `front`, in the
    /// framebuffer's layout, when its bytes start inside `front`.
    fn write_front_pixel(&self, front: &mut [u8], x: usize, y: usize, color: Color)
        ensures
            final(front)@.len() == old(front)@.len(),
            ({
                let g = self.geometry();
                let offset = front_offset(g, x as int, y as int);
                let count = front_count(g, offset, old(front)@.len() as int);
                let native = native_value(g.pixel_format, color.value());
                forall|i: int|
                    0 <= i < old(front)@.len() ==> #[trigger] final(front)@[i] == if offset <= i < offset + count {
                        native_byte(native, i - offset)
                    } else {
                        old(front)@[i]
                    }
            }),
    {
        let pixel = saturating_mul_usize(y, self.info.stride);
        let pixel = saturating_add_usize(pixel, x);
        let offset = saturating_mul_usize(pixel, self.info.bytes_per_pixel);
        if offset >= front.len() {
            return;
        }
        let r = color.r() as u32;
        let g = color.g() as u32;
        let b = color.b() as u32;
        let mut native: u32 = match self.info.pixel_format {
            PixelLayout::Rgb => r | (g << 8u32) | (b << 16u32),
            PixelLayout::Bgr => b | (g << 8u32) | (r << 16u32),
            PixelLayout::U8 => ((r + g + b) / 3) & 0xff,
            PixelLayout::Unknown { red_position, green_position, blue_position } => r.wrapping_shl(red_position as u32)
                | g.wrapping_shl(green_position as u32) | b.wrapping_shl(blue_position as u32),
            PixelLayout::Other => color.0,
        };
        let ghost full = native;
        proof {
            assert(full == native_value(self.info.pixel_format, color.value()));
        }
        let mut count = self.info.bytes_per_pixel;
        if count > 4 {
            count = 4;
        }
        if count > front.len() - offset {
            count = front.len() - offset;
        }
        let n = front.len();
        let mut byte: usize = 0;
        while byte < count
            invariant
                n == front@.len(),
                offset + count <= n,
                count <= 4,
                front@.len() == old(front)@.len(),
                byte <= count,
                native == shifted(full, byte as int),
                forall|i: int|
                    0 <= i < n ==> #[trigger] front@[i] == if offset <= i < offset + byte {
                        native_byte(full, i - offset)
                    } else {
                        old(front)@[i]
                    },
            decreases count - byte,
        {
            proof {
                lemma_shift_step(full, byte as int);
            }
            front[offset + byte] = native as u8;
            native = native >> 8u32;
            byte = byte + 1;
        }
    }

    /// Copies the region drawn since the last present to the framebuffer
    /// `front`.
    pub fn present(&mut self, front: &mut [u8])
        ensures
            final(self).geometry() == old(self).geometry(),
            final(self).pixels() == old(self).pixels(),
            final(self).dirty_spec() is None,
            final(front)@.len() == old(front)@.len(),
    {
        proof {
            use_type_invariant(&*self);
        }
        let (info, back, dirty) = self.take_parts();
        *self = Display { info, back, dirty: None };
        let area = match dirty {
            None => {
                return;
            },
            Some(area) => area,
        };
        let mut y = area.y;
        let bottom = area.y + area.height;
        while y < bottom
            invariant
                self.geometry() == info,
                info.width <= i32::MAX,
                info.height <= i32::MAX,
                self.pixels() == old(self).pixels(),
                self.dirty_spec() is None,
                within(area, info.width as int, info.height as int),
                bottom == area.y + area.height,
                area.y <= y <= bottom,
                front@.len() == old(front)@.len(),
            decreases bottom - y,
        {
            let mut x = area.x;
            let right = area.x + area.width;
            while x < right
                invariant
                    self.geometry() == info,
                    self.pixels() == old(self).pixels(),
                    self.dirty_spec() is None,
                    within(area, info.width as int, info.height as int),
                    right == area.x + area.width,
                    area.x <= x <= right,
                    area.y <= y < bottom,
                    bottom == area.y + area.height,
                    front@.len() == old(front)@.len(),
                decreases right - x,
            {
                proof {
                    use_type_invariant(&*self);
                    lemma_index_in(x as int, y as int, info.width as int, info.height as int);
                }
                let row = y as usize;
                assert(row * info.width + (x as usize) < self.back@.len());
                let value = self.back[row * info.width + x as usize];
                self.write_front_pixel(front, x as usize, y as usize, Color(value));
                x = x + 1;
            }
            y = y + 1;
        }
    }

}

/// The backbuffer `p` of a `g` screen with `source` drawn over pixel
/// (`x`, `y`) at coverage `alpha`, when the pixel is on screen.
pub open spec fn blended(p: Seq<u32>, g: FrameGeometry, x: int, y: int, source: Color, alpha: u8) -> Seq<u32> {
    if 0 <= x < g.width && 0 <= y < g.height {
        let i = y * g.width + x;
        let d = p[i];
        p.update(
            i,
            packed(
                blend_channel((source.value() >> 16u32) as u8, (d >> 16u32) as u8, alpha),
                blend_channel((source.value() >> 8u32) as u8, (d >> 8u32) as u8, alpha),
                blend_channel(source.value() as u8, d as u8, alpha),
            ),
        )
    } else {
        p
    }
}

/// `p` with the first `n` columns of glyph row `row` drawn at pixel row
/// `py` from column `cx` in `color`: each column below 64 of nonzero
/// intensity blended at that coverage.
pub open spec fn text_row_drawn(p: Seq<u32>, g: FrameGeometry, row: Seq<u8>, n: int, cx: i32, py: int, color: Color) -> Seq<u32>
    decreases n,
{
    if n <= 0 {
        p
    } else {
        let q = text_row_drawn(p, g, row, n - 1, cx, py, color);
        if row[n - 1] != 0 && n - 1 < 64 {
            blended(q, g, sat_add(cx, (n - 1) as i32), py, color, row[n - 1])
        } else {
            q
        }
    }
}

/// `p` with the first `m` rows of glyph `rows` drawn from (`cx`, `cy`).
pub open spec fn text_glyph_drawn(p: Seq<u32>, g: FrameGeometry, rows: Seq<Seq<u8>>, m: int, cx: i32, cy: i32, color: Color) -> Seq<u32>
    decreases m,
{
    if m <= 0 {
        p
    } else {
        text_row_drawn(
            text_glyph_drawn(p, g, rows, m - 1, cx, cy, color),
            g,
            rows[m - 1],
            rows[m - 1].len() as int,
            cx,
            sat_add(cy, (m - 1) as i32),
            color,
        )
    }
}

/// The raster drawn for `c` in `style`: its own, else that of `?`.
pub open spec fn text_raster(c: char, style: TextStyle) -> Option<Seq<Seq<u8>>> {
    match font_raster(c, style) {
        Some(rows) => Some(rows),
        None => font_raster('?', style),
    }
}

/// The backbuffer `p` with all of `chars` drawn from (`x`, `y`).
pub open spec fn texted(p: Seq<u32>, g: FrameGeometry, x: i32, y: i32, chars: Seq<char>, color: Color, style: TextStyle) -> Seq<u32> {
    text_drawn(p, g, chars, chars.len() as int, x, y, color, style).0
}

/// The backbuffer and pen position after drawing the first `k` characters
/// of `chars` from (`x`, `y`) over `p`.
pub open spec fn text_drawn(
    p: Seq<u32>,
    g: FrameGeometry,
    chars: Seq<char>,
    k: int,
    x: i32,
    y: i32,
    color: Color,
    style: TextStyle,
) -> (Seq<u32>, i32, i32)
    decreases k,
{
    if k <= 0 {
        (p, x, y)
    } else {
        let (q, cx, cy) = text_drawn(p, g, chars, k - 1, x, y, color, style);
        let c = chars[k - 1];
        if c == '\n' {
            (q, x, sat_add(cy, (style_height(style) + 3) as i32) as i32)
        } else {
            match text_raster(c, style) {
                None => (q, sat_add(cx, style_width(style) as i32) as i32, cy),
                Some(rows) => (
                    text_glyph_drawn(q, g, rows, rows.len() as int, cx, cy, color),
                    sat_add(cx, style_width(style) as i32) as i32,
                    cy,
                ),
            }
        }
    }
}

impl Display {
    /// Draws `text` from (`x`, `y`): glyphs advance by the style's width,
    /// a newline returns to `x` one line lower, and a character the font
    /// lacks is drawn as `?`, or skipped when the font lacks that too.
    pub fn text(&mut self, x: i32, y: i32, text: &str, color: Color, style: TextStyle)
        ensures
            final(self).geometry() == old(self).geometry(),
            final(self).pixels().len() == old(self).pixels().len(),
            final(self).pixels() == text_drawn(
                old(self).pixels(),
                old(self).geometry(),
                text@,
                text@.len() as int,
                x,
                y,
                color,
                style,
            ).0,
    {
        let start_x = x;
        let glyph_width = style.glyph_width();
        let line_height = style.line_height();
        let chars = crate::path::chars_of(text);
        let mut cx = x;
        let mut cy = y;
        let mut k: usize = 0;
        while k < chars.len()
            invariant
                self.geometry() == old(self).geometry(),
                self.pixels().len() == old(self).pixels().len(),
                k <= chars@.len(),
                chars@ == text@,
                start_x == x,
                glyph_width == style_width(style),
                line_height == style_height(style) + 3,
                text_drawn(old(self).pixels(), old(self).geometry(), text@, k as int, x, y, color, style) == (
                    self.pixels(),
                    cx,
                    cy,
                ),
            decreases chars@.len() - k,
        {
            let character = chars[k];
            k = k + 1;
            if character == '\n' {
                cx = start_x;
                cy = saturating_add(cy, line_height);
                continue;
            }
            let raster = match glyph_raster(character, style) {
                Some(rows) => Some(rows),
                None => glyph_raster('?', style),
            };
            let rows = match raster {
                None => {
                    cx = saturating_add(cx, glyph_width);
                    continue;
                },
                Some(rows) => rows,
            };
            let ghost spec_rows = text_raster(character, style)->Some_0;
            assert(spec_rows == rows@.map_values(|row: Vec<u8>| row@));
            let ghost before_glyph = self.pixels();
            let mut row_index: usize = 0;
            while row_index < rows.len()
                invariant
                    self.geometry() == old(self).geometry(),
                    self.pixels().len() == old(self).pixels().len(),
                    row_index <= rows@.len(),
                    rows@.len() <= 20,
                    spec_rows == rows@.map_values(|row: Vec<u8>| row@),
                    self.pixels() == text_glyph_drawn(before_glyph, old(self).geometry(), spec_rows, row_index as int, cx, cy, color),
                decreases rows@.len() - row_index,
            {
                let row = &rows[row_index];
                assert(spec_rows[row_index as int] == row@);
                let ghost before_row = self.pixels();
                let mut column: usize = 0;
                while column < row.len()
                    invariant
                        self.geometry() == old(self).geometry(),
                        self.pixels().len() == old(self).pixels().len(),
                        column <= row@.len(),
                        row_index < 20,
                        self.pixels() == text_row_drawn(before_row, old(self).geometry(), row@, column as int, cx, sat_add(cy, row_index as i32), color),
                    decreases row@.len() - column,
                {
                    let intensity = row[column];
                    if intensity != 0 && column < 64 {
                        let px = saturating_add(cx, column as i32);
                        let py = saturating_add(cy, row_index as i32);
                        self.blend_pixel(px, py, color, intensity);
                    }
                    column = column + 1;
                }
                row_index = row_index + 1;
            }
            cx = saturating_add(cx, glyph_width);
        }
    }
}

/// One channel of `source` drawn over `destination` with coverage `alpha`.
fn blend(source: u8, destination: u8, alpha: u32, inverse: u32) -> (r: u8)
    requires
        alpha <= 255,
        inverse == 255 - alpha,
    ensures
        r == blend_channel(source, destination, alpha as u8),
{
    assert(source as u32 * alpha <= 255 * 255) by (nonlinear_arith)
        requires
            source <= 255,
            alpha <= 255,
    ;
    assert(destination as u32 * inverse <= 255 * 255) by (nonlinear_arith)
        requires
            destination <= 255,
            inverse <= 255,
    ;
    let total = source as u32 * alpha + destination as u32 * inverse;
    assert(total / 255 <= 255) by (nonlinear_arith)
        requires
            total <= 255 * 255 + 255 * 255,
            total == source as u32 * alpha + destination as u32 * inverse,
            alpha + inverse == 255,
            source <= 255,
            destination <= 255,
    ;
    (total / 255) as u8
}

/// `v` with its `k` lowest bytes shifted out.
pub open spec fn shifted(v: u32, k: int) -> u32 {
    if k == 0 {
        v
    } else if k == 1 {
        v >> 8u32
    } else if k == 2 {
        v >> 16u32
    } else if k == 3 {
        v >> 24u32
    } else {
        0
    }
}

/// Byte `k` of `v`, lowest first.
pub open spec fn native_byte(v: u32, k: int) -> u8 {
    shifted(v, k) as u8
}

proof fn lemma_shift_step(v: u32, k: int)
    requires
        0 <= k < 4,
    ensures
        shifted(v, k) >> 8u32 == shifted(v, k + 1),
{
    assert((v >> 8u32) >> 8u32 == v >> 16u32) by (bit_vector);
    assert((v >> 16u32) >> 8u32 == v >> 24u32) by (bit_vector);
    assert((v >> 24u32) >> 8u32 == 0) by (bit_vector);
}

/// Where pixel (`x`, `y`) starts in the framebuffer: its index in rows of
/// `stride` pixels, in bytes, each step clamped to the range of `usize`.
pub open spec fn front_offset(g: FrameGeometry, x: int, y: int) -> int {
    let row = if y * g.stride > usize::MAX { usize::MAX as int } else { y * g.stride };
    let pixel = if row + x > usize::MAX { usize::MAX as int } else { row + x };
    if pixel * g.bytes_per_pixel > usize::MAX { usize::MAX as int } else { pixel * g.bytes_per_pixel }
}

/// The bytes of a pixel at `offset` that are written to a framebuffer of
/// `len` bytes: its size, at most 4, and nothing past the end.
pub open spec fn front_count(g: FrameGeometry, offset: int, len: int) -> int {
    if offset >= len {
        0
    } else {
        let c = if g.bytes_per_pixel > 4 { 4 } else { g.bytes_per_pixel as int };
        if c > len - offset { len - offset } else { c }
    }
}

/// `a * b`, clamped to the range of `usize`.
fn saturating_mul_usize(a: usize, b: usize) -> (r: usize)
    ensures
        r == if a * b > usize::MAX { usize::MAX as int } else { a * b },
{
    match a.checked_mul(b) {
        Some(v) => v,
        None => usize::MAX,
    }
}

/// `a + b`, clamped to the range of `usize`.
fn saturating_add_usize(a: usize, b: usize) -> (r: usize)
    ensures
        r == if a + b > usize::MAX { usize::MAX as int } else { a + b },
{
    match a.checked_add(b) {
        Some(v) => v,
        None => usize::MAX,
    }
}

/// Point (`x`, `y`) lies on a `width` by `height` screen.
pub open spec fn on_screen(x: int, y: int, width: int, height: int) -> bool {
    0 <= x < width && 0 <= y < height
}

impl Display {
    /// Draws a one-pixel line from `from` to `to`, both ends included, by
    /// Bresenham's method.
    pub fn line(&mut self, from: Point, to: Point, color: Color)
        ensures
            final(self).geometry() == old(self).geometry(),
            final(self).pixels().len() == old(self).pixels().len(),
            forall|i: int|
                0 <= i < old(self).pixels().len() ==> final(self).pixels()[i] == old(self).pixels()[i]
                    || final(self).pixels()[i] == color.value(),
            ({
                let w = old(self).geometry().width as int;
                let h = old(self).geometry().height as int;
                &&& on_screen(from.x as int, from.y as int, w, h) ==> final(self).pixels()[from.y * w + from.x] == color.value()
                &&& on_screen(to.x as int, to.y as int, w, h) ==> final(self).pixels()[to.y * w + to.x] == color.value()
            }),
    {
        proof {
            use_type_invariant(&*self);
        }
        let ghost w = self.geometry().width as int;
        let ghost h = self.geometry().height as int;
        let x1 = to.x as i64;
        let y1 = to.y as i64;
        let mut x0 = from.x as i64;
        let mut y0 = from.y as i64;
        let dx: i64 = if x1 >= x0 { x1 - x0 } else { x0 - x1 };
        let sx: i64 = if x0 < x1 { 1 } else { -1 };
        let dd: i64 = if y1 >= y0 { y1 - y0 } else { y0 - y1 };
        let sy: i64 = if y0 < y1 { 1 } else { -1 };
        let mut err: i128 = dx as i128 - dd as i128;
        let mut first = true;
        let ghost mut a: int = dx as int;
        let ghost mut b: int = dd as int;
        proof {
            assert(dd * a - dx * b == 0) by (nonlinear_arith)
                requires
                    a == dx,
                    b == dd;
        }
        loop
            invariant
                self.geometry() == old(self).geometry(),
                self.pixels().len() == old(self).pixels().len(),
                w == self.geometry().width,
                h == self.geometry().height,
                self.pixels().len() == w * h,
                0 <= dx <= 0x1_0000_0000,
                0 <= dd <= 0x1_0000_0000,
                0 <= a <= dx,
                0 <= b <= dd,
                sx == 1 ==> x0 + a == x1 && from.x <= x0 <= x1,
                sx == -1 ==> x0 - a == x1 && x1 <= x0 <= from.x,
                sx == 1 || sx == -1,
                sy == 1 ==> y0 + b == y1 && from.y <= y0 <= y1,
                sy == -1 ==> y0 - b == y1 && y1 <= y0 <= from.y,
                sy == 1 || sy == -1,
                x1 == to.x,
                y1 == to.y,
                err == dx - dd + dd * a - dx * b,
                first ==> x0 == from.x && y0 == from.y,
                first ==> self.pixels() == old(self).pixels(),
                forall|i: int|
                    0 <= i < old(self).pixels().len() ==> self.pixels()[i] == old(self).pixels()[i]
                        || self.pixels()[i] == color.value(),
                !first && on_screen(from.x as int, from.y as int, w, h) ==> self.pixels()[from.y * w + from.x] == color.value(),
            ensures
                self.geometry() == old(self).geometry(),
                self.pixels().len() == old(self).pixels().len(),
                forall|i: int|
                    0 <= i < old(self).pixels().len() ==> self.pixels()[i] == old(self).pixels()[i]
                        || self.pixels()[i] == color.value(),
                on_screen(from.x as int, from.y as int, w, h) ==> self.pixels()[from.y * w + from.x] == color.value(),
                on_screen(to.x as int, to.y as int, w, h) ==> self.pixels()[to.y * w + to.x] == color.value(),
            decreases a + b,
        {
            let ghost before = self.pixels();
            self.pixel(x0 as i32, y0 as i32, color);
            proof {
                assert(x0 as i32 as int == x0 as int);
                assert(y0 as i32 as int == y0 as int);
                if on_screen(x0 as int, y0 as int, w, h) {
                    lemma_index_in(x0 as int, y0 as int, w, h);
                    let idx = y0 * w + x0;
                    assert(self.pixels() == before.update(idx, color.value()));
                    assert(self.pixels()[idx] == color.value());
                    assert forall|i: int| 0 <= i < old(self).pixels().len() implies self.pixels()[i]
                        == old(self).pixels()[i] || self.pixels()[i] == color.value() by {
                        if i != idx {
                            assert(self.pixels()[i] == before[i]);
                        }
                    }
                }
                if on_screen(from.x as int, from.y as int, w, h) {
                    lemma_index_in(from.x as int, from.y as int, w, h);
                }
                if on_screen(to.x as int, to.y as int, w, h) {
                    lemma_index_in(to.x as int, to.y as int, w, h);
                }
            }
            first = false;
            if x0 == x1 && y0 == y1 {
                break;
            }
            proof {
                assert(-0x1_0000_0000_0000_0000_0000int <= err <= 0x1_0000_0000_0000_0000_0000int) by (nonlinear_arith)
                    requires
                        err == dx - dd + dd * a - dx * b,
                        0 <= a <= dx,
                        0 <= b <= dd,
                        dx <= 0x1_0000_0000,
                        dd <= 0x1_0000_0000;
            }
            let doubled = err * 2;
            let step_x = doubled >= -(dd as i128);
            let step_y = doubled <= dx as i128;
            proof {
                assert(a == 0 && b > 0 ==> !step_x) by (nonlinear_arith)
                    requires
                        err == dx - dd + dd * a - dx * b,
                        doubled == err * 2,
                        step_x == (doubled >= -dd),
                        0 <= b <= dd,
                        dx >= 0;
                assert(b == 0 && a > 0 ==> !step_y) by (nonlinear_arith)
                    requires
                        err == dx - dd + dd * a - dx * b,
                        doubled == err * 2,
                        step_y == (doubled <= dx),
                        0 <= a <= dx,
                        dd >= 0;
                assert(step_x || step_y);
            }
            if step_x {
                err = err - dd as i128;
                x0 = x0 + sx;
                proof {
                    assert(dd * (a - 1) == dd * a - dd) by (nonlinear_arith);
                    a = a - 1;
                }
            }
            if step_y {
                err = err + dx as i128;
                y0 = y0 + sy;
                proof {
                    assert(dx * (b - 1) == dx * b - dx) by (nonlinear_arith);
                    b = b - 1;
                }
            }
        }
    }
}

} // verus!
