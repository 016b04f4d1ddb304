//! The text console: a grid of character cells drawn straight into the
//! framebuffer's bytes, scrolling the picture up when the cursor passes the
//! last row.

use crate::graphics::{font_raster, glyph_raster, raster_width, style_height, style_width, FrameGeometry, PixelLayout, TextStyle};
use crate::path::chars_of;
use vstd::prelude::*;

verus! {

/// Blank pixels left of each glyph in its cell (and as many right of it).
pub const CELL_PADDING_X: usize = 1;
/// Blank pixel rows above each glyph in its cell (and as many below it).
pub const CELL_PADDING_Y: usize = 1;

/// The width of a character cell.
pub open spec fn cell_width() -> int {
    style_width(TextStyle::Regular16) + 2 * CELL_PADDING_X
}

/// The height of a character cell.
pub open spec fn cell_height() -> int {
    style_height(TextStyle::Regular16) + 2 * CELL_PADDING_Y
}

#[derive(Clone, Copy, Debug, PartialEq, Eq, Structural)]
pub struct ConsoleColor {
    pub r: u8,
    pub g: u8,
    pub b: u8,
}

/// Channel `v` at `intensity` out of 255.
pub open spec fn scaled(v: u8, intensity: u8) -> u8 {
    (v * intensity / 255) as u8
}

impl ConsoleColor {
    pub fn new(r: u8, g: u8, b: u8) -> (c: Self)
        ensures
            c == (ConsoleColor { r, g, b }),
    {
        ConsoleColor { r, g, b }
    }

    /// The color dimmed to `intensity` out of 255, channel by channel.
    pub fn with_intensity(self, intensity: u8) -> (c: Self)
        ensures
            c.r == scaled(self.r, intensity),
            c.g == scaled(self.g, intensity),
            c.b == scaled(self.b, intensity),
    {
        let scale = intensity as u16;
        assert(self.r * scale <= 255 * 255 && self.g * scale <= 255 * 255 && self.b * scale <= 255 * 255) by (nonlinear_arith)
            requires
                scale <= 255,
        ;
        ConsoleColor {
            r: ((self.r as u16 * scale) / 255) as u8,
            g: ((self.g as u16 * scale) / 255) as u8,
            b: ((self.b as u16 * scale) / 255) as u8,
        }
    }
}

/// The background: black.
pub open spec fn background_spec() -> ConsoleColor {
    ConsoleColor { r: 0, g: 0, b: 0 }
}

pub fn background() -> (c: ConsoleColor)
    ensures
        c == background_spec(),
{
    ConsoleColor::new(0x00, 0x00, 0x00)
}

/// The usual text color.
pub open spec fn default_foreground_spec() -> ConsoleColor {
    ConsoleColor { r: 0xe6, g: 0xed, b: 0xf3 }
}

pub fn default_foreground() -> (c: ConsoleColor)
    ensures
        c == default_foreground_spec(),
{
    ConsoleColor::new(0xe6, 0xed, 0xf3)
}

/// The accent text color, used for the prompt.
pub open spec fn accent_spec() -> ConsoleColor {
    ConsoleColor { r: 0x55, g: 0xd1, b: 0x7a }
}

pub fn accent() -> (c: ConsoleColor)
    ensures
        c == accent_spec(),
{
    ConsoleColor::new(0x55, 0xd1, 0x7a)
}

/// The bytes a framebuffer of `layout` stores for `c`.
pub open spec fn encoded(layout: PixelLayout, c: ConsoleColor) -> Seq<u8> {
    match layout {
        PixelLayout::Bgr => seq![c.b, c.g, c.r, 0u8],
        PixelLayout::U8 => seq![((c.r + c.g + c.b) / 3) as u8, 0u8, 0u8, 0u8],
        _ => seq![c.r, c.g, c.b, 0u8],
    }
}

/// `a * b`, saturating at the top of `usize`.
pub open spec fn sat_mul(a: int, b: int) -> int {
    if a * b > usize::MAX {
        usize::MAX as int
    } else {
        a * b
    }
}

/// `a + b`, saturating at the top of `usize`.
pub open spec fn sat_plus(a: int, b: int) -> int {
    if a + b > usize::MAX {
        usize::MAX as int
    } else {
        a + b
    }
}

fn saturating_mul(a: usize, b: usize) -> (r: usize)
    ensures
        r == sat_mul(a as int, b as int),
{
    match a.checked_mul(b) {
        Some(v) => v,
        None => usize::MAX,
    }
}

/// Where pixel (`x`, `y`) starts among the frame's bytes.
pub open spec fn pixel_offset(g: FrameGeometry, x: int, y: int) -> int {
    sat_mul(sat_plus(sat_mul(y, g.stride as int), x), g.bytes_per_pixel as int)
}

/// How many bytes of pixel (`x`, `y`) the frame holds.
pub open spec fn pixel_count(g: FrameGeometry, len: int, x: int, y: int) -> int {
    let offset = pixel_offset(g, x, y);
    let c = if g.bytes_per_pixel < 4 { g.bytes_per_pixel as int } else { 4 };
    if c < len - offset { c } else { len - offset }
}

/// The frame with pixel (`x`, `y`) painted `c`, where the screen and the
/// frame have it.
pub open spec fn painted(frame: Seq<u8>, g: FrameGeometry, x: int, y: int, c: ConsoleColor) -> Seq<u8> {
    let offset = pixel_offset(g, x, y);
    if x >= g.width || y >= g.height || offset >= frame.len() {
        frame
    } else {
        let count = pixel_count(g, frame.len() as int, x, y);
        Seq::new(
            frame.len(),
            |i: int|
                if offset <= i < offset + count {
                    encoded(g.pixel_format, c)[i - offset]
                } else {
                    frame[i]
                },
        )
    }
}

/// The frame moved up by `shift` bytes within its first `visible`, the freed
/// end of that span zeroed.
pub open spec fn scrolled(frame: Seq<u8>, shift: int, visible: int) -> Seq<u8> {
    Seq::new(
        frame.len(),
        |i: int|
            if i < visible - shift {
                frame[i + shift]
            } else if i < visible {
                0u8
            } else {
                frame[i]
            },
    )
}

/// The bytes of one row of pixels.
pub open spec fn row_bytes(g: FrameGeometry) -> int {
    sat_mul(g.stride as int, g.bytes_per_pixel as int)
}

/// How far a scroll moves the picture: one row of cells.
pub open spec fn scroll_shift(g: FrameGeometry) -> int {
    sat_mul(cell_height(), row_bytes(g))
}

/// The bytes of the frame that show on screen.
pub open spec fn visible_bytes(g: FrameGeometry, len: int) -> int {
    let v = sat_mul(g.height as int, row_bytes(g));
    if v < len { v } else { len }
}

/// A scroll cannot keep anything on screen, so it clears the screen.
pub open spec fn scroll_clears(g: FrameGeometry, len: int) -> bool {
    scroll_shift(g) >= visible_bytes(g, len)
}

/// Where the console writes next: a cell of a `columns` by `rows` grid.
pub struct Cursor {
    pub column: int,
    pub row: int,
    pub columns: int,
    pub rows: int,
}

/// The cursor at the start of the next line; past the last row the picture
/// scrolls (or is cleared, when `clears`).
pub open spec fn newline(c: Cursor, clears: bool) -> Cursor {
    Cursor {
        column: 0,
        row: if c.row + 1 < c.rows {
            c.row + 1
        } else if clears {
            0
        } else {
            c.rows - 1
        },
        ..c
    }
}

/// A control character, as Unicode classes them.
pub open spec fn is_control(c: char) -> bool {
    (c as int) < 0x20 || (0x7f <= (c as int) && (c as int) <= 0x9f)
}

/// The cursor after a character that is drawn: to the next line first when
/// the current one is full.
pub open spec fn printed(c: Cursor, clears: bool) -> Cursor {
    let at = if c.column >= c.columns {
        newline(c, clears)
    } else {
        c
    };
    Cursor { column: at.column + 1, ..at }
}

/// The cursor after `n` spaces.
pub open spec fn spaces(c: Cursor, n: nat, clears: bool) -> Cursor
    decreases n,
{
    if n == 0 {
        c
    } else {
        spaces(printed(c, clears), (n - 1) as nat, clears)
    }
}

/// The cursor after character `ch`: a newline, a return to the start of
/// the line, a tab to the next multiple of four columns, or a drawn
/// character; other control characters do nothing.
pub open spec fn char_step(c: Cursor, ch: char, clears: bool) -> Cursor {
    if ch == '\n' {
        newline(c, clears)
    } else if ch == '\r' {
        Cursor { column: 0, ..c }
    } else if ch == '\t' {
        spaces(c, (4 - c.column % 4) as nat, clears)
    } else if !is_control(ch) {
        printed(c, clears)
    } else {
        c
    }
}

/// The cursor after the characters of `s`.
pub open spec fn text_step(c: Cursor, s: Seq<char>, clears: bool) -> Cursor
    decreases s.len(),
{
    if s.len() == 0 {
        c
    } else {
        text_step(char_step(c, s[0], clears), s.drop_first(), clears)
    }
}

/// The cursor after byte `b`: printable ASCII is drawn, newline, return and
/// tab act as characters, anything else is ignored.
pub open spec fn byte_step(c: Cursor, b: u8, clears: bool) -> Cursor {
    if b == 0x0a || b == 0x0d || b == 0x09 || (0x20 <= b && b <= 0x7e) {
        char_step(c, b as char, clears)
    } else {
        c
    }
}

/// The cursor after a backspace: one cell back, to the end of the previous
/// line from the start of one, nowhere from the first cell.
pub open spec fn backspaced(c: Cursor) -> Cursor {
    if c.column > 0 {
        Cursor { column: c.column - 1, ..c }
    } else if c.row > 0 {
        Cursor { column: c.columns - 1, row: c.row - 1, ..c }
    } else {
        c
    }
}

/// The cursor fits its grid.
pub open spec fn cursor_ok(c: Cursor) -> bool {
    &&& c.columns >= 1
    &&& c.rows >= 1
    &&& 0 <= c.column <= c.columns
    &&& 0 <= c.row < c.rows
}

/// The frame with pixels `x0..x1` of row `y` painted `c`, from left to right.
pub open spec fn painted_span(frame: Seq<u8>, g: FrameGeometry, x0: int, x1: int, y: int, c: ConsoleColor) -> Seq<u8>
    decreases x1 - x0,
{
    if x1 <= x0 {
        frame
    } else {
        painted(painted_span(frame, g, x0, x1 - 1, y, c), g, x1 - 1, y, c)
    }
}

/// The frame with the pixels of columns `x0..x1` and rows `y0..y1` painted
/// `c`, row by row.
pub open spec fn painted_block(
    frame: Seq<u8>,
    g: FrameGeometry,
    x0: int,
    x1: int,
    y0: int,
    y1: int,
    c: ConsoleColor,
) -> Seq<u8>
    decreases y1 - y0,
{
    if y1 <= y0 {
        frame
    } else {
        painted_span(painted_block(frame, g, x0, x1, y0, y1 - 1, c), g, x0, x1, y1 - 1, c)
    }
}

/// The color of a glyph pixel of intensity `intensity` drawn in `fg`.
pub open spec fn dimmed(fg: ConsoleColor, intensity: u8) -> ConsoleColor {
    ConsoleColor { r: scaled(fg.r, intensity), g: scaled(fg.g, intensity), b: scaled(fg.b, intensity) }
}

/// The frame with the first `n` pixels of glyph row `row` drawn from
/// (`x0`, `y`) in `fg`: each pixel of nonzero intensity painted `fg` dimmed
/// to it.
pub open spec fn glyph_row_drawn(frame: Seq<u8>, g: FrameGeometry, row: Seq<u8>, n: int, x0: int, y: int, fg: ConsoleColor) -> Seq<u8>
    decreases n,
{
    if n <= 0 {
        frame
    } else {
        let f = glyph_row_drawn(frame, g, row, n - 1, x0, y, fg);
        if row[n - 1] != 0 {
            painted(f, g, x0 + n - 1, y, dimmed(fg, row[n - 1]))
        } else {
            f
        }
    }
}

/// The frame with the first `m` rows of glyph `rows` drawn from (`x0`,
/// `y0`) in `fg`.
pub open spec fn glyph_drawn(frame: Seq<u8>, g: FrameGeometry, rows: Seq<Seq<u8>>, m: int, x0: int, y0: int, fg: ConsoleColor) -> Seq<u8>
    decreases m,
{
    if m <= 0 {
        frame
    } else {
        glyph_row_drawn(glyph_drawn(frame, g, rows, m - 1, x0, y0, fg), g, rows[m - 1], rows[m - 1].len() as int, x0, y0 + m - 1, fg)
    }
}

/// The raster the console draws for `c`: its own, else that of `?`.
pub open spec fn console_raster(c: char) -> Option<Seq<Seq<u8>>> {
    match font_raster(c, TextStyle::Regular16) {
        Some(rows) => Some(rows),
        None => font_raster('?', TextStyle::Regular16),
    }
}

/// The largest screen side the console's arithmetic handles.
pub const MAX_SIDE: usize = 0x7fff_ffff;

pub struct Console {
    info: FrameGeometry,
    column: usize,
    row: usize,
    columns: usize,
    rows: usize,
    foreground: ConsoleColor,
    cell_width: usize,
    cell_height: usize,
}

impl Console {
    pub closed spec fn cursor(&self) -> Cursor {
        Cursor { column: self.column as int, row: self.row as int, columns: self.columns as int, rows: self.rows as int }
    }

    pub closed spec fn geometry(&self) -> FrameGeometry {
        self.info
    }

    pub closed spec fn foreground(&self) -> ConsoleColor {
        self.foreground
    }

    pub closed spec fn wf(&self) -> bool {
        &&& cursor_ok(self.cursor())
        &&& self.info.width <= MAX_SIDE
        &&& self.info.height <= MAX_SIDE
        &&& self.cell_width == cell_width()
        &&& self.cell_height == cell_height()
        &&& self.columns == if (self.info.width as int) / cell_width() >= 1 { (self.info.width as int) / cell_width() } else { 1 }
        &&& self.rows == if (self.info.height as int) / cell_height() >= 1 { (self.info.height as int) / cell_height() } else { 1 }
    }

    /// A console over a framebuffer of `info`'s geometry, whose bytes are
    /// `frame`: cleared, with the cursor in the first cell.
    pub fn new(info: FrameGeometry, frame: &mut [u8]) -> (r: Self)
        requires
            info.width <= MAX_SIDE,
            info.height <= MAX_SIDE,
        ensures
            r.wf(),
            r.geometry() == info,
            r.foreground() == default_foreground_spec(),
            r.cursor().column == 0 && r.cursor().row == 0,
            r.cursor().columns == if (info.width as int) / cell_width() >= 1 { (info.width as int) / cell_width() } else { 1 },
            r.cursor().rows == if (info.height as int) / cell_height() >= 1 { (info.height as int) / cell_height() } else { 1 },
            final(frame)@.len() == old(frame)@.len(),
            forall|i: int| 0 <= i < final(frame)@.len() ==> final(frame)@[i] == 0,
    {
        let cell_width = raster_width(TextStyle::Regular16) + 2 * CELL_PADDING_X;
        let cell_height = TextStyle::Regular16.height_px() + 2 * CELL_PADDING_Y;
        let columns = if info.width / cell_width >= 1 {
            info.width / cell_width
        } else {
            1
        };
        let rows = if info.height / cell_height >= 1 {
            info.height / cell_height
        } else {
            1
        };
        let mut console = Console {
            info,
            column: 0,
            row: 0,
            columns,
            rows,
            foreground: default_foreground(),
            cell_width,
            cell_height,
        };
        console.clear(frame);
        console
    }

    pub fn width(&self) -> (r: usize)
        ensures
            r == self.geometry().width,
    {
        self.info.width
    }

    pub fn height(&self) -> (r: usize)
        ensures
            r == self.geometry().height,
    {
        self.info.height
    }

    pub fn set_default_color(&mut self)
        ensures
            final(self).foreground() == default_foreground_spec(),
            final(self).cursor() == old(self).cursor(),
            final(self).geometry() == old(self).geometry(),
            old(self).wf() ==> final(self).wf(),
    {
        self.foreground = default_foreground();
    }

    pub fn set_accent_color(&mut self)
        ensures
            final(self).foreground() == accent_spec(),
            final(self).cursor() == old(self).cursor(),
            final(self).geometry() == old(self).geometry(),
            old(self).wf() ==> final(self).wf(),
    {
        self.foreground = accent();
    }

    /// Blanks the whole frame and puts the cursor in the first cell.
    pub fn clear(&mut self, frame: &mut [u8])
        ensures
            final(self).cursor() == (Cursor { column: 0, row: 0, ..old(self).cursor() }),
            final(self).geometry() == old(self).geometry(),
            final(self).foreground() == old(self).foreground(),
            old(self).wf() ==> final(self).wf(),
            final(frame)@.len() == old(frame)@.len(),
            forall|i: int| 0 <= i < final(frame)@.len() ==> final(frame)@[i] == 0,
    {
        let n = frame.len();
        let mut i: usize = 0;
        while i < n
            invariant
                n == frame@.len(),
                frame@.len() == old(frame)@.len(),
                i <= n,
                forall|k: int| 0 <= k < i ==> frame@[k] == 0,
            decreases n - i,
        {
            frame[i] = 0;
            i = i + 1;
        }
        self.column = 0;
        self.row = 0;
    }

    /// Paints pixel (`x`, `y`) `color` when the screen and the frame have it.
    fn write_pixel(&self, frame: &mut [u8], x: usize, y: usize, color: ConsoleColor)
        ensures
            final(frame)@ == painted(old(frame)@, self.geometry(), x as int, y as int, color),
    {
        if x >= self.info.width || y >= self.info.height {
            return;
        }
        let pixel = saturating_mul(y, self.info.stride).saturating_add(x);
        let offset = saturating_mul(pixel, self.info.bytes_per_pixel);
        let n = frame.len();
        if offset >= n {
            return;
        }
        let bytes: [u8; 4] = match self.info.pixel_format {
            PixelLayout::Bgr => [color.b, color.g, color.r, 0],
            PixelLayout::U8 => {
                let intensity = ((color.r as u16 + color.g as u16 + color.b as u16) / 3) as u8;
                [intensity, 0, 0, 0]
            },
            _ => [color.r, color.g, color.b, 0],
        };
        let mut count = if self.info.bytes_per_pixel < 4 {
            self.info.bytes_per_pixel
        } else {
            4
        };
        if count > n - offset {
            count = n - offset;
        }
        proof {
            assert(bytes@ =~= encoded(self.info.pixel_format, color));
        }
        let ghost before = frame@;
        let mut k: usize = 0;
        while k < count
            invariant
                k <= count <= 4,
                offset + count <= n,
                n == frame@.len(),
                before.len() == n,
                bytes@ == encoded(self.info.pixel_format, color),
                forall|i: int|
                    0 <= i < n ==> frame@[i] == if offset <= i < offset + k {
                        bytes@[i - offset]
                    } else {
                        before[i]
                    },
            decreases count - k,
        {
            frame[offset + k] = bytes[k];
            k = k + 1;
        }
        proof {
            assert(frame@ =~= painted(before, self.info, x as int, y as int, color));
        }
    }

    /// Moves the picture up one row of cells, or clears it when no row would
    /// stay; the cursor goes to the last row (the first, after a clear).
    fn scroll(&mut self, frame: &mut [u8])
        requires
            old(self).wf(),
        ensures
            final(self).wf(),
            final(self).geometry() == old(self).geometry(),
            final(self).foreground() == old(self).foreground(),
            final(frame)@.len() == old(frame)@.len(),
            ({
                let g = old(self).geometry();
                let len = old(frame)@.len() as int;
                if scroll_clears(g, len) {
                    &&& final(self).cursor() == (Cursor { column: 0, row: 0, ..old(self).cursor() })
                    &&& forall|i: int| 0 <= i < len ==> final(frame)@[i] == 0
                } else {
                    &&& final(self).cursor() == (Cursor { row: old(self).cursor().rows - 1, ..old(self).cursor() })
                    &&& final(frame)@ == scrolled(old(frame)@, scroll_shift(g), visible_bytes(g, len))
                }
            }),
    {
        let bytes_per_row = saturating_mul(self.info.stride, self.info.bytes_per_pixel);
        let shift = saturating_mul(self.cell_height, bytes_per_row);
        let all = saturating_mul(self.info.height, bytes_per_row);
        let n = frame.len();
        let visible = if all < n {
            all
        } else {
            n
        };
        if shift >= visible {
            self.clear(frame);
            return;
        }
        let ghost before = frame@;
        let mut i: usize = 0;
        while i < visible - shift
            invariant
                shift < visible <= n,
                n == frame@.len(),
                before.len() == n,
                i <= visible - shift,
                forall|k: int| 0 <= k < i ==> frame@[k] == before[k + shift],
                forall|k: int| i <= k < n ==> frame@[k] == before[k],
            decreases visible - shift - i,
        {
            let value = frame[i + shift];
            frame[i] = value;
            i = i + 1;
        }
        let mut j: usize = visible - shift;
        while j < visible
            invariant
                shift < visible <= n,
                n == frame@.len(),
                before.len() == n,
                visible - shift <= j <= visible,
                forall|k: int| 0 <= k < visible - shift ==> frame@[k] == before[k + shift],
                forall|k: int| visible - shift <= k < j ==> frame@[k] == 0,
                forall|k: int| j <= k < n ==> frame@[k] == before[k],
            decreases visible - j,
        {
            frame[j] = 0;
            j = j + 1;
        }
        self.row = self.rows - 1;
        proof {
            assert(frame@ =~= scrolled(before, shift as int, visible as int));
        }
    }

    /// Moves the cursor to the start of the next line, scrolling past the
    /// last row.
    fn newline(&mut self, frame: &mut [u8])
        requires
            old(self).wf(),
        ensures
            final(self).wf(),
            final(self).cursor() == newline(old(self).cursor(), scroll_clears(old(self).geometry(), old(frame)@.len() as int)),
            final(self).geometry() == old(self).geometry(),
            final(self).foreground() == old(self).foreground(),
            final(frame)@.len() == old(frame)@.len(),
            old(self).cursor().row + 1 < old(self).cursor().rows ==> final(frame)@ == old(frame)@,
    {
        self.column = 0;
        if self.row + 1 < self.rows {
            self.row = self.row + 1;
        } else {
            self.scroll(frame);
        }
    }

    /// Draws `character` in the cell whose top left pixel is (`origin_x`,
    /// `origin_y`), in the foreground color scaled by each raster pixel's
    /// intensity; a character the font lacks is drawn as `?`.
    fn draw_glyph(&self, frame: &mut [u8], character: char, origin_x: usize, origin_y: usize)
        requires
            origin_x <= MAX_SIDE,
            origin_y <= MAX_SIDE,
        ensures
            final(frame)@.len() == old(frame)@.len(),
            final(frame)@ == match console_raster(character) {
                Some(rows) => glyph_drawn(
                    old(frame)@,
                    self.geometry(),
                    rows,
                    rows.len() as int,
                    origin_x + CELL_PADDING_X,
                    origin_y + CELL_PADDING_Y,
                    self.foreground(),
                ),
                None => old(frame)@,
            },
    {
        let raster = match glyph_raster(character, TextStyle::Regular16) {
            Some(rows) => Some(rows),
            None => glyph_raster('?', TextStyle::Regular16),
        };
        let rows = match raster {
            Some(rows) => rows,
            None => {
                return;
            },
        };
        let ghost spec_rows = console_raster(character)->Some_0;
        assert(spec_rows == rows@.map_values(|row: Vec<u8>| row@));
        let ghost g = self.geometry();
        let ghost x0 = origin_x + CELL_PADDING_X;
        let ghost y0 = origin_y + CELL_PADDING_Y;
        let mut glyph_y: usize = 0;
        while glyph_y < rows.len()
            invariant
                glyph_y <= rows@.len(),
                rows@.len() == 16,
                forall|k: int| 0 <= k < rows@.len() ==> (#[trigger] rows@[k])@.len() == 7,
                spec_rows == rows@.map_values(|row: Vec<u8>| row@),
                g == self.geometry(),
                x0 == origin_x + CELL_PADDING_X,
                y0 == origin_y + CELL_PADDING_Y,
                origin_x <= MAX_SIDE,
                origin_y <= MAX_SIDE,
                frame@.len() == old(frame)@.len(),
                frame@ == glyph_drawn(old(frame)@, g, spec_rows, glyph_y as int, x0, y0, self.foreground()),
            decreases rows@.len() - glyph_y,
        {
            let row = &rows[glyph_y];
            assert(spec_rows[glyph_y as int] == row@);
            let ghost start = frame@;
            let mut glyph_x: usize = 0;
            while glyph_x < row.len()
                invariant
                    glyph_x <= row@.len(),
                    row@.len() == 7,
                    glyph_y < 16,
                    g == self.geometry(),
                    x0 == origin_x + CELL_PADDING_X,
                    y0 == origin_y + CELL_PADDING_Y,
                    origin_x <= MAX_SIDE,
                    origin_y <= MAX_SIDE,
                    frame@.len() == old(frame)@.len(),
                    start.len() == old(frame)@.len(),
                    frame@ == glyph_row_drawn(start, g, row@, glyph_x as int, x0, y0 + glyph_y, self.foreground()),
                decreases row@.len() - glyph_x,
            {
                let intensity = row[glyph_x];
                if intensity != 0 {
                    let color = self.foreground.with_intensity(intensity);
                    assert(color == dimmed(self.foreground(), intensity));
                    self.write_pixel(
                        frame,
                        origin_x + CELL_PADDING_X + glyph_x,
                        origin_y + CELL_PADDING_Y + glyph_y,
                        color,
                    );
                }
                glyph_x = glyph_x + 1;
            }
            glyph_y = glyph_y + 1;
        }
    }

    /// Paints the cell at (`column`, `row`) in the background color.
    fn clear_cell(&self, frame: &mut [u8], column: usize, row: usize)
        requires
            self.wf(),
            column < self.cursor().columns,
            row < self.cursor().rows,
        ensures
            final(frame)@.len() == old(frame)@.len(),
            final(frame)@ == painted_block(
                old(frame)@,
                self.geometry(),
                column * cell_width(),
                if column * cell_width() + cell_width() < self.geometry().width {
                    column * cell_width() + cell_width()
                } else {
                    self.geometry().width as int
                },
                row * cell_height(),
                if row * cell_height() + cell_height() < self.geometry().height {
                    row * cell_height() + cell_height()
                } else {
                    self.geometry().height as int
                },
                background_spec(),
            ),
    {
        proof {
            self.lemma_cell_origin(column as int, row as int);
        }
        let start_x = column * self.cell_width;
        let start_y = row * self.cell_height;
        let end_x = if start_x + self.cell_width < self.info.width {
            start_x + self.cell_width
        } else {
            self.info.width
        };
        let end_y = if start_y + self.cell_height < self.info.height {
            start_y + self.cell_height
        } else {
            self.info.height
        };
        let ghost g = self.geometry();
        assert(start_x <= end_x && start_y <= end_y);
        let mut y = start_y;
        while y < end_y
            invariant
                end_y <= MAX_SIDE,
                end_x <= MAX_SIDE,
                start_y <= y <= end_y,
                start_x <= end_x,
                g == self.geometry(),
                frame@.len() == old(frame)@.len(),
                frame@ == painted_block(old(frame)@, g, start_x as int, end_x as int, start_y as int, y as int, background_spec()),
            decreases end_y - y,
        {
            let ghost above = frame@;
            let mut x = start_x;
            while x < end_x
                invariant
                    end_x <= MAX_SIDE,
                    y < end_y,
                    start_x <= x <= end_x,
                    g == self.geometry(),
                    frame@.len() == old(frame)@.len(),
                    above == painted_block(old(frame)@, g, start_x as int, end_x as int, start_y as int, y as int, background_spec()),
                    frame@ == painted_span(above, g, start_x as int, x as int, y as int, background_spec()),
                decreases end_x - x,
            {
                self.write_pixel(frame, x, y, background());
                x = x + 1;
            }
            y = y + 1;
        }
    }

    /// The pixel origin of a cell of the grid lies on the screen, or at its
    /// top left corner when the screen is narrower than a cell.
    proof fn lemma_cell_origin(&self, column: int, row: int)
        requires
            self.wf(),
            0 <= column < self.cursor().columns,
            0 <= row < self.cursor().rows,
        ensures
            column * self.cell_width <= self.info.width,
            row * self.cell_height <= self.info.height,
    {
        let cw = self.cell_width as int;
        let ch = self.cell_height as int;
        let w = self.info.width as int;
        let h = self.info.height as int;
        if w / cw >= 1 {
            assert(column * cw <= w) by (nonlinear_arith)
                requires
                    0 <= column <= w / cw - 1,
                    cw > 0,
                    w >= 0,
            ;
        } else {
            assert(column == 0);
        }
        if h / ch >= 1 {
            assert(self.rows == h / ch);
            assert(row * ch <= h) by (nonlinear_arith)
                requires
                    0 <= row <= h / ch - 1,
                    ch > 0,
                    h >= 0,
            ;
        } else {
            assert(row == 0);
        }
    }

    /// Writes `character` at the cursor (see `char_step`).
    pub fn write_character(&mut self, frame: &mut [u8], character: char)
        requires
            old(self).wf(),
        ensures
            final(self).wf(),
            final(self).cursor() == char_step(old(self).cursor(), character, scroll_clears(old(self).geometry(), old(frame)@.len() as int)),
            final(self).geometry() == old(self).geometry(),
            final(self).foreground() == old(self).foreground(),
            final(frame)@.len() == old(frame)@.len(),
    {
        if character == '\n' {
            self.newline(frame);
        } else if character == '\r' {
            self.column = 0;
        } else if character == '\t' {
            self.write_tab(frame);
        } else if !((character as u32) < 0x20 || (0x7f <= (character as u32) && (character as u32) <= 0x9f)) {
            self.print(frame, character);
        }
    }

    /// Draws a character that is not a control character and advances.
    fn print(&mut self, frame: &mut [u8], character: char)
        requires
            old(self).wf(),
        ensures
            final(self).wf(),
            final(self).cursor() == printed(old(self).cursor(), scroll_clears(old(self).geometry(), old(frame)@.len() as int)),
            final(self).geometry() == old(self).geometry(),
            final(self).foreground() == old(self).foreground(),
            final(frame)@.len() == old(frame)@.len(),
    {
        if self.column >= self.columns {
            self.newline(frame);
        }
        proof {
            self.lemma_cell_origin(self.column as int, self.row as int);
        }
        let origin_x = self.column * self.cell_width;
        let origin_y = self.row * self.cell_height;
        self.draw_glyph(frame, character, origin_x, origin_y);
        self.column = self.column + 1;
    }

    /// Writes spaces up to the next multiple of four columns.
    fn write_tab(&mut self, frame: &mut [u8])
        requires
            old(self).wf(),
        ensures
            final(self).wf(),
            final(self).cursor() == spaces(old(self).cursor(), (4 - old(self).cursor().column % 4) as nat, scroll_clears(old(self).geometry(), old(frame)@.len() as int)),
            final(self).geometry() == old(self).geometry(),
            final(self).foreground() == old(self).foreground(),
            final(frame)@.len() == old(frame)@.len(),
    {
        let count = 4 - (self.column % 4);
        let ghost clears = scroll_clears(self.info, frame@.len() as int);
        let ghost start = self.cursor();
        let mut k: usize = 0;
        while k < count
            invariant
                self.wf(),
                k <= count <= 4,
                count == 4 - start.column % 4,
                self.geometry() == old(self).geometry(),
                self.foreground() == old(self).foreground(),
                frame@.len() == old(frame)@.len(),
                clears == scroll_clears(self.geometry(), frame@.len() as int),
                spaces(start, count as nat, clears) == spaces(self.cursor(), (count - k) as nat, clears),
            decreases count - k,
        {
            self.print(frame, ' ');
            k = k + 1;
        }
    }

    /// Writes byte `byte` (see `byte_step`).
    pub fn write_byte(&mut self, frame: &mut [u8], byte: u8)
        requires
            old(self).wf(),
        ensures
            final(self).wf(),
            final(self).cursor() == byte_step(old(self).cursor(), byte, scroll_clears(old(self).geometry(), old(frame)@.len() as int)),
            final(self).geometry() == old(self).geometry(),
            final(self).foreground() == old(self).foreground(),
            final(frame)@.len() == old(frame)@.len(),
    {
        if byte == 0x0a || byte == 0x0d || byte == 0x09 || (0x20 <= byte && byte <= 0x7e) {
            self.write_character(frame, byte as char);
        }
    }

    /// Erases the cell before the cursor and moves the cursor there.
    pub fn backspace(&mut self, frame: &mut [u8])
        requires
            old(self).wf(),
        ensures
            final(self).wf(),
            final(self).cursor() == backspaced(old(self).cursor()),
            final(self).geometry() == old(self).geometry(),
            final(self).foreground() == old(self).foreground(),
            final(frame)@.len() == old(frame)@.len(),
    {
        if self.column > 0 {
            self.column = self.column - 1;
        } else if self.row > 0 {
            self.row = self.row - 1;
            self.column = self.columns - 1;
        } else {
            return;
        }
        self.clear_cell(frame, self.column, self.row);
    }

    /// Writes the characters of `text` in turn.
    pub fn write_str(&mut self, frame: &mut [u8], text: &str)
        requires
            old(self).wf(),
        ensures
            final(self).wf(),
            final(self).cursor() == text_step(old(self).cursor(), text@, scroll_clears(old(self).geometry(), old(frame)@.len() as int)),
            final(self).geometry() == old(self).geometry(),
            final(self).foreground() == old(self).foreground(),
            final(frame)@.len() == old(frame)@.len(),
    {
        let chars = chars_of(text);
        let ghost clears = scroll_clears(self.info, frame@.len() as int);
        let ghost start = self.cursor();
        let mut k: usize = 0;
        proof {
            assert(text@.subrange(0, text@.len() as int) =~= text@);
        }
        while k < chars.len()
            invariant
                self.wf(),
                chars@ == text@,
                k <= chars@.len(),
                self.geometry() == old(self).geometry(),
                self.foreground() == old(self).foreground(),
                frame@.len() == old(frame)@.len(),
                clears == scroll_clears(self.geometry(), frame@.len() as int),
                text_step(start, text@, clears) == text_step(self.cursor(), text@.subrange(k as int, text@.len() as int), clears),
            decreases chars@.len() - k,
        {
            proof {
                let rest = text@.subrange(k as int, text@.len() as int);
                assert(rest.drop_first() =~= text@.subrange(k + 1, text@.len() as int));
            }
            self.write_character(frame, chars[k]);
            k = k + 1;
        }
        proof {
            assert(text@.subrange(k as int, text@.len() as int) =~= Seq::<char>::empty());
        }
    }
}

impl Console {
    /// The cursor's column and row.
    pub fn position(&self) -> (r: (usize, usize))
        ensures
            r.0 == self.cursor().column,
            r.1 == self.cursor().row,
    {
        (self.column, self.row)
    }

    /// The grid's columns and rows.
    pub fn grid(&self) -> (r: (usize, usize))
        ensures
            r.0 == self.cursor().columns,
            r.1 == self.cursor().rows,
    {
        (self.columns, self.rows)
    }
}

} // verus!
