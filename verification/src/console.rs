//! A text console on a framebuffer, and shapes drawn beside the text.

use crate::text::chars_of;
use vstd::arithmetic::div_mod::{lemma_fundamental_div_mod, lemma_fundamental_div_mod_converse};
use vstd::prelude::*;

verus! {

/// The character that stands in for one that the font does not have.
pub const BACKUP_CHAR: char = '?';

/// Pixels between two lines of text.
pub const LINE_SPACING: usize = 2;

/// Pixels between two letters.
pub const LETTER_SPACING: usize = 0;

/// Pixels between the text and the edge of the screen.
pub const BORDER_PADDING: usize = 4;

/// Pixel rows of a letter.
pub const CHAR_HEIGHT: usize = 16;

/// Pixel columns of a letter.
pub const CHAR_WIDTH: usize = 7;

/// How a pixel is stored.
#[derive(Clone, Copy)]
pub enum PixelFormat {
    Rgb,
    Bgr,
    U8,
    Unknown,
}

/// The layout of a framebuffer.
#[derive(Clone, Copy)]
pub struct FrameBufferInfo {
    pub width: usize,
    pub height: usize,
    pub pixel_format: PixelFormat,
    pub bytes_per_pixel: usize,
    /// Pixels from the start of a line to the start of the next.
    pub stride: usize,
}

/// Whether a pixel has room for the values that its format stores.
pub open spec fn info_ok(info: FrameBufferInfo) -> bool {
    match info.pixel_format {
        PixelFormat::Rgb | PixelFormat::Bgr => info.bytes_per_pixel >= 3,
        PixelFormat::U8 => info.bytes_per_pixel >= 1,
        PixelFormat::Unknown => true,
    }
}

/// What `noto_sans_mono_bitmap::get_raster` gives for a character in regular
/// weight and height 16: rows of pixel intensities.
pub uninterp spec fn font_raster(c: char) -> Option<Seq<Seq<u8>>>;

/// The rows of a letter as mathematical values.
pub open spec fn rows_view(rows: Seq<Vec<u8>>) -> Seq<Seq<u8>> {
    Seq::new(rows.len(), |i: int| rows[i]@)
}

/// `noto_sans_mono_bitmap::get_raster` in regular weight and height 16, and the
/// raster of what it gives. A letter has 16 rows of 7 pixels. The printable ASCII
/// characters have one, and that of the blank is dark. Which pixels of the other
/// letters are lit is not stated, only that it depends on the character alone.
#[verifier::external_body]
fn glyph(c: char) -> (r: Option<Vec<Vec<u8>>>)
    ensures
        match r {
            Some(rows) => {
                &&& font_raster(c) == Some(rows_view(rows@))
                &&& rows@.len() == CHAR_HEIGHT
                &&& forall|i: int| 0 <= i < rows@.len() ==> (#[trigger] rows@[i])@.len() == CHAR_WIDTH
                &&& c == ' ' ==> forall|i: int, j: int|
                    0 <= i < CHAR_HEIGHT && 0 <= j < CHAR_WIDTH ==> #[trigger] rows@[i]@[j] == 0
            },
            None => font_raster(c) is None,
        },
        0x20 <= c as u32 <= 0x7E ==> r is Some,
{
    noto_sans_mono_bitmap::get_raster(
        c,
        noto_sans_mono_bitmap::FontWeight::Regular,
        noto_sans_mono_bitmap::RasterHeight::Size16,
    ).map(|g| g.raster().iter().map(|row| row.to_vec()).collect())
}

/// `noto_sans_mono_bitmap::get_raster_width` for regular weight and height 16: 7.
#[verifier::external_body]
fn raster_width() -> (r: usize)
    ensures
        r == CHAR_WIDTH,
{
    noto_sans_mono_bitmap::get_raster_width(
        noto_sans_mono_bitmap::FontWeight::Regular,
        noto_sans_mono_bitmap::RasterHeight::Size16,
    )
}

/// `noto_sans_mono_bitmap::RasterHeight::val` of `Size16`: 16.
#[verifier::external_body]
fn raster_height() -> (r: usize)
    ensures
        r == CHAR_HEIGHT,
{
    noto_sans_mono_bitmap::RasterHeight::Size16.val()
}

/// The rows that the font has for a character, or for the one that stands in for it.
pub open spec fn font_rows(c: char) -> Seq<Seq<u8>> {
    match font_raster(c) {
        Some(rows) => rows,
        None => font_raster(BACKUP_CHAR)->0,
    }
}

/// The raster that a character is drawn with: 16 rows of 7 pixels, dark for the blank.
pub open spec fn char_raster(c: char) -> Seq<Seq<u8>> {
    Seq::new(
        CHAR_HEIGHT as nat,
        |i: int|
            Seq::new(
                CHAR_WIDTH as nat,
                |j: int|
                    if c == ' ' {
                        0u8
                    } else {
                        font_rows(c)[i][j]
                    },
            ),
    )
}

fn get_char_raster(c: char) -> (r: Vec<Vec<u8>>)
    ensures
        rows_view(r@) == char_raster(c),
{
    let rows = match glyph(c) {
        Some(rows) => rows,
        None => match glyph(BACKUP_CHAR) {
            Some(rows) => rows,
            None => Vec::new(),
        },
    };
    proof {
        let shown = rows_view(rows@);
        assert(shown.len() == CHAR_HEIGHT);
        assert forall|i: int| 0 <= i < CHAR_HEIGHT implies #[trigger] shown[i] == char_raster(
            c,
        )[i] by {
            assert(rows@[i]@.len() == CHAR_WIDTH);
            assert forall|j: int| 0 <= j < CHAR_WIDTH implies shown[i][j] == char_raster(
                c,
            )[i][j] by {
                assert(shown[i][j] == rows@[i]@[j]);
            }
            assert(shown[i] =~= char_raster(c)[i]);
        }
        assert(shown =~= char_raster(c));
    }
    rows
}

/// The framebuffer after the pixel at column `x` of line `y` was set. A pixel
/// outside the framebuffer changes nothing.
pub open spec fn pixel_set(fb: Seq<u8>, info: FrameBufferInfo, x: int, y: int, v: u8) -> Seq<u8> {
    let off = (y * info.stride + x) * info.bytes_per_pixel;
    if off + info.bytes_per_pixel > fb.len() {
        fb
    } else {
        match info.pixel_format {
            PixelFormat::Rgb | PixelFormat::Bgr => fb.update(off, v).update(off + 1, v).update(
                off + 2,
                v,
            ),
            PixelFormat::U8 => fb.update(off, v),
            PixelFormat::Unknown => fb,
        }
    }
}

/// The framebuffer after the first `k` pixels of a row were set from `x` on.
pub open spec fn row_set(
    fb: Seq<u8>,
    info: FrameBufferInfo,
    x: int,
    y: int,
    row: Seq<u8>,
    k: nat,
) -> Seq<u8>
    decreases k,
{
    if k == 0 {
        fb
    } else {
        pixel_set(row_set(fb, info, x, y, row, (k - 1) as nat), info, x + k - 1, y, row[k - 1])
    }
}

/// The framebuffer after the first `k` rows of a letter were drawn at (`x`, `y`).
pub open spec fn rows_set(
    fb: Seq<u8>,
    info: FrameBufferInfo,
    x: int,
    y: int,
    rows: Seq<Seq<u8>>,
    k: nat,
) -> Seq<u8>
    decreases k,
{
    if k == 0 {
        fb
    } else {
        row_set(
            rows_set(fb, info, x, y, rows, (k - 1) as nat),
            info,
            x,
            y + k - 1,
            rows[k - 1],
            rows[k - 1].len(),
        )
    }
}

/// A console as a mathematical value.
#[verifier::ext_equal]
pub struct ConsoleView {
    pub fb: Seq<u8>,
    pub info: FrameBufferInfo,
    pub x: usize,
    pub y: usize,
}

/// The console with a dark screen.
pub open spec fn cleared(c: ConsoleView) -> ConsoleView {
    ConsoleView {
        fb: Seq::new(c.fb.len(), |i: int| 0u8),
        x: BORDER_PADDING,
        y: BORDER_PADDING,
        ..c
    }
}

/// The console with its cursor at the start of the next line.
pub open spec fn at_next_line(c: ConsoleView) -> ConsoleView {
    ConsoleView {
        x: BORDER_PADDING,
        y: c.y.wrapping_add((CHAR_HEIGHT + LINE_SPACING) as usize),
        ..c
    }
}

/// The console after a letter was drawn at its cursor.
pub open spec fn letter_drawn(c: ConsoleView, ch: char) -> ConsoleView {
    let rows = char_raster(ch);
    ConsoleView { fb: rows_set(c.fb, c.info, c.x as int, c.y as int, rows, rows.len()), ..c }
}

/// The console once there is room for a letter at its cursor: past the end of a
/// line it goes on with the next one, past the last line with a dark screen.
pub open spec fn with_room(c: ConsoleView) -> ConsoleView {
    let wrapped = if c.x.wrapping_add(CHAR_WIDTH) >= c.info.width {
        at_next_line(c)
    } else {
        c
    };
    if wrapped.y.wrapping_add(CHAR_HEIGHT).wrapping_add(BORDER_PADDING) >= c.info.height {
        cleared(wrapped)
    } else {
        wrapped
    }
}

/// The console after a character was written.
pub open spec fn char_written(c: ConsoleView, ch: char) -> ConsoleView {
    if ch == '\n' {
        at_next_line(c)
    } else if ch == '\r' {
        ConsoleView { x: BORDER_PADDING, ..c }
    } else {
        let drawn = letter_drawn(with_room(c), ch);
        ConsoleView { x: drawn.x.wrapping_add(CHAR_WIDTH), ..drawn }
    }
}

/// The console after a text was written.
pub open spec fn text_written(c: ConsoleView, s: Seq<char>) -> ConsoleView
    decreases s.len(),
{
    if s.len() == 0 {
        c
    } else {
        char_written(text_written(c, s.drop_last()), s.last())
    }
}

/// The console after the last letter of the line was taken back.
pub open spec fn backspaced(c: ConsoleView) -> ConsoleView {
    if c.x >= BORDER_PADDING + CHAR_WIDTH {
        letter_drawn(ConsoleView { x: (c.x - CHAR_WIDTH) as usize, ..c }, ' ')
    } else {
        c
    }
}

pub open spec fn abs(v: int) -> int {
    if v < 0 {
        -v
    } else {
        v
    }
}

/// `a / b`, rounded to the nearest integer, and up where two are equally near.
pub open spec fn rounded(a: int, b: int) -> int {
    (2 * a + b) / (2 * b)
}

/// The number of steps from one end of a line to the other: one per pixel along
/// the direction in which it is longer.
pub open spec fn line_steps(x0: int, y0: int, x1: int, y1: int) -> int {
    if abs(x1 - x0) >= abs(y1 - y0) {
        abs(x1 - x0)
    } else {
        abs(y1 - y0)
    }
}

/// Moves `a` by `n` towards `b`.
pub open spec fn towards(a: int, b: int, n: int) -> int {
    if a < b {
        a + n
    } else {
        a - n
    }
}

/// Point `k` of a line: `k` pixels along the longer direction, and the nearest
/// pixel to the ideal line in the other one.
pub open spec fn line_point(x0: int, y0: int, x1: int, y1: int, k: int) -> (int, int) {
    let dx = abs(x1 - x0);
    let dy = abs(y1 - y0);
    if k == 0 {
        (x0, y0)
    } else if dx >= dy {
        (towards(x0, x1, k), towards(y0, y1, rounded(k * dy, dx)))
    } else {
        (towards(x0, x1, rounded(k * dx, dy)), towards(y0, y1, k))
    }
}

/// The framebuffer after the first `k` points of a line were lit.
pub open spec fn points_lit(
    fb: Seq<u8>,
    info: FrameBufferInfo,
    x0: int,
    y0: int,
    x1: int,
    y1: int,
    k: nat,
) -> Seq<u8>
    decreases k,
{
    if k == 0 {
        fb
    } else {
        let p = line_point(x0, y0, x1, y1, k - 1);
        pixel_set(points_lit(fb, info, x0, y0, x1, y1, (k - 1) as nat), info, p.0, p.1, 255)
    }
}

/// The framebuffer after a line was drawn.
pub open spec fn line_drawn(
    fb: Seq<u8>,
    info: FrameBufferInfo,
    x0: int,
    y0: int,
    x1: int,
    y1: int,
) -> Seq<u8> {
    points_lit(fb, info, x0, y0, x1, y1, (line_steps(x0, y0, x1, y1) + 1) as nat)
}

/// The framebuffer after the first `k` lines of a filled rectangle were drawn.
pub open spec fn lines_filled(
    fb: Seq<u8>,
    info: FrameBufferInfo,
    x: int,
    y: int,
    x1: int,
    k: nat,
) -> Seq<u8>
    decreases k,
{
    if k == 0 {
        fb
    } else {
        line_drawn(
            lines_filled(fb, info, x, y, x1, (k - 1) as nat),
            info,
            x,
            y + k - 1,
            x1,
            y + k - 1,
        )
    }
}

/// The framebuffer after a rectangle was drawn.
pub open spec fn rect_drawn(
    fb: Seq<u8>,
    info: FrameBufferInfo,
    x: int,
    y: int,
    width: int,
    height: int,
    filled: bool,
) -> Seq<u8> {
    let x1 = x + width - 1;
    let y1 = y + height - 1;
    if width == 0 || height == 0 {
        fb
    } else if filled {
        lines_filled(fb, info, x, y, x1, height as nat)
    } else {
        let top = line_drawn(fb, info, x, y, x1, y);
        let bottom = line_drawn(top, info, x, y1, x1, y1);
        let left = line_drawn(bottom, info, x, y, x, y1);
        line_drawn(left, info, x1, y, x1, y1)
    }
}

/// A text console.
pub struct Console {
    pub framebuffer: Vec<u8>,
    pub info: FrameBufferInfo,
    pub x_pos: usize,
    pub y_pos: usize,
}

/// A pixel far out lies outside the framebuffer.
proof fn lemma_far_pixel(fb: Seq<u8>, info: FrameBufferInfo, x: int, y: int, v: u8)
    requires
        info_ok(info),
        x >= 0,
        y >= 0,
        y * info.stride + x >= fb.len() || (y * info.stride + x) * info.bytes_per_pixel
            + info.bytes_per_pixel > fb.len(),
    ensures
        pixel_set(fb, info, x, y, v) == fb,
{
    let p = y * info.stride + x;
    let bpp = info.bytes_per_pixel as int;
    if !(info.pixel_format is Unknown) && p >= fb.len() {
        assert(p * bpp + bpp > fb.len()) by (nonlinear_arith)
            requires
                p >= fb.len(),
                bpp >= 1,
                fb.len() >= 0,
        ;
    }
}

impl Console {
    pub open spec fn view(self) -> ConsoleView {
        ConsoleView {
            fb: self.framebuffer@,
            info: self.info,
            x: self.x_pos,
            y: self.y_pos,
        }
    }

    pub open spec fn wf(self) -> bool {
        info_ok(self.info)
    }

    /// A console on a framebuffer, with a dark screen.
    pub fn new(framebuffer: Vec<u8>, info: FrameBufferInfo) -> (r: Console)
        requires
            info_ok(info),
        ensures
            r.wf(),
            r@ == cleared(ConsoleView { fb: framebuffer@, info, x: 0, y: 0 }),
    {
        let mut console = Console { framebuffer, info, x_pos: 0, y_pos: 0 };
        console.clear();
        console
    }

    /// Darkens the screen and puts the cursor at its start.
    pub fn clear(&mut self)
        requires
            old(self).wf(),
        ensures
            final(self).wf(),
            final(self)@ == cleared(old(self)@),
    {
        let ghost before = self@;
        self.x_pos = BORDER_PADDING;
        self.y_pos = BORDER_PADDING;
        let mut i: usize = 0;
        while i < self.framebuffer.len()
            invariant
                i <= self.framebuffer@.len(),
                self.framebuffer@.len() == before.fb.len(),
                self.info == before.info,
                self.x_pos == BORDER_PADDING,
                self.y_pos == BORDER_PADDING,
                forall|k: int| 0 <= k < i ==> self.framebuffer@[k] == 0,
            decreases self.framebuffer@.len() - i,
        {
            self.framebuffer.set(i, 0);
            i += 1;
        }
        assert(self@ == cleared(before));
    }

    fn newline(&mut self)
        requires
            old(self).wf(),
        ensures
            final(self).wf(),
            final(self)@ == at_next_line(old(self)@),
    {
        self.y_pos = self.y_pos.wrapping_add(raster_height() + LINE_SPACING);
        self.carriage_return();
    }

    fn carriage_return(&mut self)
        requires
            old(self).wf(),
        ensures
            final(self).wf(),
            final(self)@ == (ConsoleView { x: BORDER_PADDING, ..old(self)@ }),
    {
        self.x_pos = BORDER_PADDING;
    }

    /// Writes a character at the cursor.
    pub fn write_char(&mut self, c: char)
        requires
            old(self).wf(),
        ensures
            final(self).wf(),
            final(self)@ == char_written(old(self)@, c),
    {
        if c == '\n' {
            self.newline();
        } else if c == '\r' {
            self.carriage_return();
        } else {
            let new_xpos: usize = self.x_pos.wrapping_add(raster_width());
            if new_xpos >= self.info.width {
                self.newline();
            }
            let new_ypos: usize = self.y_pos.wrapping_add(raster_height()).wrapping_add(
                BORDER_PADDING,
            );
            if new_ypos >= self.info.height {
                self.clear();
            }
            self.draw_rendered_char(&get_char_raster(c));
            self.x_pos = self.x_pos.wrapping_add(raster_width() + LETTER_SPACING);
        }
    }

    fn draw_rendered_char(&mut self, rows: &Vec<Vec<u8>>)
        requires
            old(self).wf(),
        ensures
            final(self).wf(),
            final(self)@ == (ConsoleView {
                fb: rows_set(
                    old(self)@.fb,
                    old(self)@.info,
                    old(self)@.x as int,
                    old(self)@.y as int,
                    rows_view(rows@),
                    rows@.len(),
                ),
                ..old(self)@
            }),
    {
        let ghost before = self@;
        let ghost rv = rows_view(rows@);
        let mut y: usize = 0;
        while y < rows.len()
            invariant
                y <= rows@.len(),
                rv == rows_view(rows@),
                info_ok(before.info),
                self@ == (ConsoleView {
                    fb: rows_set(
                        before.fb,
                        before.info,
                        before.x as int,
                        before.y as int,
                        rv,
                        y as nat,
                    ),
                    ..before
                }),
            decreases rows@.len() - y,
        {
            let row = &rows[y];
            let ghost base = self.framebuffer@;
            let mut x: usize = 0;
            while x < row.len()
                invariant
                    x <= row@.len(),
                    row@ == rv[y as int],
                    info_ok(before.info),
                    self@ == (ConsoleView {
                        fb: row_set(
                            base,
                            before.info,
                            before.x as int,
                            before.y + y,
                            row@,
                            x as nat,
                        ),
                        ..before
                    }),
                decreases row@.len() - x,
            {
                let px: u128 = self.x_pos as u128 + x as u128;
                let py: u128 = self.y_pos as u128 + y as u128;
                self.write_pixel(px, py, row[x]);
                x += 1;
            }
            y += 1;
        }
    }

    /// Takes the last letter of the line back. The line before is out of reach.
    pub fn backspace(&mut self)
        requires
            old(self).wf(),
        ensures
            final(self).wf(),
            final(self)@ == backspaced(old(self)@),
            old(self)@.x >= BORDER_PADDING + CHAR_WIDTH ==> forall|i: int, j: int|
                0 <= i < CHAR_HEIGHT && 0 <= j < CHAR_WIDTH ==> #[trigger] char_raster(' ')[i][j]
                    == 0,
    {
        let char_width: usize = raster_width();
        if self.x_pos >= BORDER_PADDING + char_width {
            self.x_pos = self.x_pos - char_width;
            self.draw_rendered_char(&get_char_raster(' '));
        }
    }

    fn write_pixel(&mut self, x: u128, y: u128, intensity: u8)
        requires
            old(self).wf(),
        ensures
            final(self).wf(),
            final(self)@ == (ConsoleView {
                fb: pixel_set(
                    old(self)@.fb,
                    old(self)@.info,
                    x as int,
                    y as int,
                    intensity,
                ),
                ..old(self)@
            }),
    {
        let ghost before = self@;
        let len: usize = self.framebuffer.len();
        let bpp: usize = self.info.bytes_per_pixel;
        let stride: u128 = self.info.stride as u128;
        let offset: Option<u128> = match y.checked_mul(stride) {
            Some(line) => line.checked_add(x),
            None => None,
        };
        let pixel: u128 = match offset {
            Some(p) => p,
            None => {
                proof {
                    assert(y * stride + x > u128::MAX);
                    lemma_far_pixel(before.fb, before.info, x as int, y as int, intensity);
                }
                return;
            },
        };
        if pixel >= len as u128 {
            proof {
                lemma_far_pixel(before.fb, before.info, x as int, y as int, intensity);
            }
            return;
        }
        assert(0 <= pixel * bpp <= 0x1_0000_0000_0000_0000 * 0x1_0000_0000_0000_0000 - 1)
            by (nonlinear_arith)
            requires
                0 <= pixel < 0x1_0000_0000_0000_0000,
                0 <= bpp < 0x1_0000_0000_0000_0000,
        ;
        let byte_offset: u128 = pixel * bpp as u128;
        if byte_offset > len as u128 || bpp as u128 > len as u128 - byte_offset {
            proof {
                lemma_far_pixel(before.fb, before.info, x as int, y as int, intensity);
            }
            return;
        }
        let off: usize = byte_offset as usize;
        match self.info.pixel_format {
            PixelFormat::Rgb | PixelFormat::Bgr => {
                self.framebuffer.set(off, intensity);
                self.framebuffer.set(off + 1, intensity);
                self.framebuffer.set(off + 2, intensity);
            },
            PixelFormat::U8 => {
                self.framebuffer.set(off, intensity);
            },
            PixelFormat::Unknown => {},
        }
    }

    /// Lights or darkens one pixel. The cursor stays where it is.
    pub fn draw_pixel(&mut self, x: usize, y: usize, on: bool)
        requires
            old(self).wf(),
        ensures
            final(self).wf(),
            final(self)@ == (ConsoleView {
                fb: pixel_set(
                    old(self)@.fb,
                    old(self)@.info,
                    x as int,
                    y as int,
                    if on {
                        255
                    } else {
                        0
                    },
                ),
                ..old(self)@
            }),
    {
        self.write_pixel(
            x as u128,
            y as u128,
            if on {
                255
            } else {
                0
            },
        );
    }

    /// Draws a straight line between two pixels. The cursor stays where it is.
    pub fn draw_line(&mut self, x0: usize, y0: usize, x1: usize, y1: usize)
        requires
            old(self).wf(),
        ensures
            final(self).wf(),
            final(self)@ == (ConsoleView {
                fb: line_drawn(
                    old(self)@.fb,
                    old(self)@.info,
                    x0 as int,
                    y0 as int,
                    x1 as int,
                    y1 as int,
                ),
                ..old(self)@
            }),
    {
        self.draw_long_line(x0 as i128, y0 as i128, x1 as i128, y1 as i128);
    }

    /// Draws a line by adding up the error against the ideal line: a step along
    /// either direction is due when it keeps the error small.
    fn draw_long_line(&mut self, x0: i128, y0: i128, x1: i128, y1: i128)
        requires
            old(self).wf(),
            0 <= x0 <= MAX_COORDINATE,
            0 <= y0 <= MAX_COORDINATE,
            0 <= x1 <= MAX_COORDINATE,
            0 <= y1 <= MAX_COORDINATE,
        ensures
            final(self).wf(),
            final(self)@ == (ConsoleView {
                fb: line_drawn(
                    old(self)@.fb,
                    old(self)@.info,
                    x0 as int,
                    y0 as int,
                    x1 as int,
                    y1 as int,
                ),
                ..old(self)@
            }),
    {
        let ghost before = self@;
        let dx: i128 = if x0 < x1 {
            x1 - x0
        } else {
            x0 - x1
        };
        let dy: i128 = if y0 < y1 {
            y0 - y1
        } else {
            y1 - y0
        };
        let sx: i128 = if x0 < x1 {
            1
        } else {
            -1
        };
        let sy: i128 = if y0 < y1 {
            1
        } else {
            -1
        };
        let ghost ex = dx as int;
        let ghost ey = -dy;
        let ghost n = line_steps(x0 as int, y0 as int, x1 as int, y1 as int);
        let mut x: i128 = x0;
        let mut y: i128 = y0;
        let mut err: i128 = dx + dy;
        let ghost mut k: int = 0;
        let ghost mut a: int = 0;
        let ghost mut b: int = 0;
        let ghost mut dev: int = 0;
        self.write_pixel(x as u128, y as u128, 255);
        assert(self@.fb == points_lit(
            before.fb,
            before.info,
            x0 as int,
            y0 as int,
            x1 as int,
            y1 as int,
            1,
        )) by {
            reveal_with_fuel(points_lit, 2);
        }
        while !(x == x1 && y == y1)
            invariant
                info_ok(before.info),
                0 <= x0 <= MAX_COORDINATE,
                0 <= y0 <= MAX_COORDINATE,
                0 <= x1 <= MAX_COORDINATE,
                0 <= y1 <= MAX_COORDINATE,
                dx == ex == abs(x1 - x0),
                dy == -ey,
                ey == abs(y1 - y0),
                sx == (if x0 < x1 {
                    1int
                } else {
                    -1int
                }),
                sy == (if y0 < y1 {
                    1int
                } else {
                    -1int
                }),
                n == (if ex >= ey {
                    ex
                } else {
                    ey
                }),
                0 <= k <= n,
                0 <= a <= ex,
                0 <= b <= ey,
                x == towards(x0 as int, x1 as int, a),
                y == towards(y0 as int, y1 as int, b),
                err == ex - ey + dev,
                dev == b * ex - a * ey,
                ex >= ey ==> a == k && (ex > 0 ==> -ex < 2 * dev) && 2 * dev <= ex,
                ex < ey ==> b == k && -ey <= 2 * dev && 2 * dev < ey,
                self@ == (ConsoleView {
                    fb: points_lit(
                        before.fb,
                        before.info,
                        x0 as int,
                        y0 as int,
                        x1 as int,
                        y1 as int,
                        (k + 1) as nat,
                    ),
                    ..before
                }),
            decreases n - k,
        {
            proof {
                lemma_line_end(ex, ey, k, a, b, dev);
            }
            let e2: i128 = 2 * err;
            let ghost step_x = e2 >= dy;
            let ghost step_y = e2 <= dx;
            if e2 >= dy {
                err = err + dy;
                x = x + sx;
            }
            if e2 <= dx {
                err = err + dx;
                y = y + sy;
            }
            proof {
                lemma_line_step(ex, ey, k, a, b, dev);
                let a2 = if step_x {
                    a + 1
                } else {
                    a
                };
                let b2 = if step_y {
                    b + 1
                } else {
                    b
                };
                dev = b2 * ex - a2 * ey;
                a = a2;
                b = b2;
                k = k + 1;
                lemma_line_point(x0 as int, y0 as int, x1 as int, y1 as int, k, a, b);
            }
            self.write_pixel(x as u128, y as u128, 255);
        }
        proof {
            if k < n {
                assert(a == ex && b == ey);
            }
        }
    }

    /// Draws the outline of a rectangle, or fills it. The cursor stays where it is.
    pub fn draw_rect(&mut self, x: usize, y: usize, width: usize, height: usize, filled: bool)
        requires
            old(self).wf(),
        ensures
            final(self).wf(),
            final(self)@ == (ConsoleView {
                fb: rect_drawn(
                    old(self)@.fb,
                    old(self)@.info,
                    x as int,
                    y as int,
                    width as int,
                    height as int,
                    filled,
                ),
                ..old(self)@
            }),
    {
        if width == 0 || height == 0 {
            return;
        }
        let ghost before = self@;
        let x0: i128 = x as i128;
        let y0: i128 = y as i128;
        let x1: i128 = x0 + width as i128 - 1;
        let y1: i128 = y0 + height as i128 - 1;
        if filled {
            let mut row: i128 = y0;
            while row <= y1
                invariant
                    info_ok(before.info),
                    x0 == x,
                    y0 == y,
                    x1 == x + width - 1,
                    y1 == y + height - 1,
                    0 < width,
                    0 < height,
                    y0 <= row <= y1 + 1,
                    self@ == (ConsoleView {
                        fb: lines_filled(
                            before.fb,
                            before.info,
                            x as int,
                            y as int,
                            x1 as int,
                            (row - y0) as nat,
                        ),
                        ..before
                    }),
                decreases y1 + 1 - row,
            {
                self.draw_long_line(x0, row, x1, row);
                row = row + 1;
            }
        } else {
            self.draw_long_line(x0, y0, x1, y0);
            self.draw_long_line(x0, y1, x1, y1);
            self.draw_long_line(x0, y0, x0, y1);
            self.draw_long_line(x1, y0, x1, y1);
        }
    }
}

/// No coordinate is larger, that of a rectangle's far corner included.
pub const MAX_COORDINATE: i128 = 0x2_0000_0000_0000_0000;

/// Before the last step a line has not arrived, and its error is small.
proof fn lemma_line_end(ex: int, ey: int, k: int, a: int, b: int, dev: int)
    requires
        0 <= ex <= MAX_COORDINATE,
        0 <= ey <= MAX_COORDINATE,
        0 <= a <= ex,
        0 <= b <= ey,
        0 <= k,
        k <= ex || k <= ey,
        dev == b * ex - a * ey,
        !(a == ex && b == ey),
        ex >= ey ==> a == k && (ex > 0 ==> -ex < 2 * dev) && 2 * dev <= ex,
        ex < ey ==> b == k && -ey <= 2 * dev && 2 * dev < ey,
    ensures
        ex >= ey ==> k < ex,
        ex < ey ==> k < ey,
        -2 * MAX_COORDINATE <= dev <= 2 * MAX_COORDINATE,
{
    if ex >= ey && k == ex {
        assert(dev == (b - ey) * ex) by (nonlinear_arith)
            requires
                dev == b * ex - a * ey,
                a == ex,
        ;
        if b < ey {
            assert((b - ey) * ex <= -ex) by (nonlinear_arith)
                requires
                    b - ey <= -1,
                    ex >= 0,
            ;
        }
        assert(false);
    }
    if ex < ey && k == ey {
        assert(dev == (ex - a) * ey) by (nonlinear_arith)
            requires
                dev == b * ex - a * ey,
                b == ey,
        ;
        assert((ex - a) * ey >= ey) by (nonlinear_arith)
            requires
                ex - a >= 1,
                ey >= 0,
        ;
        assert(false);
    }
}

/// One step of a line keeps its error small, and goes along the longer direction.
proof fn lemma_line_step(ex: int, ey: int, k: int, a: int, b: int, dev: int)
    requires
        0 <= ex,
        0 <= ey,
        0 <= a <= ex,
        0 <= b <= ey,
        dev == b * ex - a * ey,
        ex >= ey ==> a == k < ex && (ex > 0 ==> -ex < 2 * dev) && 2 * dev <= ex,
        ex < ey ==> b == k < ey && -ey <= 2 * dev && 2 * dev < ey,
    ensures
        ({
            let e2 = 2 * (ex - ey + dev);
            let a2 = if e2 >= -ey {
                a + 1
            } else {
                a
            };
            let b2 = if e2 <= ex {
                b + 1
            } else {
                b
            };
            let dev2 = b2 * ex - a2 * ey;
            &&& dev2 == dev + (if e2 <= ex {
                ex
            } else {
                0
            }) - (if e2 >= -ey {
                ey
            } else {
                0
            })
            &&& a2 <= ex
            &&& b2 <= ey
            &&& ex >= ey ==> a2 == k + 1 && -ex < 2 * dev2 && 2 * dev2 <= ex
            &&& ex < ey ==> b2 == k + 1 && -ey <= 2 * dev2 && 2 * dev2 < ey
        }),
{
    let e2 = 2 * (ex - ey + dev);
    let a2 = if e2 >= -ey {
        a + 1
    } else {
        a
    };
    let b2 = if e2 <= ex {
        b + 1
    } else {
        b
    };
    let dev2 = b2 * ex - a2 * ey;
    assert((a + 1) * ey == a * ey + ey) by (nonlinear_arith);
    assert((b + 1) * ex == b * ex + ex) by (nonlinear_arith);
    if ex >= ey && b2 > ey {
        assert(b2 * ex - a2 * ey >= ex) by (nonlinear_arith)
            requires
                b2 >= ey + 1,
                0 <= a2 <= ex,
                0 <= ey,
                0 <= ex,
        ;
    }
    if ex < ey && a2 > ex {
        assert(b2 * ex - a2 * ey <= -ey) by (nonlinear_arith)
            requires
                a2 >= ex + 1,
                0 <= b2 <= ey,
                0 <= ey,
                0 <= ex,
        ;
    }
}

/// The nearest integer to a quotient.
proof fn lemma_rounded(b: int, m: int, d: int)
    requires
        0 < d,
        -d < 2 * (b * d - m),
        2 * (b * d - m) <= d,
    ensures
        rounded(m, d) == b,
{
    let q = 2 * m + d;
    let r = q - b * (2 * d);
    assert(b * (2 * d) == 2 * (b * d)) by (nonlinear_arith);
    lemma_fundamental_div_mod_converse(q, 2 * d, b, r);
}

/// A small error means that a line's point is the nearest one.
proof fn lemma_line_point(x0: int, y0: int, x1: int, y1: int, k: int, a: int, b: int)
    requires
        0 < k,
        ({
            let ex = abs(x1 - x0);
            let ey = abs(y1 - y0);
            let dev = b * ex - a * ey;
            &&& ex >= ey ==> a == k && -ex < 2 * dev && 2 * dev <= ex
            &&& ex < ey ==> b == k && -ey <= 2 * dev && 2 * dev < ey
        }),
    ensures
        line_point(x0, y0, x1, y1, k) == (towards(x0, x1, a), towards(y0, y1, b)),
{
    let ex = abs(x1 - x0);
    let ey = abs(y1 - y0);
    if ex >= ey {
        lemma_rounded(b, k * ey, ex);
    } else {
        lemma_rounded(a, k * ex, ey);
    }
}

/// The screen's console, once there is one, as a mathematical value.
pub open spec fn screen_view(c: Option<Console>) -> Option<ConsoleView> {
    match c {
        Some(x) => Some(x@),
        None => None,
    }
}

pub open spec fn screen_ok(c: Option<Console>) -> bool {
    c matches Some(x) ==> x.wf()
}

/// The screen after `f`, if there is one.
pub open spec fn on_screen(
    c: Option<ConsoleView>,
    f: spec_fn(ConsoleView) -> ConsoleView,
) -> Option<ConsoleView> {
    match c {
        Some(x) => Some(f(x)),
        None => None,
    }
}

/// Takes a framebuffer into use as the screen.
pub fn init(console: &mut Option<Console>, framebuffer: Vec<u8>, info: FrameBufferInfo)
    requires
        info_ok(info),
    ensures
        screen_ok(*final(console)),
        screen_view(*final(console)) == Some(
            cleared(ConsoleView { fb: framebuffer@, info, x: 0, y: 0 }),
        ),
{
    *console = Some(Console::new(framebuffer, info));
}

/// Writes a character to the screen, if there is one.
pub fn write_char(console: &mut Option<Console>, c: char)
    requires
        screen_ok(*old(console)),
    ensures
        screen_ok(*final(console)),
        screen_view(*final(console)) == on_screen(
            screen_view(*old(console)),
            |v: ConsoleView| char_written(v, c),
        ),
{
    match console {
        Some(x) => x.write_char(c),
        None => {},
    }
}

/// Writes a text to the screen, if there is one.
pub fn write_str(console: &mut Option<Console>, s: &str)
    requires
        screen_ok(*old(console)),
    ensures
        screen_ok(*final(console)),
        screen_view(*final(console)) == on_screen(
            screen_view(*old(console)),
            |v: ConsoleView| text_written(v, s@),
        ),
{
    let ghost before = screen_view(*console);
    let chars = chars_of(s);
    let mut i: usize = 0;
    assert(s@.take(0) == Seq::<char>::empty());
    while i < chars.len()
        invariant
            i <= chars@.len(),
            chars@ == s@,
            screen_ok(*console),
            screen_view(*console) == on_screen(
                before,
                |v: ConsoleView| text_written(v, s@.take(i as int)),
            ),
        decreases chars@.len() - i,
    {
        assert(s@.take(i + 1).drop_last() == s@.take(i as int));
        write_char(console, chars[i]);
        i += 1;
    }
    assert(s@.take(s@.len() as int) == s@);
}

/// Takes the last letter of the line back.
pub fn backspace(console: &mut Option<Console>)
    requires
        screen_ok(*old(console)),
    ensures
        screen_ok(*final(console)),
        screen_view(*final(console)) == on_screen(
            screen_view(*old(console)),
            |v: ConsoleView| backspaced(v),
        ),
{
    match console {
        Some(x) => x.backspace(),
        None => {},
    }
}

/// Darkens the screen.
pub fn clear_screen(console: &mut Option<Console>)
    requires
        screen_ok(*old(console)),
    ensures
        screen_ok(*final(console)),
        screen_view(*final(console)) == on_screen(
            screen_view(*old(console)),
            |v: ConsoleView| cleared(v),
        ),
{
    match console {
        Some(x) => x.clear(),
        None => {},
    }
}

/// The screen's width and height in pixels, once there is one.
pub fn dimensions(console: &Option<Console>) -> (r: Option<(usize, usize)>)
    ensures
        r == (match screen_view(*console) {
            Some(v) => Some((v.info.width, v.info.height)),
            None => None,
        }),
{
    match console {
        Some(x) => Some((x.info.width, x.info.height)),
        None => None,
    }
}

/// Lights or darkens one pixel of the screen.
pub fn draw_pixel(console: &mut Option<Console>, x: usize, y: usize, on: bool)
    requires
        screen_ok(*old(console)),
    ensures
        screen_ok(*final(console)),
        screen_view(*final(console)) == on_screen(
            screen_view(*old(console)),
            |v: ConsoleView|
                ConsoleView {
                    fb: pixel_set(
                        v.fb,
                        v.info,
                        x as int,
                        y as int,
                        if on {
                            255
                        } else {
                            0
                        },
                    ),
                    ..v
                },
        ),
{
    match console {
        Some(c) => c.draw_pixel(x, y, on),
        None => {},
    }
}

/// Draws a line on the screen.
pub fn draw_line(console: &mut Option<Console>, x0: usize, y0: usize, x1: usize, y1: usize)
    requires
        screen_ok(*old(console)),
    ensures
        screen_ok(*final(console)),
        screen_view(*final(console)) == on_screen(
            screen_view(*old(console)),
            |v: ConsoleView|
                ConsoleView {
                    fb: line_drawn(
                        v.fb,
                        v.info,
                        x0 as int,
                        y0 as int,
                        x1 as int,
                        y1 as int,
                    ),
                    ..v
                },
        ),
{
    match console {
        Some(c) => c.draw_line(x0, y0, x1, y1),
        None => {},
    }
}

/// Draws a rectangle on the screen.
pub fn draw_rect(
    console: &mut Option<Console>,
    x: usize,
    y: usize,
    width: usize,
    height: usize,
    filled: bool,
)
    requires
        screen_ok(*old(console)),
    ensures
        screen_ok(*final(console)),
        screen_view(*final(console)) == on_screen(
            screen_view(*old(console)),
            |v: ConsoleView|
                ConsoleView {
                    fb: rect_drawn(
                        v.fb,
                        v.info,
                        x as int,
                        y as int,
                        width as int,
                        height as int,
                        filled,
                    ),
                    ..v
                },
        ),
{
    match console {
        Some(c) => c.draw_rect(x, y, width, height, filled),
        None => {},
    }
}

/// A line begins and ends at the two pixels that it is drawn between.
pub proof fn law_line_joins_its_ends(x0: int, y0: int, x1: int, y1: int)
    ensures
        line_point(x0, y0, x1, y1, 0) == (x0, y0),
        line_point(x0, y0, x1, y1, line_steps(x0, y0, x1, y1)) == (x1, y1),
{
    let ex = abs(x1 - x0);
    let ey = abs(y1 - y0);
    if ex >= ey && ex > 0 {
        assert(ey * ex - ex * ey == 0) by (nonlinear_arith);
        lemma_rounded(ey, ex * ey, ex);
    }
    if ex < ey {
        assert(ex * ey - ey * ex == 0) by (nonlinear_arith);
        lemma_rounded(ex, ey * ex, ey);
    }
}

/// Rounding grows with the number rounded, and by no more than it.
proof fn lemma_rounded_steps(k: int, e: int, d: int)
    requires
        0 <= k,
        0 <= e <= d,
        0 < d,
    ensures
        0 <= rounded(k * e, d),
        rounded(k * e, d) <= rounded((k + 1) * e, d) <= rounded(k * e, d) + 1,
        k <= d ==> rounded(k * e, d) <= e,
{
    let q = 2 * (k * e) + d;
    let b = q / (2 * d);
    let r = q % (2 * d);
    assert(k * e >= 0) by (nonlinear_arith)
        requires
            0 <= k,
            0 <= e,
    ;
    assert((k + 1) * e == k * e + e) by (nonlinear_arith);
    let q2 = 2 * ((k + 1) * e) + d;
    assert(q2 == q + 2 * e);
    lemma_fundamental_div_mod(q, 2 * d);
    assert(0 <= r < 2 * d);
    assert(b >= 0) by (nonlinear_arith)
        requires
            q == (2 * d) * b + r,
            q >= 0,
            0 <= r < 2 * d,
            d > 0,
    ;
    if r + 2 * e < 2 * d {
        assert(b * (2 * d) == (2 * d) * b) by (nonlinear_arith);
        lemma_fundamental_div_mod_converse(q2, 2 * d, b, r + 2 * e);
    } else {
        assert((b + 1) * (2 * d) == (2 * d) * b + 2 * d) by (nonlinear_arith);
        lemma_fundamental_div_mod_converse(q2, 2 * d, b + 1, r + 2 * e - 2 * d);
    }
    if k <= d && b > e {
        assert((2 * d) * b >= (2 * d) * e + 2 * d) by (nonlinear_arith)
            requires
                b >= e + 1,
                d > 0,
        ;
        assert(2 * (k * e) <= (2 * d) * e) by (nonlinear_arith)
            requires
                k <= d,
                0 <= e,
        ;
    }
}

/// Two neighbouring points of a line are neighbouring pixels, and all of them lie
/// between its ends.
pub proof fn law_line_has_no_gaps(x0: int, y0: int, x1: int, y1: int, k: int)
    requires
        0 <= k < line_steps(x0, y0, x1, y1),
    ensures
        ({
            let p = line_point(x0, y0, x1, y1, k);
            let q = line_point(x0, y0, x1, y1, k + 1);
            &&& abs(q.0 - p.0) <= 1
            &&& abs(q.1 - p.1) <= 1
            &&& p != q
            &&& x0 <= p.0 <= x1 || x1 <= p.0 <= x0
            &&& y0 <= p.1 <= y1 || y1 <= p.1 <= y0
        }),
{
    let ex = abs(x1 - x0);
    let ey = abs(y1 - y0);
    if ex >= ey {
        lemma_rounded_steps(k, ey, ex);
        lemma_rounded_zero(ex);
        assert(0 * ey == 0);
    } else {
        lemma_rounded_steps(k, ex, ey);
        lemma_rounded_zero(ey);
        assert(0 * ex == 0);
    }
}

pub proof fn lemma_rounded_zero(d: int)
    requires
        0 < d,
    ensures
        rounded(0, d) == 0,
{
    assert(0 * d == 0) by (nonlinear_arith);
    lemma_rounded(0, 0, d);
}

/// Whether byte `b` of a framebuffer of `len` bytes belongs to the pixel at column `x` of
/// line `y`.
pub open spec fn pixel_byte(info: FrameBufferInfo, len: nat, x: int, y: int, b: int) -> bool {
    let off = (y * info.stride + x) * info.bytes_per_pixel;
    &&& off + info.bytes_per_pixel <= len
    &&& match info.pixel_format {
        PixelFormat::Rgb | PixelFormat::Bgr => off <= b < off + 3,
        PixelFormat::U8 => b == off,
        PixelFormat::Unknown => false,
    }
}

/// Whether byte `b` belongs to one of the first `k` pixels of a row from (`x`, `y`) on.
pub open spec fn row_byte(info: FrameBufferInfo, len: nat, x: int, y: int, k: nat, b: int) -> bool {
    exists|j: int| 0 <= j < k && #[trigger] pixel_byte(info, len, x + j, y, b)
}

/// Whether byte `b` belongs to one of the first `k` rows of the letter cell at (`x`, `y`).
pub open spec fn rows_byte(
    info: FrameBufferInfo,
    len: nat,
    x: int,
    y: int,
    k: nat,
    b: int,
) -> bool {
    exists|i: int|
        0 <= i < k && #[trigger] row_byte(info, len, x, y + i, CHAR_WIDTH as nat, b)
}

/// Whether byte `b` of the framebuffer belongs to the letter cell at the cursor.
pub open spec fn in_cell(c: ConsoleView, b: int) -> bool {
    rows_byte(c.info, c.fb.len(), c.x as int, c.y as int, CHAR_HEIGHT as nat, b)
}

/// Whether the letter cell at the cursor is dark.
pub open spec fn cell_is_dark(c: ConsoleView) -> bool {
    forall|b: int| 0 <= b < c.fb.len() && #[trigger] in_cell(c, b) ==> c.fb[b] == 0
}

/// Whether a letter fits at the cursor, so that it is drawn there.
pub open spec fn letter_fits(c: ConsoleView) -> bool {
    &&& info_ok(c.info)
    &&& BORDER_PADDING <= c.x
    &&& c.x + CHAR_WIDTH < c.info.width
    &&& c.y + CHAR_HEIGHT + BORDER_PADDING < c.info.height
}

pub proof fn lemma_pixel_byte(fb: Seq<u8>, info: FrameBufferInfo, x: int, y: int, v: u8, b: int)
    requires
        info_ok(info),
        0 <= x,
        0 <= y,
        0 <= b < fb.len(),
    ensures
        pixel_set(fb, info, x, y, v)[b] == (if pixel_byte(info, fb.len(), x, y, b) {
            v
        } else {
            fb[b]
        }),
{
    let off = (y * info.stride + x) * info.bytes_per_pixel;
    assert(off >= 0) by (nonlinear_arith)
        requires
            off == (y * info.stride + x) * info.bytes_per_pixel,
            0 <= x,
            0 <= y,
            0 <= info.stride,
            0 <= info.bytes_per_pixel,
    ;
}

/// A row changes the bytes of its pixels alone, and a dark one darkens them.
proof fn lemma_row_byte(
    fb: Seq<u8>,
    info: FrameBufferInfo,
    x: int,
    y: int,
    row: Seq<u8>,
    k: nat,
    b: int,
)
    requires
        info_ok(info),
        0 <= x,
        0 <= y,
        0 <= b < fb.len(),
    ensures
        !row_byte(info, fb.len(), x, y, k, b) ==> row_set(fb, info, x, y, row, k)[b] == fb[b],
        row_byte(info, fb.len(), x, y, k, b) && (forall|j: int| 0 <= j < k ==> row[j] == 0)
            ==> row_set(fb, info, x, y, row, k)[b] == 0,
    decreases k,
{
    if k > 0 {
        let before = row_set(fb, info, x, y, row, (k - 1) as nat);
        lemma_row_keeps_len(fb, info, x, y, row, (k - 1) as nat);
        lemma_row_byte(fb, info, x, y, row, (k - 1) as nat, b);
        lemma_pixel_byte(before, info, x + k - 1, y, row[k - 1], b);
        if !row_byte(info, fb.len(), x, y, k, b) {
            assert(!pixel_byte(info, fb.len(), x + (k - 1), y, b));
            if row_byte(info, fb.len(), x, y, (k - 1) as nat, b) {
                let j = choose|j: int|
                    0 <= j < k - 1 && #[trigger] pixel_byte(info, fb.len(), x + j, y, b);
                assert(pixel_byte(info, fb.len(), x + j, y, b));
            }
        } else if !pixel_byte(info, fb.len(), x + (k - 1), y, b) {
            let j = choose|j: int|
                0 <= j < k && #[trigger] pixel_byte(info, fb.len(), x + j, y, b);
            assert(j < k - 1);
            assert(row_byte(info, fb.len(), x, y, (k - 1) as nat, b));
        }
    }
}

/// A letter changes the bytes of its cell alone, and a dark one darkens them.
pub proof fn lemma_rows_byte(
    fb: Seq<u8>,
    info: FrameBufferInfo,
    x: int,
    y: int,
    rows: Seq<Seq<u8>>,
    k: nat,
    b: int,
)
    requires
        info_ok(info),
        0 <= x,
        0 <= y,
        0 <= b < fb.len(),
        forall|i: int| 0 <= i < k ==> (#[trigger] rows[i]).len() == CHAR_WIDTH,
    ensures
        !rows_byte(info, fb.len(), x, y, k, b) ==> rows_set(fb, info, x, y, rows, k)[b] == fb[b],
        rows_byte(info, fb.len(), x, y, k, b) && (forall|i: int, j: int|
            0 <= i < k && 0 <= j < CHAR_WIDTH ==> #[trigger] rows[i][j] == 0) ==> rows_set(
            fb,
            info,
            x,
            y,
            rows,
            k,
        )[b] == 0,
    decreases k,
{
    if k > 0 {
        let before = rows_set(fb, info, x, y, rows, (k - 1) as nat);
        let n = fb.len();
        let w = CHAR_WIDTH as nat;
        lemma_rows_keep_len(fb, info, x, y, rows, (k - 1) as nat);
        lemma_rows_byte(fb, info, x, y, rows, (k - 1) as nat, b);
        lemma_row_byte(before, info, x, y + k - 1, rows[k - 1], w, b);
        if !rows_byte(info, n, x, y, k, b) {
            assert(!row_byte(info, n, x, y + (k - 1), w, b));
            if rows_byte(info, n, x, y, (k - 1) as nat, b) {
                let i = choose|i: int|
                    0 <= i < k - 1 && #[trigger] row_byte(info, n, x, y + i, w, b);
                assert(row_byte(info, n, x, y + i, w, b));
            }
        } else if !row_byte(info, n, x, y + (k - 1), w, b) {
            let i = choose|i: int| 0 <= i < k && #[trigger] row_byte(info, n, x, y + i, w, b);
            assert(i < k - 1);
            assert(rows_byte(info, n, x, y, (k - 1) as nat, b));
        }
    }
}

/// A letter that fits on its line is taken back by a backspace: the cursor is where it
/// was, the letter's cell is dark, and nothing else has changed. Where the cell was dark
/// before, the screen is as it was.
pub proof fn law_backspace_takes_a_letter_back(c: ConsoleView, ch: char)
    requires
        letter_fits(c),
        ch != '\n',
        ch != '\r',
    ensures
        ({
            let r = backspaced(char_written(c, ch));
            &&& r.x == c.x
            &&& r.y == c.y
            &&& r.info == c.info
            &&& r.fb.len() == c.fb.len()
            &&& forall|b: int|
                0 <= b < c.fb.len() ==> #[trigger] r.fb[b] == (if in_cell(c, b) {
                    0u8
                } else {
                    c.fb[b]
                })
        }),
        cell_is_dark(c) ==> backspaced(char_written(c, ch)) == c,
{
    let drawn = char_written(c, ch);
    let r = backspaced(drawn);
    let letter = char_raster(ch);
    let blank = char_raster(' ');
    let x = c.x as int;
    let y = c.y as int;
    lemma_rows_keep_len(c.fb, c.info, x, y, letter, letter.len());
    lemma_rows_keep_len(drawn.fb, c.info, x, y, blank, blank.len());
    assert forall|b: int| 0 <= b < c.fb.len() implies #[trigger] r.fb[b] == (if in_cell(c, b) {
        0u8
    } else {
        c.fb[b]
    }) by {
        lemma_rows_byte(c.fb, c.info, x, y, letter, letter.len(), b);
        lemma_rows_byte(drawn.fb, c.info, x, y, blank, blank.len(), b);
    }
    if cell_is_dark(c) {
        assert(r.fb =~= c.fb);
    }
}

/// A backspace does not go back beyond the start of its line.
pub proof fn law_backspace_stays_on_its_line(c: ConsoleView)
    requires
        c.x < BORDER_PADDING + CHAR_WIDTH,
    ensures
        backspaced(c) == c,
{
}

/// Writing never changes the size or the layout of the framebuffer.
pub proof fn law_writing_keeps_the_frame(c: ConsoleView, ch: char)
    requires
        info_ok(c.info),
    ensures
        char_written(c, ch).fb.len() == c.fb.len(),
        char_written(c, ch).info == c.info,
        backspaced(c).fb.len() == c.fb.len(),
        backspaced(c).info == c.info,
{
    let w = with_room(c);
    let rows = char_raster(ch);
    lemma_rows_keep_len(w.fb, w.info, w.x as int, w.y as int, rows, rows.len());
    let blank = char_raster(' ');
    if c.x >= CHAR_WIDTH {
        lemma_rows_keep_len(c.fb, c.info, c.x - CHAR_WIDTH, c.y as int, blank, blank.len());
    }
}

pub proof fn lemma_pixel_keeps_len(fb: Seq<u8>, info: FrameBufferInfo, x: int, y: int, v: u8)
    requires
        info_ok(info),
        0 <= x,
        0 <= y,
    ensures
        pixel_set(fb, info, x, y, v).len() == fb.len(),
{
    let off = (y * info.stride + x) * info.bytes_per_pixel;
    assert(off >= 0) by (nonlinear_arith)
        requires
            off == (y * info.stride + x) * info.bytes_per_pixel,
            0 <= x,
            0 <= y,
            0 <= info.stride,
            0 <= info.bytes_per_pixel,
    ;
}

pub proof fn lemma_row_keeps_len(
    fb: Seq<u8>,
    info: FrameBufferInfo,
    x: int,
    y: int,
    row: Seq<u8>,
    k: nat,
)
    requires
        info_ok(info),
        0 <= x,
        0 <= y,
    ensures
        row_set(fb, info, x, y, row, k).len() == fb.len(),
    decreases k,
{
    if k > 0 {
        lemma_row_keeps_len(fb, info, x, y, row, (k - 1) as nat);
        lemma_pixel_keeps_len(
            row_set(fb, info, x, y, row, (k - 1) as nat),
            info,
            x + k - 1,
            y,
            row[k - 1],
        );
    }
}

pub proof fn lemma_rows_keep_len(
    fb: Seq<u8>,
    info: FrameBufferInfo,
    x: int,
    y: int,
    rows: Seq<Seq<u8>>,
    k: nat,
)
    requires
        info_ok(info),
        0 <= x,
        0 <= y,
    ensures
        rows_set(fb, info, x, y, rows, k).len() == fb.len(),
    decreases k,
{
    if k > 0 {
        lemma_rows_keep_len(fb, info, x, y, rows, (k - 1) as nat);
        lemma_row_keeps_len(
            rows_set(fb, info, x, y, rows, (k - 1) as nat),
            info,
            x,
            y + k - 1,
            rows[k - 1],
            rows[k - 1].len(),
        );
    }
}

/// A letter is drawn on the screen, or at the very start of a line or of the screen.
pub proof fn law_letter_starts_on_screen(c: ConsoleView)
    ensures
        with_room(c).x == BORDER_PADDING || with_room(c).x.wrapping_add(CHAR_WIDTH) < c.info.width,
        with_room(c).y == BORDER_PADDING || with_room(c).y.wrapping_add(CHAR_HEIGHT).wrapping_add(
            BORDER_PADDING,
        ) < c.info.height,
{
}

/// Writing two texts one after the other is writing them joined.
pub proof fn law_texts_run_on(c: ConsoleView, a: Seq<char>, b: Seq<char>)
    ensures
        text_written(text_written(c, a), b) == text_written(c, a + b),
    decreases b.len(),
{
    if b.len() == 0 {
        assert(a + b == a);
    } else {
        law_texts_run_on(c, a, b.drop_last());
        assert((a + b).drop_last() == a + b.drop_last());
        assert((a + b).last() == b.last());
    }
}

} // verus!
