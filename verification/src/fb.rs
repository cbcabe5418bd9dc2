use vstd::prelude::*;
use vstd::string::StringSliceAdditionalSpecFns;
use crate::font::{Font, glyph_index_spec, GLYPHS};
use crate::mailbox::Msg;

verus! {

/// Width of a character cell in pixels.
pub const CW: u32 = 8;

/// Height of a character cell in pixels.
pub const CH: u32 = 8;

/// Text colour: light grey (0x00RRGGBB).
pub const FG: u32 = 0x00E0_E0E0;

/// Background colour: black.
pub const BG: u32 = 0x0000_0000;

/// Turns the bus address that the GPU hands back into an ARM physical address.
pub const BUS_MASK: u32 = 0x3FFF_FFFF;

/// The model of the framebuffer console: whether it is up, its geometry as the
/// GPU reported it, the text cursor in pixels, the framebuffer memory as
/// bytes (`pitch` bytes per row), and the font it draws with. The pixel in
/// column `x` of row `y` is the little-endian 32-bit word at byte
/// `4 * (y * (pitch / 4) + x)`.
pub struct FbState {
    pub ready: bool,
    pub base: u32,
    pub width: u32,
    pub height: u32,
    pub pitch: u32,
    pub cx: u32,
    pub cy: u32,
    pub mem: Seq<u8>,
    pub font: Seq<[u8; 8]>,
}

/// A geometry that text can be drawn into without leaving the framebuffer
/// memory: rows of room for at least one character cell and for the visible
/// width, at least one text row, and a byte size `height * pitch` that fits
/// in 32 bits.
pub open spec fn drawable(width: u32, height: u32, pitch: u32) -> bool {
    &&& CW <= pitch / 4
    &&& width <= pitch / 4
    &&& CH <= height
    &&& height * pitch <= u32::MAX
}

impl FbState {
    /// Pixels per row of memory.
    pub open spec fn stride(self) -> int {
        (self.pitch / 4) as int
    }

    /// What every framebuffer satisfies: a full font, and once it is up a
    /// drawable geometry, `height * pitch` bytes of memory, and a cursor whose
    /// character cell lies in the memory: at the start of a row, or with the
    /// cell inside the visible width; on a row that fits on screen.
    pub open spec fn inv(self) -> bool {
        &&& self.font.len() == GLYPHS
        &&& self.ready ==> {
            &&& drawable(self.width, self.height, self.pitch)
            &&& self.mem.len() == self.height * self.pitch
            &&& (self.cx == 0 || self.cx + CW <= self.width)
            &&& self.cy + CH <= self.height
        }
    }
}

/// Byte `j` (0 = lowest) of the word `w`, in little-endian order.
pub open spec fn byte_of(w: u32, j: int) -> u8 {
    if j == 0 {
        (w & 0xFF) as u8
    } else if j == 1 {
        ((w >> 8u32) & 0xFF) as u8
    } else if j == 2 {
        ((w >> 16u32) & 0xFF) as u8
    } else {
        ((w >> 24u32) & 0xFF) as u8
    }
}

/// Colour of column `col` of a glyph row with bits `bits` (bit 7 leftmost).
pub open spec fn bit_color(bits: u8, col: u32) -> u32 {
    if bits & (0x80u8 >> col) != 0 {
        FG
    } else {
        BG
    }
}

/// `mem` with the 8x8 cell whose top-left pixel is `(px, py)` drawn from
/// glyph rows `rows`: set bits in the text colour, clear bits in the
/// background colour; rows of `stride` pixels.
pub open spec fn painted(mem: Seq<u8>, stride: int, rows: Seq<u8>, px: int, py: int) -> Seq<u8> {
    Seq::new(
        mem.len(),
        |i: int|
            {
                let k = i / 4;
                let row = k / stride - py;
                let col = k % stride - px;
                if 0 <= row < CH && 0 <= col < CW {
                    byte_of(bit_color(rows[row], col as u32), i % 4)
                } else {
                    mem[i]
                }
            },
    )
}

/// `mem` with the 8x8 cell whose top-left pixel is `(px, py)` filled with
/// the background colour; rows of `stride` pixels.
pub open spec fn erased(mem: Seq<u8>, stride: int, px: int, py: int) -> Seq<u8> {
    Seq::new(
        mem.len(),
        |i: int|
            {
                let k = i / 4;
                let row = k / stride - py;
                let col = k % stride - px;
                if 0 <= row < CH && 0 <= col < CW {
                    byte_of(BG, i % 4)
                } else {
                    mem[i]
                }
            },
    )
}

/// `mem` moved down to lower addresses by `shift` bytes, the freed bytes at
/// the end zero.
pub open spec fn scrolled(mem: Seq<u8>, shift: int) -> Seq<u8> {
    Seq::new(
        mem.len(),
        |i: int|
            if i + shift < mem.len() {
                mem[i + shift]
            } else {
                0
            },
    )
}

/// Moving to the start of the next text row: when that row would not fit,
/// the screen scrolls up one text row and the cursor stays on the last row.
pub open spec fn advance_spec(s: FbState) -> FbState {
    if s.cy + CH + CH > s.height {
        FbState { cx: 0, mem: scrolled(s.mem, CH * s.pitch), ..s }
    } else {
        FbState { cx: 0, cy: (s.cy + CH) as u32, ..s }
    }
}

/// One byte written to the framebuffer console. Nothing happens before the
/// framebuffer is up. Carriage return goes to the start of the row, line feed
/// to the next row; backspace and delete step back one cell, when there is
/// one, and erase it; a printable byte is drawn at the cursor, which then
/// moves right and wraps to the next row when the following cell would not
/// fit. Every other byte is ignored.
pub open spec fn putc_spec(s: FbState, c: u8) -> FbState {
    if !s.ready {
        s
    } else if c == 0x0D {
        FbState { cx: 0, ..s }
    } else if c == 0x0A {
        advance_spec(s)
    } else if c == 0x08 || c == 0x7F {
        if s.cx >= CW {
            FbState {
                cx: (s.cx - CW) as u32,
                mem: erased(s.mem, s.stride(), s.cx - CW, s.cy as int),
                ..s
            }
        } else {
            s
        }
    } else if 0x20 <= c <= 0x7E {
        let drawn = FbState {
            cx: (s.cx + CW) as u32,
            mem: painted(
                s.mem,
                s.stride(),
                s.font[glyph_index_spec(c)]@,
                s.cx as int,
                s.cy as int,
            ),
            ..s
        };
        if drawn.cx + CW > s.width {
            advance_spec(drawn)
        } else {
            drawn
        }
    } else {
        s
    }
}

/// Bytes written to the framebuffer console one after another.
pub open spec fn puts_spec(s: FbState, bytes: Seq<u8>) -> FbState
    decreases bytes.len(),
{
    if bytes.len() == 0 {
        s
    } else {
        putc_spec(puts_spec(s, bytes.drop_last()), bytes.last())
    }
}

/// Drawing byte `c` (the space glyph for a byte outside printable ASCII) into
/// the cell whose top-left pixel is `(px, py)`; the cursor does not move.
pub open spec fn draw_spec(s: FbState, c: u8, px: u32, py: u32) -> FbState {
    FbState {
        mem: painted(s.mem, s.stride(), s.font[glyph_index_spec(c)]@, px as int, py as int),
        ..s
    }
}

/// A framebuffer console that is not up yet, drawing with `font`.
pub open spec fn unready(font: Seq<[u8; 8]>) -> FbState {
    FbState {
        ready: false,
        base: 0,
        width: 0,
        height: 0,
        pitch: 0,
        cx: 0,
        cy: 0,
        mem: Seq::empty(),
        font,
    }
}

/// Clearing the screen: once the framebuffer is up, every byte of its memory
/// becomes zero (every pixel background) and the cursor goes to the top-left
/// corner.
pub open spec fn clear_spec(s: FbState) -> FbState {
    if !s.ready {
        s
    } else {
        FbState { cx: 0, cy: 0, mem: Seq::new(s.mem.len(), |i: int| 0u8), ..s }
    }
}

// ---------------------------------------------------------------------------
// Pixel arithmetic
// ---------------------------------------------------------------------------

/// The pixel in column `x < stride` of row `y` sits at word `y * stride + x`,
/// and that word lies inside `height` rows.
proof fn lemma_pixel_index(x: int, y: int, stride: int, height: int)
    requires
        0 <= x < stride,
        0 <= y < height,
    ensures
        (y * stride + x) / stride == y,
        (y * stride + x) % stride == x,
        0 <= y * stride + x < height * stride,
{
    vstd::arithmetic::div_mod::lemma_fundamental_div_mod_converse(y * stride + x, stride, y, x);
    assert(y * stride + x < height * stride) by (nonlinear_arith)
        requires
            0 <= x < stride,
            0 <= y < height,
    ;
    assert(0 <= y * stride) by (nonlinear_arith)
        requires
            0 <= x < stride,
            0 <= y,
    ;
}

/// Facts about a drawable geometry that keep the pixel arithmetic in range.
proof fn lemma_drawable_bounds(width: u32, height: u32, pitch: u32)
    requires
        drawable(width, height, pitch),
    ensures
        4 * (height * (pitch / 4)) <= height * pitch,
        height * pitch <= u32::MAX,
        height <= u32::MAX / 32,
        CH * pitch <= height * pitch,
{
    let stride = pitch / 4;
    assert(4 * stride <= pitch);
    assert(4 * (height * stride) <= height * pitch) by (nonlinear_arith)
        requires
            4 * stride <= pitch,
            0 <= stride,
    ;
    assert(32 <= pitch);
    assert(height * 32 <= height * pitch) by (nonlinear_arith)
        requires
            32 <= pitch,
    ;
    assert(CH * pitch <= height * pitch) by (nonlinear_arith)
        requires
            CH <= height,
    ;
}

/// `mem` with the word `k` (bytes `4k` to `4k + 3`) set to `w`.
spec fn put_word(mem: Seq<u8>, k: int, w: u32) -> Seq<u8> {
    Seq::new(
        mem.len(),
        |i: int|
            if i / 4 == k {
                byte_of(w, i % 4)
            } else {
                mem[i]
            },
    )
}

/// `painted` with only the first `n` pixels of the cell (row by row) drawn.
spec fn paint_upto(mem: Seq<u8>, stride: int, rows: Seq<u8>, px: int, py: int, n: int) -> Seq<u8> {
    Seq::new(
        mem.len(),
        |i: int|
            {
                let k = i / 4;
                let row = k / stride - py;
                let col = k % stride - px;
                if 0 <= row < CH && 0 <= col < CW && row * 8 + col < n {
                    byte_of(bit_color(rows[row], col as u32), i % 4)
                } else {
                    mem[i]
                }
            },
    )
}

/// Drawing pixel `row * 8 + col` of the cell extends the drawn part by one.
proof fn lemma_paint_step(
    mem: Seq<u8>,
    stride: int,
    height: int,
    rows: Seq<u8>,
    px: int,
    py: int,
    row: int,
    col: int,
)
    requires
        0 <= px,
        px + CW <= stride,
        0 <= py,
        py + CH <= height,
        4 * (height * stride) <= mem.len(),
        0 <= row < CH,
        0 <= col < CW,
    ensures
        0 <= (py + row) * stride + px + col < height * stride,
        put_word(
            paint_upto(mem, stride, rows, px, py, row * 8 + col),
            (py + row) * stride + px + col,
            bit_color(rows[row], col as u32),
        ) == paint_upto(mem, stride, rows, px, py, row * 8 + col + 1),
{
    let idx = (py + row) * stride + px + col;
    lemma_pixel_index(px + col, py + row, stride, height);
    let a = put_word(
        paint_upto(mem, stride, rows, px, py, row * 8 + col),
        idx,
        bit_color(rows[row], col as u32),
    );
    let b = paint_upto(mem, stride, rows, px, py, row * 8 + col + 1);
    assert forall|i: int| 0 <= i < mem.len() implies a[i] == b[i] by {
        let k = i / 4;
        if k != idx {
            vstd::arithmetic::div_mod::lemma_fundamental_div_mod(k, stride);
            let r = k / stride - py;
            let c = k % stride - px;
            if 0 <= r < CH && 0 <= c < CW && r * 8 + c == row * 8 + col {
                assert(r == row && c == col);
                assert(k == stride * (k / stride) + k % stride);
                assert(stride * (py + row) == (py + row) * stride) by (nonlinear_arith);
                assert(false);
            }
        }
    }
    assert(a =~= b);
}

/// Nothing of the cell drawn leaves the memory as it was; all of it is
/// `painted`.
proof fn lemma_paint_ends(mem: Seq<u8>, stride: int, rows: Seq<u8>, px: int, py: int)
    ensures
        paint_upto(mem, stride, rows, px, py, 0) == mem,
        paint_upto(mem, stride, rows, px, py, 64) == painted(mem, stride, rows, px, py),
{
    assert(paint_upto(mem, stride, rows, px, py, 0) =~= mem);
    assert(paint_upto(mem, stride, rows, px, py, 64) =~= painted(mem, stride, rows, px, py));
}

/// Drawing all-clear glyph rows erases the cell.
proof fn lemma_blank_paint(mem: Seq<u8>, stride: int, rows: Seq<u8>, px: int, py: int)
    requires
        rows.len() == 8,
        forall|r: int| 0 <= r < 8 ==> rows[r] == 0,
    ensures
        painted(mem, stride, rows, px, py) == erased(mem, stride, px, py),
{
    assert forall|col: u32| col < CW implies bit_color(0, col) == BG by {
        assert(0u8 & (0x80u8 >> col) == 0) by (bit_vector);
    }
    assert(painted(mem, stride, rows, px, py) =~= erased(mem, stride, px, py));
}

// ---------------------------------------------------------------------------
// The drawing engine
// ---------------------------------------------------------------------------

/// The framebuffer's state as the drawing code keeps it.
struct Screen {
    ready: bool,
    base: u32,
    width: u32,
    height: u32,
    pitch: u32,
    cx: u32,
    cy: u32,
    mem: Vec<u8>,
}

impl Screen {
    spec fn state(&self, font: Seq<[u8; 8]>) -> FbState {
        FbState {
            ready: self.ready,
            base: self.base,
            width: self.width,
            height: self.height,
            pitch: self.pitch,
            cx: self.cx,
            cy: self.cy,
            mem: self.mem@,
            font,
        }
    }

    spec fn stride(&self) -> int {
        (self.pitch / 4) as int
    }

    /// Up, with a drawable geometry and `height * pitch` bytes of memory.
    spec fn geometry_ok(&self) -> bool {
        &&& self.ready
        &&& drawable(self.width, self.height, self.pitch)
        &&& self.mem@.len() == self.height * self.pitch
    }

    /// Same state and geometry as `other`.
    spec fn same_geometry(&self, other: &Screen) -> bool {
        &&& self.ready == other.ready
        &&& self.base == other.base
        &&& self.width == other.width
        &&& self.height == other.height
        &&& self.pitch == other.pitch
    }

    /// Same geometry and cursor as `other`.
    spec fn same_frame(&self, other: &Screen) -> bool {
        &&& self.same_geometry(other)
        &&& self.cx == other.cx
        &&& self.cy == other.cy
    }

    fn blank() -> (s: Screen)
        ensures
            !s.ready,
            s.base == 0 && s.width == 0 && s.height == 0 && s.pitch == 0,
            s.cx == 0 && s.cy == 0,
            s.mem@.len() == 0,
    {
        Screen { ready: false, base: 0, width: 0, height: 0, pitch: 0, cx: 0, cy: 0, mem: Vec::new() }
    }

    /// Sets the pixel in column `x` of row `y` to `color`.
    fn pset(&mut self, x: u32, y: u32, color: u32)
        requires
            old(self).geometry_ok(),
            x < old(self).stride(),
            y < old(self).height,
        ensures
            final(self).same_frame(old(self)),
            final(self).mem@ == put_word(old(self).mem@, y * old(self).stride() + x, color),
    {
        proof {
            lemma_drawable_bounds(self.width, self.height, self.pitch);
            lemma_pixel_index(x as int, y as int, self.stride(), self.height as int);
        }
        let k = y * (self.pitch / 4) + x;
        let b = (4 * k) as usize;
        self.mem.set(b, (color & 0xFF) as u8);
        self.mem.set(b + 1, ((color >> 8u32) & 0xFF) as u8);
        self.mem.set(b + 2, ((color >> 16u32) & 0xFF) as u8);
        self.mem.set(b + 3, ((color >> 24u32) & 0xFF) as u8);
        assert(self.mem@ =~= put_word(old(self).mem@, k as int, color));
    }

    /// Draws glyph rows `rows` into the cell whose top-left pixel is `(px, py)`.
    fn paint(&mut self, rows: [u8; 8], px: u32, py: u32)
        requires
            old(self).geometry_ok(),
            px + CW <= old(self).stride(),
            py + CH <= old(self).height,
        ensures
            final(self).same_frame(old(self)),
            final(self).mem@ == painted(old(self).mem@, old(self).stride(), rows@, px as int, py as int),
    {
        let ghost start = self.mem@;
        let ghost stride = self.stride();
        proof {
            lemma_paint_ends(start, stride, rows@, px as int, py as int);
            lemma_drawable_bounds(self.width, self.height, self.pitch);
        }
        let mut row: u32 = 0;
        while row < CH
            invariant
                self.same_frame(old(self)),
                self.geometry_ok(),
                stride == self.stride(),
                px + CW <= self.stride(),
                py + CH <= self.height,
                row <= CH,
                4 * (self.height * stride) <= start.len(),
                self.mem@ == paint_upto(start, stride, rows@, px as int, py as int, row * 8),
            decreases CH - row,
        {
            let bits = rows[row as usize];
            let mut col: u32 = 0;
            while col < CW
                invariant
                    self.same_frame(old(self)),
                    self.geometry_ok(),
                    stride == self.stride(),
                    px + CW <= self.stride(),
                    py + CH <= self.height,
                    row < CH,
                    col <= CW,
                    bits == rows@[row as int],
                    4 * (self.height * stride) <= start.len(),
                    self.mem@ == paint_upto(start, stride, rows@, px as int, py as int, row * 8 + col),
                decreases CW - col,
            {
                let color = if bits & (0x80u8 >> col) != 0 {
                    FG
                } else {
                    BG
                };
                proof {
                    lemma_paint_step(
                        start,
                        stride,
                        self.height as int,
                        rows@,
                        px as int,
                        py as int,
                        row as int,
                        col as int,
                    );
                }
                self.pset(px + col, py + row, color);
                col += 1;
            }
            row += 1;
        }
    }
    /// Erases the cell whose top-left pixel is `(px, py)`.
    fn erase(&mut self, px: u32, py: u32)
        requires
            old(self).geometry_ok(),
            px + CW <= old(self).stride(),
            py + CH <= old(self).height,
        ensures
            final(self).same_frame(old(self)),
            final(self).mem@ == erased(old(self).mem@, old(self).stride(), px as int, py as int),
    {
        let blank = [0u8; 8];
        proof {
            lemma_blank_paint(self.mem@, self.stride(), blank@, px as int, py as int);
        }
        self.paint(blank, px, py);
    }

    /// Moves the picture up one text row and the cursor with it.
    fn scroll(&mut self)
        requires
            old(self).geometry_ok(),
            old(self).cy >= CH,
        ensures
            final(self).same_geometry(old(self)),
            final(self).cx == old(self).cx,
            final(self).cy == old(self).cy - CH,
            final(self).mem@ == scrolled(old(self).mem@, CH * old(self).pitch),
    {
        proof {
            lemma_drawable_bounds(self.width, self.height, self.pitch);
        }
        let ghost start = self.mem@;
        let shift = (CH * self.pitch) as usize;
        let total = self.mem.len();
        let keep = total - shift;
        let mut i: usize = 0;
        while i < keep
            invariant
                self.same_frame(old(self)),
                self.geometry_ok(),
                total == self.mem@.len(),
                total == start.len(),
                shift == CH * self.pitch,
                keep == total - shift,
                i <= keep,
                forall|j: int| 0 <= j < i ==> self.mem@[j] == start[j + shift],
                forall|j: int| i <= j < total ==> self.mem@[j] == start[j],
            decreases keep - i,
        {
            let v = self.mem[i + shift];
            self.mem.set(i, v);
            i += 1;
        }
        while i < total
            invariant
                self.same_frame(old(self)),
                self.geometry_ok(),
                total == self.mem@.len(),
                total == start.len(),
                shift == CH * self.pitch,
                keep == total - shift,
                keep <= i <= total,
                forall|j: int| 0 <= j < keep ==> self.mem@[j] == start[j + shift],
                forall|j: int| keep <= j < i ==> self.mem@[j] == 0,
            decreases total - i,
        {
            self.mem.set(i, 0);
            i += 1;
        }
        self.cy = self.cy - CH;
        assert(self.mem@ =~= scrolled(start, CH * self.pitch));
    }

    /// Moves the cursor to the start of the next text row, scrolling when the
    /// row would not fit.
    fn advance(&mut self)
        requires
            old(self).geometry_ok(),
            old(self).cy + CH <= old(self).height,
        ensures
            final(self).same_geometry(old(self)),
            final(self).cx == 0,
            old(self).cy + CH + CH > old(self).height ==> {
                &&& final(self).cy == old(self).cy
                &&& final(self).mem@ == scrolled(old(self).mem@, CH * old(self).pitch)
            },
            old(self).cy + CH + CH <= old(self).height ==> {
                &&& final(self).cy == old(self).cy + CH
                &&& final(self).mem@ == old(self).mem@
            },
    {
        proof {
            lemma_drawable_bounds(self.width, self.height, self.pitch);
        }
        self.cx = 0;
        self.cy = self.cy + CH;
        if self.cy + CH > self.height {
            self.scroll();
        }
    }

    /// Clears the memory to zero (the background colour) and homes the cursor.
    fn clear(&mut self)
        requires
            old(self).ready ==> old(self).geometry_ok(),
        ensures
            final(self).same_geometry(old(self)),
            !old(self).ready ==> final(self).same_frame(old(self)) && final(self).mem@ == old(
                self,
            ).mem@,
            old(self).ready ==> {
                &&& final(self).cx == 0
                &&& final(self).cy == 0
                &&& final(self).mem@ == Seq::new(old(self).mem@.len(), |i: int| 0u8)
            },
    {
        if !self.ready {
            return;
        }
        let total = self.mem.len();
        let mut i: usize = 0;
        while i < total
            invariant
                self.same_frame(old(self)),
                total == self.mem@.len(),
                total == old(self).mem@.len(),
                i <= total,
                forall|j: int| 0 <= j < i ==> self.mem@[j] == 0,
            decreases total - i,
        {
            self.mem.set(i, 0);
            i += 1;
        }
        self.cx = 0;
        self.cy = 0;
        assert(self.mem@ =~= Seq::new(old(self).mem@.len(), |i: int| 0u8));
    }

    /// Writes one byte to the console; see `putc_spec`.
    fn putc(&mut self, font: &Font, c: u8)
        requires
            old(self).state(font@).inv(),
        ensures
            final(self).state(font@) == putc_spec(old(self).state(font@), c),
    {
        let ghost s = self.state(font@);
        if !self.ready {
            return;
        }
        if c == 0x0D {
            self.cx = 0;
        } else if c == 0x0A {
            self.advance();
            assert(self.state(font@) =~= advance_spec(s));
        } else if c == 0x08 || c == 0x7F {
            if self.cx >= CW {
                self.cx = self.cx - CW;
                self.erase(self.cx, self.cy);
            }
        } else if 0x20 <= c && c <= 0x7E {
            let g = font.glyph(c);
            self.paint(g, self.cx, self.cy);
            self.cx = self.cx + CW;
            let ghost drawn = self.state(font@);
            if self.cx + CW > self.width {
                self.advance();
                assert(self.state(font@) =~= advance_spec(drawn));
            }
        }
    }
}


// ---------------------------------------------------------------------------
// Laws of the console model
// ---------------------------------------------------------------------------

/// Writing a byte keeps the framebuffer consistent: the cursor's character
/// cell stays on screen and the memory keeps its size.
pub proof fn lemma_putc_keeps_inv(s: FbState, c: u8)
    requires
        s.inv(),
    ensures
        putc_spec(s, c).inv(),
        putc_spec(s, c).mem.len() == s.mem.len(),
        putc_spec(s, c).ready == s.ready,
        putc_spec(s, c).font == s.font,
{
}

/// Writing any bytes keeps the framebuffer consistent.
pub proof fn lemma_puts_keeps_inv(s: FbState, bytes: Seq<u8>)
    requires
        s.inv(),
    ensures
        puts_spec(s, bytes).inv(),
        puts_spec(s, bytes).mem.len() == s.mem.len(),
        puts_spec(s, bytes).ready == s.ready,
        puts_spec(s, bytes).font == s.font,
    decreases bytes.len(),
{
    if bytes.len() > 0 {
        lemma_puts_keeps_inv(s, bytes.drop_last());
        lemma_putc_keeps_inv(puts_spec(s, bytes.drop_last()), bytes.last());
    }
}

/// Bytes outside ASCII draw nothing and leave the cursor where it was.
pub proof fn lemma_non_ascii_ignored(s: FbState, c: u8)
    requires
        c >= 0x80,
    ensures
        putc_spec(s, c) == s,
{
}

/// Writing `a` and then `b` is writing `a + b`.
pub proof fn lemma_puts_concat(s: FbState, a: Seq<u8>, b: Seq<u8>)
    ensures
        puts_spec(puts_spec(s, a), b) == puts_spec(s, a + b),
    decreases b.len(),
{
    if b.len() == 0 {
        assert(a + b =~= a);
    } else {
        lemma_puts_concat(s, a, b.drop_last());
        assert((a + b).drop_last() =~= a + b.drop_last());
    }
}

/// Before the framebuffer is up nothing written to it has any effect.
pub proof fn lemma_puts_not_ready(s: FbState, bytes: Seq<u8>)
    requires
        !s.ready,
    ensures
        puts_spec(s, bytes) == s,
    decreases bytes.len(),
{
    if bytes.len() > 0 {
        lemma_puts_not_ready(s, bytes.drop_last());
    }
}

/// Backspace after a printable byte that did not wrap the line removes it:
/// the cursor is back and its cell holds only background.
pub proof fn lemma_backspace_erases(s: FbState, c: u8)
    requires
        s.inv(),
        s.ready,
        0x20 <= c <= 0x7E,
        s.cx + CW + CW <= s.width,
    ensures
        putc_spec(putc_spec(s, c), 0x08).cx == s.cx,
        putc_spec(putc_spec(s, c), 0x08).cy == s.cy,
        putc_spec(putc_spec(s, c), 0x08).mem == erased(
            s.mem,
            s.stride(),
            s.cx as int,
            s.cy as int,
        ),
{
    let t = putc_spec(s, c);
    let stride = s.stride();
    assert(erased(t.mem, stride, s.cx as int, s.cy as int) =~= erased(
        s.mem,
        stride,
        s.cx as int,
        s.cy as int,
    ));
}

// ---------------------------------------------------------------------------
// The framebuffer console
// ---------------------------------------------------------------------------

/// The HDMI framebuffer console: its geometry once the GPU has allocated it,
/// the text cursor, the framebuffer memory and the font.
pub struct Framebuffer {
    font: Font,
    screen: Screen,
}

impl View for Framebuffer {
    type V = FbState;

    closed spec fn view(&self) -> FbState {
        self.screen.state(self.font@)
    }
}

impl Framebuffer {
    #[verifier::type_invariant]
    spec fn consistent(self) -> bool {
        self.screen.state(self.font@).inv()
    }

    /// A framebuffer that is not up yet, drawing with `font`.
    pub fn new(font: Font) -> (fb: Framebuffer)
        ensures
            fb@ == unready(font@),
            fb@.inv(),
    {
        proof {
            use_type_invariant(&font);
        }
        let fb = Framebuffer { font, screen: Screen::blank() };
        assert(fb@.mem =~= Seq::empty());
        fb
    }
}

/// Whether the framebuffer is up.
pub fn is_ready(fb: &Framebuffer) -> (r: bool)
    ensures
        r == fb@.ready,
        fb@.inv(),
{
    proof {
        use_type_invariant(fb);
    }
    fb.screen.ready
}

/// Clears the screen to black and homes the cursor; nothing happens before
/// the framebuffer is up.
pub fn clear(fb: &mut Framebuffer)
    ensures
        final(fb)@ == clear_spec(old(fb)@),
        final(fb)@.inv(),
{
    proof {
        use_type_invariant(&*fb);
    }
    let mut screen = Screen::blank();
    core::mem::swap(&mut screen, &mut fb.screen);
    screen.clear();
    assert(screen.state(fb.font@) =~= clear_spec(old(fb)@));
    fb.screen = screen;
}

/// Draws byte `c` (the space glyph for a byte outside printable ASCII) into
/// the cell whose top-left pixel is `(px, py)`; the cursor does not move.
pub fn draw_char(fb: &mut Framebuffer, c: u8, px: u32, py: u32)
    requires
        old(fb)@.ready,
        px + CW <= old(fb)@.stride(),
        py + CH <= old(fb)@.height,
    ensures
        final(fb)@ == draw_spec(old(fb)@, c, px, py),
        final(fb)@.inv(),
{
    proof {
        use_type_invariant(&*fb);
    }
    let mut screen = Screen::blank();
    core::mem::swap(&mut screen, &mut fb.screen);
    let g = fb.font.glyph(c);
    screen.paint(g, px, py);
    fb.screen = screen;
}

/// Writes one byte to the framebuffer console; see `putc_spec`.
pub fn putc(fb: &mut Framebuffer, c: u8)
    ensures
        final(fb)@ == putc_spec(old(fb)@, c),
        final(fb)@.inv(),
{
    proof {
        use_type_invariant(&*fb);
        lemma_putc_keeps_inv(fb@, c);
    }
    let mut screen = Screen::blank();
    core::mem::swap(&mut screen, &mut fb.screen);
    screen.putc(&fb.font, c);
    fb.screen = screen;
}

/// Writes bytes to the framebuffer console, skipping bytes outside ASCII
/// (such as the parts of a multi-byte UTF-8 character).
pub fn put_bytes(fb: &mut Framebuffer, bytes: &[u8])
    ensures
        final(fb)@ == puts_spec(old(fb)@, bytes@),
        final(fb)@.inv(),
{
    proof {
        use_type_invariant(&*fb);
    }
    let mut i: usize = 0;
    while i < bytes.len()
        invariant
            i <= bytes@.len(),
            fb@ == puts_spec(old(fb)@, bytes@.take(i as int)),
            fb@.inv(),
        decreases bytes@.len() - i,
    {
        let b = bytes[i];
        proof {
            assert(bytes@.take(i as int + 1).drop_last() =~= bytes@.take(i as int));
        }
        if b < 0x80 {
            putc(fb, b);
        } else {
            proof {
                lemma_non_ascii_ignored(fb@, b);
            }
        }
        i += 1;
    }
    assert(bytes@.take(bytes@.len() as int) =~= bytes@);
}

/// Writes a string to the framebuffer console, skipping bytes outside ASCII.
pub fn puts(fb: &mut Framebuffer, s: &str)
    ensures
        final(fb)@ == puts_spec(old(fb)@, s.spec_bytes()),
        final(fb)@.inv(),
{
    put_bytes(fb, s.as_bytes());
}

/// The physical address of the framebuffer memory that the GPU allocated.
pub fn base(fb: &Framebuffer) -> (b: u32)
    ensures
        b == fb@.base,
{
    fb.screen.base
}

/// The text cursor, in pixels from the top-left corner.
pub fn cursor(fb: &Framebuffer) -> (c: (u32, u32))
    ensures
        c == (fb@.cx, fb@.cy),
{
    (fb.screen.cx, fb.screen.cy)
}

/// The framebuffer memory, `pitch` bytes per row; see `FbState`.
pub fn memory(fb: &Framebuffer) -> (m: &[u8])
    ensures
        m@ == fb@.mem,
{
    fb.screen.mem.as_slice()
}

// ---------------------------------------------------------------------------
// Bringing the framebuffer up through the mailbox
// ---------------------------------------------------------------------------

/// The property message that asks the GPU for a 1024x768, 32 bits per pixel,
/// RGB framebuffer with no offset, allocated at 4096-byte alignment, and for
/// its pitch. The GPU answers in the same words: the allocated bus address in
/// word 28 and the pitch in word 33.
pub open spec fn request_words() -> Seq<u32> {
    seq![
        140, 0,
        0x0004_8003, 8, 0, 1024, 768,
        0x0004_8004, 8, 0, 1024, 768,
        0x0004_8009, 8, 0, 0, 0,
        0x0004_8005, 4, 0, 32,
        0x0004_8006, 4, 0, 1,
        0x0004_0001, 8, 0, 4096, 0,
        0x0004_0008, 4, 0, 0,
        0, 0,
    ]
}

/// The framebuffer request; see `request_words`.
pub fn request() -> (m: Msg)
    ensures
        m.0@ == request_words(),
{
    let m = Msg(
        [
            140, 0,
            0x0004_8003, 8, 0, 1024, 768,
            0x0004_8004, 8, 0, 1024, 768,
            0x0004_8009, 8, 0, 0, 0,
            0x0004_8005, 4, 0, 32,
            0x0004_8006, 4, 0, 1,
            0x0004_0001, 8, 0, 4096, 0,
            0x0004_0008, 4, 0, 0,
            0, 0,
        ],
    );
    assert(m.0@ =~= request_words());
    m
}

/// Whether a reply brings the framebuffer up: the GPU acknowledged the
/// request, and both the allocated address (as an ARM address) and the pitch
/// are non-zero.
pub open spec fn reply_accepted(reply: Seq<u32>, acknowledged: bool) -> bool {
    &&& acknowledged
    &&& reply[28] & BUS_MASK != 0
    &&& reply[33] != 0
}

/// Whether the geometry in a reply can be drawn into (see `drawable`): width
/// in word 5, height in word 6, pitch in word 33. Where it cannot, drawing
/// would write outside the framebuffer memory.
pub open spec fn reply_drawable(reply: Seq<u32>) -> bool {
    drawable(reply[5], reply[6], reply[33])
}

/// Bringing the framebuffer up from `reply`: when the reply is accepted, the
/// reply's geometry and address, the cursor in the top-left corner and
/// `height * pitch` bytes of memory, zero (black); otherwise no change.
pub open spec fn init_spec(s: FbState, reply: Seq<u32>, acknowledged: bool) -> FbState {
    if reply_accepted(reply, acknowledged) {
        FbState {
            ready: true,
            base: reply[28] & BUS_MASK,
            width: reply[5],
            height: reply[6],
            pitch: reply[33],
            cx: 0,
            cy: 0,
            mem: Seq::new((reply[6] * reply[33]) as nat, |i: int| 0u8),
            font: s.font,
        }
    } else {
        s
    }
}

/// An operation on the framebuffer console, as the public functions perform
/// it (`puts` and `put_bytes` are `putc` byte by byte).
pub enum FbOp {
    Init(Seq<u32>, bool),
    Putc(u8),
    Clear,
    DrawChar(u8, u32, u32),
}

/// What an operation does; see `init`, `putc`, `clear` and `draw_char`.
pub open spec fn apply_op(s: FbState, op: FbOp) -> FbState {
    match op {
        FbOp::Init(reply, acknowledged) => init_spec(s, reply, acknowledged),
        FbOp::Putc(c) => putc_spec(s, c),
        FbOp::Clear => clear_spec(s),
        FbOp::DrawChar(c, px, py) => draw_spec(s, c, px, py),
    }
}

/// Operations performed one after another.
pub open spec fn run_ops(s: FbState, ops: Seq<FbOp>) -> FbState
    decreases ops.len(),
{
    if ops.len() == 0 {
        s
    } else {
        apply_op(run_ops(s, ops.drop_last()), ops.last())
    }
}

/// Whether an operation is an `init` whose reply brings the framebuffer up.
pub open spec fn brings_up(op: FbOp) -> bool {
    op matches FbOp::Init(reply, acknowledged) && reply_accepted(reply, acknowledged)
}

/// Only `init` changes whether the framebuffer is up, and it never takes it
/// down: after any operations it is up exactly when it was up before or one
/// of them was an `init` with an accepted reply.
pub proof fn lemma_ready_after_ops(s: FbState, ops: Seq<FbOp>)
    ensures
        run_ops(s, ops).ready <==> (s.ready || exists|i: int|
            0 <= i < ops.len() && #[trigger] brings_up(ops[i])),
    decreases ops.len(),
{
    if ops.len() > 0 {
        let init = ops.drop_last();
        lemma_ready_after_ops(s, init);
        let before = run_ops(s, init);
        if brings_up(ops.last()) {
            assert(brings_up(ops[ops.len() - 1]));
        } else {
            assert(apply_op(before, ops.last()).ready == before.ready);
            if exists|i: int| 0 <= i < ops.len() && #[trigger] brings_up(ops[i]) {
                let i = choose|i: int| 0 <= i < ops.len() && #[trigger] brings_up(ops[i]);
                assert(i < ops.len() - 1);
                assert(init[i] == ops[i]);
            }
            if exists|i: int| 0 <= i < init.len() && #[trigger] brings_up(init[i]) {
                let i = choose|i: int| 0 <= i < init.len() && #[trigger] brings_up(init[i]);
                assert(init[i] == ops[i]);
            }
        }
    }
}

/// A framebuffer is up exactly when some `init` has brought it up.
pub proof fn lemma_ready_iff_brought_up(font: Seq<[u8; 8]>, ops: Seq<FbOp>)
    ensures
        run_ops(unready(font), ops).ready <==> exists|i: int|
            0 <= i < ops.len() && #[trigger] brings_up(ops[i]),
{
    lemma_ready_after_ops(unready(font), ops);
}

/// Whether the geometry in `reply` can be drawn into; see `reply_drawable`.
pub fn reply_is_drawable(reply: &Msg) -> (r: bool)
    ensures
        r == reply_drawable(reply.0@),
{
    let width = reply.0[5];
    let height = reply.0[6];
    let pitch = reply.0[33];
    proof {
        assert((height as int) * (pitch as int) <= (u32::MAX as int) * (u32::MAX as int))
            by (nonlinear_arith)
            requires
                height <= u32::MAX,
                pitch <= u32::MAX,
        ;
    }
    CW <= pitch / 4 && width <= pitch / 4 && CH <= height && (height as u64) * (pitch as u64)
        <= u32::MAX as u64
}

/// Brings the framebuffer up from the GPU's reply to `request()`, where
/// `acknowledged` says whether the GPU acknowledged it. Returns whether it is
/// up: then it has the reply's geometry and address, the cursor in the
/// top-left corner and `height * pitch` bytes of memory, zero (black);
/// otherwise nothing changes.
///
/// An accepted reply must describe a geometry that can be drawn into (see
/// `reply_drawable`; callers test it with `reply_is_drawable`). On any other
/// geometry the framebuffer would come up, but every later draw, scroll or
/// clear would write outside its memory: a width beyond the row puts the
/// last row's cells past the end, a height below one text row makes the
/// scroll size negative, and a size `height * pitch` beyond 32 bits wraps.
/// There is no defined outcome to state for such a framebuffer, so those
/// replies are left out rather than given a made-up one.
pub fn init(fb: &mut Framebuffer, reply: &Msg, acknowledged: bool) -> (ok: bool)
    requires
        reply_accepted(reply.0@, acknowledged) ==> reply_drawable(reply.0@),
    ensures
        ok == reply_accepted(reply.0@, acknowledged),
        final(fb)@ == init_spec(old(fb)@, reply.0@, acknowledged),
        final(fb)@.inv(),
{
    proof {
        use_type_invariant(&*fb);
    }
    if !acknowledged {
        return false;
    }
    let base = reply.0[28] & BUS_MASK;
    if base == 0 || reply.0[33] == 0 {
        return false;
    }
    let width = reply.0[5];
    let height = reply.0[6];
    let pitch = reply.0[33];
    proof {
        lemma_drawable_bounds(width, height, pitch);
    }
    let bytes = (height * pitch) as usize;
    let mem = vec![0u8; bytes];
    let screen = Screen { ready: true, base, width, height, pitch, cx: 0, cy: 0, mem };
    assert(screen.mem@ =~= Seq::new((height * pitch) as nat, |i: int| 0u8));
    fb.screen = screen;
    true
}

// ---------------------------------------------------------------------------
// What each operation does
// ---------------------------------------------------------------------------

/// An accepted reply brings the framebuffer up at the reply's bus address
/// with only its top two bits (30 and 31) cleared, with the reply's width,
/// height and pitch, the cursor home and `height * pitch` zero bytes; the
/// reply is accepted exactly when the GPU acknowledged it and both that
/// address and the pitch are non-zero. Any other reply changes nothing.
pub proof fn lemma_init(s: FbState, reply: Seq<u32>, acknowledged: bool)
    ensures
        reply_accepted(reply, acknowledged) <==> (acknowledged && reply[28] & 0x3FFF_FFFF != 0
            && reply[33] != 0),
        reply_accepted(reply, acknowledged) ==> ({
            let t = init_spec(s, reply, acknowledged);
            &&& t.ready
            &&& t.base == reply[28] & 0x3FFF_FFFFu32
            &&& t.base < 0x4000_0000
            &&& t.base | (reply[28] & 0xC000_0000u32) == reply[28]
            &&& t.width == reply[5]
            &&& t.height == reply[6]
            &&& t.pitch == reply[33]
            &&& t.cx == 0
            &&& t.cy == 0
            &&& t.mem.len() == reply[6] * reply[33]
            &&& forall|i: int| 0 <= i < t.mem.len() ==> t.mem[i] == 0
            &&& t.font == s.font
        }),
        !reply_accepted(reply, acknowledged) ==> init_spec(s, reply, acknowledged) == s,
{
    let w = reply[28];
    assert(w & 0x3FFF_FFFFu32 < 0x4000_0000 && (w & 0x3FFF_FFFFu32) | (w & 0xC000_0000u32) == w)
        by (bit_vector);
}

/// Drawing a character paints the glyph of its byte (byte `c` has glyph
/// `c - 0x20`, other bytes the space glyph) into the cell at `(px, py)`, and
/// moves nothing.
pub proof fn lemma_draw(s: FbState, c: u8, px: u32, py: u32)
    ensures
        GLYPHS == 95,
        draw_spec(s, c, px, py).mem == painted(
            s.mem,
            s.stride(),
            s.font[if 0x20 <= c <= 0x7E {
                c - 0x20
            } else {
                0
            }]@,
            px as int,
            py as int,
        ),
        draw_spec(s, c, px, py) == (FbState { mem: draw_spec(s, c, px, py).mem, ..s }),
{
}

/// In a painted cell, the pixel in column `px + col` of row `py + row` (the
/// four bytes at `4 * ((py + row) * stride + px + col)`, lowest first) holds
/// the text colour where bit `7 - col` of glyph row `row` is set and the
/// background colour where it is clear; the memory keeps its size.
pub proof fn lemma_painted_pixels(
    mem: Seq<u8>,
    stride: int,
    height: int,
    rows: Seq<u8>,
    px: int,
    py: int,
    row: int,
    col: int,
    j: int,
)
    requires
        0 <= px,
        px + CW <= stride,
        0 <= py,
        py + CH <= height,
        4 * (height * stride) <= mem.len(),
        0 <= row < CH,
        0 <= col < CW,
        0 <= j < 4,
    ensures
        painted(mem, stride, rows, px, py).len() == mem.len(),
        painted(mem, stride, rows, px, py)[4 * ((py + row) * stride + px + col) + j] == byte_of(
            if rows[row] & (0x80u8 >> (col as u32)) != 0 {
                0x00E0_E0E0u32
            } else {
                0u32
            },
            j,
        ),
{
    let k = (py + row) * stride + px + col;
    lemma_pixel_index(px + col, py + row, stride, height);
    vstd::arithmetic::div_mod::lemma_fundamental_div_mod_converse(4 * k + j, 4, k, j);
}

/// Carriage return moves the cursor to the start of its row; nothing else
/// changes.
pub proof fn lemma_putc_return(s: FbState)
    requires
        s.ready,
    ensures
        putc_spec(s, 0x0D) == (FbState { cx: 0, ..s }),
{
}

/// Line feed moves the cursor to the start of the next row. When that row
/// does not fit, the memory moves up by one text row (`8 * pitch` bytes),
/// the freed bytes become zero and the cursor stays on the last row.
pub proof fn lemma_putc_line_feed(s: FbState)
    requires
        s.ready,
    ensures
        ({
            let t = putc_spec(s, 0x0A);
            let shift = 8 * s.pitch;
            &&& t.cx == 0
            &&& s.cy + 16 <= s.height ==> t.cy == s.cy + 8 && t.mem == s.mem
            &&& s.cy + 16 > s.height ==> {
                &&& t.cy == s.cy
                &&& t.mem.len() == s.mem.len()
                &&& forall|i: int|
                    0 <= i < s.mem.len() ==> #[trigger] t.mem[i] == if i + shift < s.mem.len() {
                        s.mem[i + shift]
                    } else {
                        0
                    }
            }
            &&& t == (FbState { cx: t.cx, cy: t.cy, mem: t.mem, ..s })
        }),
{
}

/// A printable byte is drawn at the cursor exactly as `draw_char` draws it
/// there, with the glyph of that byte (glyph `c - 0x20`). The cursor then
/// moves one cell right, or to the start of the next row when the following
/// cell would not fit in the width; when that row does not fit either, the
/// memory moves up by one text row and the cursor stays on the last row.
pub proof fn lemma_putc_printable(s: FbState, c: u8)
    requires
        s.inv(),
        s.ready,
        0x20 <= c <= 0x7E,
    ensures
        ({
            let t = putc_spec(s, c);
            let drawn = painted(s.mem, s.stride(), s.font[c - 0x20]@, s.cx as int, s.cy as int);
            let shift = 8 * s.pitch;
            &&& drawn == draw_spec(s, c, s.cx, s.cy).mem
            &&& s.cx + 16 <= s.width ==> t.cx == s.cx + 8 && t.cy == s.cy && t.mem == drawn
            &&& s.cx + 16 > s.width && s.cy + 16 <= s.height ==> t.cx == 0 && t.cy == s.cy + 8
                && t.mem == drawn
            &&& s.cx + 16 > s.width && s.cy + 16 > s.height ==> {
                &&& t.cx == 0
                &&& t.cy == s.cy
                &&& t.mem.len() == s.mem.len()
                &&& forall|i: int|
                    0 <= i < s.mem.len() ==> #[trigger] t.mem[i] == if i + shift < s.mem.len() {
                        drawn[i + shift]
                    } else {
                        0
                    }
            }
            &&& t == (FbState { cx: t.cx, cy: t.cy, mem: t.mem, ..s })
        }),
{
}

/// Backspace or delete moves the cursor one cell left and fills that cell
/// with the background colour; at the start of a row it does nothing.
pub proof fn lemma_putc_erase(s: FbState, c: u8)
    requires
        s.ready,
        c == 0x08 || c == 0x7F,
    ensures
        s.cx >= 8 ==> putc_spec(s, c) == (FbState {
            cx: (s.cx - 8) as u32,
            mem: erased(s.mem, s.stride(), s.cx - 8, s.cy as int),
            ..s
        }),
        s.cx < 8 ==> putc_spec(s, c) == s,
{
}

/// Any other byte, and any byte before the framebuffer is up, changes
/// nothing.
pub proof fn lemma_putc_ignored(s: FbState, c: u8)
    requires
        !s.ready || ((c < 0x20 || c > 0x7E) && c != 0x0D && c != 0x0A && c != 0x08 && c != 0x7F),
    ensures
        putc_spec(s, c) == s,
{
}

/// Clearing a framebuffer that is up makes every byte of its memory zero and
/// homes the cursor; one that is not up is left as it is.
pub proof fn lemma_clear(s: FbState)
    ensures
        s.ready ==> ({
            let t = clear_spec(s);
            &&& t.mem.len() == s.mem.len()
            &&& forall|i: int| 0 <= i < t.mem.len() ==> t.mem[i] == 0
            &&& t == (FbState { cx: 0, cy: 0, mem: t.mem, ..s })
        }),
        !s.ready ==> clear_spec(s) == s,
{
}

/// The four bytes of a pixel are its colour lowest byte first: together
/// they make up the colour again.
pub proof fn lemma_byte_of(w: u32)
    ensures
        byte_of(w, 0) + 0x100 * byte_of(w, 1) + 0x1_0000 * byte_of(w, 2) + 0x100_0000 * byte_of(w, 3)
            == w,
{
    let b0 = (w & 0xFF) as u8;
    let b1 = ((w >> 8u32) & 0xFF) as u8;
    let b2 = ((w >> 16u32) & 0xFF) as u8;
    let b3 = ((w >> 24u32) & 0xFF) as u8;
    assert(b0 as u32 + 0x100u32 * b1 as u32 + 0x1_0000u32 * b2 as u32 + 0x100_0000u32 * b3 as u32
        == w) by (bit_vector)
        requires
            b0 == (w & 0xFF) as u8,
            b1 == ((w >> 8u32) & 0xFF) as u8,
            b2 == ((w >> 16u32) & 0xFF) as u8,
            b3 == ((w >> 24u32) & 0xFF) as u8,
    ;
}

/// The framebuffer request, word by word: 140 bytes long, a request; physical
/// and virtual size 1024x768, offset 0,0, depth 32, pixel order 1 (RGB),
/// allocation at 4096-byte alignment, and the pitch; then the end tag.
pub proof fn lemma_request_words()
    ensures
        request_words().len() == 36,
        request_words()[0] == 35 * 4,
        request_words()[1] == 0,
        request_words()[2] == 0x0004_8003 && request_words()[5] == 1024 && request_words()[6]
            == 768,
        request_words()[7] == 0x0004_8004 && request_words()[10] == 1024 && request_words()[11]
            == 768,
        request_words()[12] == 0x0004_8009 && request_words()[15] == 0 && request_words()[16] == 0,
        request_words()[17] == 0x0004_8005 && request_words()[20] == 32,
        request_words()[21] == 0x0004_8006 && request_words()[24] == 1,
        request_words()[25] == 0x0004_0001 && request_words()[28] == 4096,
        request_words()[30] == 0x0004_0008,
        request_words()[34] == 0,
{
}

/// The geometries that can be drawn into: a row of `pitch` bytes holds at
/// least one 8-pixel cell and the visible width, there is at least one
/// 8-pixel text row, and `height * pitch` fits in 32 bits. In such a
/// geometry every pixel of every row, up to `pitch / 4` pixels, lies inside
/// the `height * pitch` bytes of memory.
pub proof fn lemma_drawable(width: u32, height: u32, pitch: u32, x: int, y: int)
    ensures
        drawable(width, height, pitch) <==> (8 <= pitch / 4 && width <= pitch / 4 && 8 <= height
            && height * pitch <= 0xFFFF_FFFF),
        drawable(width, height, pitch) && 0 <= x < pitch / 4 && 0 <= y < height ==> 0 <= 4 * (y
            * (pitch / 4) + x) && 4 * (y * (pitch / 4) + x) + 4 <= height * pitch,
{
    if drawable(width, height, pitch) && 0 <= x < pitch / 4 && 0 <= y < height {
        let stride = pitch / 4;
        lemma_drawable_bounds(width, height, pitch);
        assert(0 <= y * stride + x && y * stride + x + 1 <= height * stride) by (nonlinear_arith)
            requires
                0 <= x < stride,
                0 <= y < height,
        ;
    }
}

} // verus!
