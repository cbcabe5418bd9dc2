use rpi2_os::fb::{self, Framebuffer, BG, FG};
use rpi2_os::font::{glyph_index, Font, GLYPHS};
use rpi2_os::mailbox::Msg;

const A_GLYPH: [u8; 8] = [0x0C, 0x1E, 0x33, 0x33, 0x3F, 0x33, 0x33, 0x00];
const BLOCK: [u8; 8] = [0xFF; 8];

/// Space is blank, 'A' is the documented glyph, '#' is a full block, the
/// rest are a single dot in the top-left corner.
fn test_font() -> Font {
    let mut glyphs = vec![[0x80, 0, 0, 0, 0, 0, 0, 0]; GLYPHS];
    glyphs[0] = [0; 8];
    glyphs[(b'A' - 0x20) as usize] = A_GLYPH;
    glyphs[(b'#' - 0x20) as usize] = BLOCK;
    Font::from_glyphs(glyphs).unwrap()
}

fn reply(width: u32, height: u32, pitch: u32, bus: u32) -> Msg {
    let mut m = fb::request();
    m.0[1] = 0x8000_0000;
    m.0[5] = width;
    m.0[6] = height;
    m.0[28] = bus;
    m.0[33] = pitch;
    m
}

/// A 16x16 framebuffer with rows of 16 pixels: two cells across, two down.
fn small_fb() -> Framebuffer {
    let mut f = Framebuffer::new(test_font());
    let r = reply(16, 16, 64, 0xC010_0000);
    assert!(fb::reply_is_drawable(&r));
    assert!(fb::init(&mut f, &r, true));
    f
}

/// The pixel in column `x` of row `y` of a framebuffer with 16 pixels per
/// row: a little-endian word in memory.
fn px(f: &Framebuffer, x: usize, y: usize) -> u32 {
    word(fb::memory(f), 4 * (y * 16 + x))
}

fn word(mem: &[u8], at: usize) -> u32 {
    u32::from_le_bytes([mem[at], mem[at + 1], mem[at + 2], mem[at + 3]])
}

fn cell_is(f: &Framebuffer, cx: usize, cy: usize, rows: [u8; 8]) -> bool {
    (0..8).all(|r| {
        (0..8).all(|c| {
            let want = if rows[r] & (0x80 >> c) != 0 { FG } else { BG };
            px(f, cx + c, cy + r) == want
        })
    })
}

#[test]
fn font_needs_exactly_95_glyphs() {
    assert!(Font::from_glyphs(vec![[0; 8]; 95]).is_some());
    assert!(Font::from_glyphs(vec![[0; 8]; 94]).is_none());
    assert!(Font::from_glyphs(vec![[0; 8]; 96]).is_none());
    let f = test_font();
    assert_eq!(f.len(), 95);
    assert_eq!(f.glyph(b'A'), A_GLYPH);
    assert_eq!(f.glyph(0x7F), [0; 8]);
}

#[test]
fn glyph_index_maps_printable_ascii() {
    assert_eq!(glyph_index(b' '), 0);
    assert_eq!(glyph_index(b'!'), 1);
    assert_eq!(glyph_index(b'A'), 33);
    assert_eq!(glyph_index(b'~'), 94);
    assert_eq!(glyph_index(0x7F), 0);
    assert_eq!(glyph_index(0x0A), 0);
    assert_eq!(glyph_index(0xC3), 0);
}

#[test]
fn request_asks_for_1024x768x32() {
    let m = fb::request();
    let want: [u32; 36] = [
        140, 0, 0x48003, 8, 0, 1024, 768, 0x48004, 8, 0, 1024, 768, 0x48009, 8, 0, 0, 0, 0x48005,
        4, 0, 32, 0x48006, 4, 0, 1, 0x40001, 8, 0, 4096, 0, 0x40008, 4, 0, 0, 0, 0,
    ];
    assert_eq!(m.0, want);
    assert_eq!(m.0[0], 35 * 4);
}

#[test]
fn init_takes_the_reply_geometry_and_masks_the_bus_address() {
    let f = small_fb();
    assert!(fb::is_ready(&f));
    assert_eq!(fb::base(&f), 0x0010_0000);
    assert_eq!(fb::cursor(&f), (0, 0));
    assert_eq!(fb::memory(&f).len(), 16 * 64);
    assert!(fb::memory(&f).iter().all(|&b| b == 0));
}

#[test]
fn init_fails_without_acknowledgement_address_or_pitch() {
    let mut f = Framebuffer::new(test_font());
    assert!(!fb::init(&mut f, &reply(16, 16, 64, 0x1000), false));
    assert!(!fb::init(&mut f, &reply(16, 16, 64, 0xC000_0000), true));
    assert!(!fb::init(&mut f, &reply(16, 16, 0, 0x1000), true));
    assert!(!fb::is_ready(&f));
    assert_eq!(fb::base(&f), 0);
}

#[test]
fn reply_is_drawable_checks_the_geometry() {
    assert!(fb::reply_is_drawable(&reply(1024, 768, 4096, 1)));
    // A pitch that is not whole pixels, or a width below one cell, is fine.
    assert!(fb::reply_is_drawable(&reply(1024, 768, 4097, 1)));
    assert!(fb::reply_is_drawable(&reply(7, 768, 4096, 1)));
    assert!(fb::reply_is_drawable(&reply(0, 768, 32, 1)));
    // The visible width or one cell does not fit in a row.
    assert!(!fb::reply_is_drawable(&reply(1024, 768, 4095, 1)));
    assert!(!fb::reply_is_drawable(&reply(1025, 768, 4096, 1)));
    assert!(!fb::reply_is_drawable(&reply(0, 768, 28, 1)));
    // Less than one text row, or a memory size beyond 32 bits.
    assert!(!fb::reply_is_drawable(&reply(1024, 7, 4096, 1)));
    assert!(!fb::reply_is_drawable(&reply(8, 0x1000_0000, 32, 1)));
}

#[test]
fn nothing_is_drawn_before_init() {
    let mut f = Framebuffer::new(test_font());
    fb::putc(&mut f, b'A');
    fb::puts(&mut f, "hello\n");
    fb::clear(&mut f);
    assert!(!fb::is_ready(&f));
    assert_eq!(fb::cursor(&f), (0, 0));
    assert!(fb::memory(&f).is_empty());
}

#[test]
fn putc_draws_the_glyph_and_moves_right() {
    let mut f = small_fb();
    fb::putc(&mut f, b'A');
    assert!(cell_is(&f, 0, 0, A_GLYPH));
    assert_eq!(px(&f, 4, 0), FG);
    assert_eq!(px(&f, 0, 0), BG);
    assert_eq!(fb::cursor(&f), (8, 0));
    assert!(cell_is(&f, 8, 0, [0; 8]));
}

#[test]
fn putc_wraps_at_the_right_edge_and_scrolls_at_the_bottom() {
    let mut f = small_fb();
    fb::putc(&mut f, b'#');
    fb::putc(&mut f, b'A');
    // The row is full: the cursor went to the next row.
    assert_eq!(fb::cursor(&f), (0, 8));
    fb::putc(&mut f, b'A');
    assert_eq!(fb::cursor(&f), (8, 8));
    fb::putc(&mut f, b'#');
    // The screen scrolled one text row; the cursor stays on the last row.
    assert_eq!(fb::cursor(&f), (0, 8));
    assert!(cell_is(&f, 0, 0, A_GLYPH));
    assert!(cell_is(&f, 8, 0, BLOCK));
    assert!(cell_is(&f, 0, 8, [0; 8]));
    assert!(cell_is(&f, 8, 8, [0; 8]));
}

#[test]
fn carriage_return_and_line_feed_move_the_cursor() {
    let mut f = small_fb();
    fb::putc(&mut f, b'A');
    fb::putc(&mut f, b'\r');
    assert_eq!(fb::cursor(&f), (0, 0));
    fb::putc(&mut f, b'A');
    fb::putc(&mut f, b'\n');
    assert_eq!(fb::cursor(&f), (0, 8));
    fb::putc(&mut f, b'#');
    fb::putc(&mut f, b'\n');
    // Line feed on the last row scrolls.
    assert_eq!(fb::cursor(&f), (0, 8));
    assert!(cell_is(&f, 0, 0, BLOCK));
    assert!(cell_is(&f, 0, 8, [0; 8]));
}

#[test]
fn backspace_and_delete_erase_the_previous_cell() {
    let mut f = small_fb();
    fb::putc(&mut f, b'#');
    fb::putc(&mut f, 0x08);
    assert_eq!(fb::cursor(&f), (0, 0));
    assert!(cell_is(&f, 0, 0, [0; 8]));
    fb::putc(&mut f, b'#');
    fb::putc(&mut f, 0x7F);
    assert!(cell_is(&f, 0, 0, [0; 8]));
    // At the start of a row there is nothing to erase.
    fb::putc(&mut f, 0x08);
    assert_eq!(fb::cursor(&f), (0, 0));
}

#[test]
fn other_bytes_are_ignored() {
    let mut f = small_fb();
    let before = fb::memory(&f).to_vec();
    for b in [0x00u8, 0x07, 0x1B, 0x80, 0xC3, 0xFF] {
        fb::putc(&mut f, b);
    }
    assert_eq!(fb::cursor(&f), (0, 0));
    assert_eq!(fb::memory(&f).to_vec(), before);
}

#[test]
fn puts_skips_bytes_outside_ascii() {
    let mut f = small_fb();
    fb::puts(&mut f, "é#");
    assert_eq!(fb::cursor(&f), (8, 0));
    assert!(cell_is(&f, 0, 0, BLOCK));
    let mut g = small_fb();
    fb::put_bytes(&mut g, &[0xC3, b'#', 0xA9]);
    assert_eq!(fb::memory(&g).to_vec(), fb::memory(&f).to_vec());
}

#[test]
fn clear_blanks_the_screen_and_homes_the_cursor() {
    let mut f = small_fb();
    fb::puts(&mut f, "##\n#");
    fb::clear(&mut f);
    assert_eq!(fb::cursor(&f), (0, 0));
    assert!(fb::memory(&f).iter().all(|&b| b == 0));
}

#[test]
fn draw_char_paints_without_moving_the_cursor() {
    let mut f = small_fb();
    fb::draw_char(&mut f, b'#', 8, 8);
    assert!(cell_is(&f, 8, 8, BLOCK));
    assert!(cell_is(&f, 0, 0, [0; 8]));
    assert_eq!(fb::cursor(&f), (0, 0));
    // Bytes outside printable ASCII draw the space glyph.
    fb::draw_char(&mut f, 0x01, 8, 8);
    assert!(cell_is(&f, 8, 8, [0; 8]));
}

#[test]
fn rows_follow_the_pitch_not_the_width() {
    // 8 pixels visible in rows of 16.
    let mut f = Framebuffer::new(test_font());
    assert!(fb::init(&mut f, &reply(8, 8, 64, 0x2000), true));
    fb::draw_char(&mut f, b'#', 0, 0);
    assert_eq!(fb::memory(&f).len(), 8 * 64);
    for y in 0..8 {
        for x in 0..16 {
            assert_eq!(px(&f, x, y), if x < 8 { FG } else { BG });
        }
    }
    // The bytes of each pixel are stored lowest first.
    assert_eq!(&fb::memory(&f)[0..4], &[0xE0, 0xE0, 0xE0, 0x00]);
    // On a screen of a single cell, a character fills the row and the
    // screen scrolls it away at once.
    fb::putc(&mut f, b'#');
    assert_eq!(fb::cursor(&f), (0, 0));
    assert!(fb::memory(&f).iter().all(|&b| b == 0));
}

#[test]
fn a_width_below_one_cell_draws_one_cell_per_row() {
    let mut f = Framebuffer::new(test_font());
    assert!(fb::init(&mut f, &reply(4, 16, 64, 0x2000), true));
    fb::putc(&mut f, b'#');
    assert_eq!(fb::cursor(&f), (0, 8));
    assert!(cell_is(&f, 0, 0, BLOCK));
    fb::putc(&mut f, b'A');
    // The second row was the last: the screen scrolled.
    assert_eq!(fb::cursor(&f), (0, 8));
    assert!(cell_is(&f, 0, 0, A_GLYPH));
    assert!(cell_is(&f, 0, 8, [0; 8]));
}

#[test]
fn a_pitch_of_partial_pixels_scrolls_by_whole_rows_of_bytes() {
    // 66 bytes per row: pixels are addressed by 16 words per row, scrolling
    // moves 8 rows of 66 bytes.
    let mut f = Framebuffer::new(test_font());
    assert!(fb::init(&mut f, &reply(16, 16, 66, 0x2000), true));
    assert_eq!(fb::memory(&f).len(), 16 * 66);
    fb::draw_char(&mut f, b'#', 8, 8);
    let before = fb::memory(&f).to_vec();
    assert_eq!(word(&before, 4 * (8 * 16 + 8)), FG);
    fb::putc(&mut f, b'\n');
    fb::putc(&mut f, b'\n');
    assert_eq!(fb::cursor(&f), (0, 8));
    let after = fb::memory(&f).to_vec();
    let shift = 8 * 66;
    for i in 0..after.len() {
        let want = if i + shift < before.len() { before[i + shift] } else { 0 };
        assert_eq!(after[i], want);
    }
}

#[test]
fn only_an_accepted_init_brings_the_framebuffer_up() {
    let mut f = Framebuffer::new(test_font());
    fb::putc(&mut f, b'#');
    fb::clear(&mut f);
    assert!(!fb::is_ready(&f));
    assert!(!fb::init(&mut f, &reply(16, 16, 64, 0), true));
    assert!(!fb::is_ready(&f));
    assert!(fb::init(&mut f, &reply(16, 16, 64, 0x2000), true));
    fb::puts(&mut f, "##\n#");
    fb::clear(&mut f);
    fb::draw_char(&mut f, b'A', 0, 0);
    // A later refused reply leaves it up.
    assert!(!fb::init(&mut f, &reply(16, 16, 64, 0x2000), false));
    assert!(fb::is_ready(&f));
    assert!(cell_is(&f, 0, 0, A_GLYPH));
}
