use rpi2_os::console::{self, Console, Writer};
use rpi2_os::fb;
use rpi2_os::font::{Font, GLYPHS};

fn font() -> Font {
    Font::from_glyphs(vec![[0xFF; 8]; GLYPHS]).unwrap()
}

fn ready_console() -> Console {
    let mut con = Console::new(font());
    let mut m = fb::request();
    m.0[1] = 0x8000_0000;
    m.0[5] = 32;
    m.0[6] = 16;
    m.0[28] = 0x4000_1000;
    m.0[33] = 128;
    assert!(fb::init(&mut con.fb, &m, true));
    con
}

#[test]
fn new_console_has_nothing_queued_and_no_framebuffer() {
    let con = Console::new(font());
    assert!(con.tx.is_empty());
    assert!(!fb::is_ready(&con.fb));
}

#[test]
fn putc_goes_to_both_outputs_unchanged() {
    let mut con = ready_console();
    console::putc(&mut con, b'x');
    console::putc(&mut con, b'\n');
    assert_eq!(con.tx, b"x\n".to_vec());
    assert_eq!(fb::cursor(&con.fb), (0, 8));
}

#[test]
fn puts_encodes_line_feeds_for_the_serial_line() {
    let mut con = ready_console();
    console::puts(&mut con, "ab\r\n");
    assert_eq!(con.tx, b"ab\r\r\n".to_vec());
    assert_eq!(fb::cursor(&con.fb), (0, 8));
}

#[test]
fn without_framebuffer_only_the_serial_line_is_written() {
    let mut con = Console::new(font());
    console::puts(&mut con, "hello\n");
    console::putc(&mut con, b'!');
    assert_eq!(con.tx, b"hello\r\n!".to_vec());
    assert!(fb::memory(&con.fb).is_empty());
    assert_eq!(fb::cursor(&con.fb), (0, 0));
}

#[test]
fn put_bytes_matches_puts() {
    let mut a = ready_console();
    let mut b = ready_console();
    console::puts(&mut a, "x\ny");
    console::put_bytes(&mut b, b"x\ny");
    assert_eq!(a.tx, b.tx);
    assert_eq!(fb::memory(&a.fb).to_vec(), fb::memory(&b.fb).to_vec());
    assert_eq!(fb::cursor(&a.fb), fb::cursor(&b.fb));
}

#[test]
fn writer_writes_to_both_outputs() {
    let mut con = ready_console();
    {
        let mut w = Writer { console: &mut con };
        assert!(w.write_str("FB: ").is_ok());
        assert!(w.write_str("active\n").is_ok());
    }
    assert_eq!(con.tx, b"FB: active\r\n".to_vec());
    assert_eq!(fb::cursor(&con.fb), (0, 8));
}

#[test]
fn writing_in_pieces_is_writing_at_once() {
    let mut a = ready_console();
    let mut b = ready_console();
    console::puts(&mut a, "ab\n");
    console::puts(&mut a, "cd");
    console::puts(&mut b, "ab\ncd");
    assert_eq!(a.tx, b.tx);
    assert_eq!(fb::memory(&a.fb).to_vec(), fb::memory(&b.fb).to_vec());
    assert_eq!(fb::cursor(&a.fb), fb::cursor(&b.fb));
}

#[test]
fn text_without_line_feeds_is_the_same_through_putc() {
    let mut a = ready_console();
    let mut b = ready_console();
    console::puts(&mut a, "x y\r");
    for &c in b"x y\r" {
        console::putc(&mut b, c);
    }
    assert_eq!(a.tx, b.tx);
    assert_eq!(fb::memory(&a.fb).to_vec(), fb::memory(&b.fb).to_vec());
}
