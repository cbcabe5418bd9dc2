use rpi2_os::console::Console;
use rpi2_os::fb;
use rpi2_os::font::{Font, GLYPHS};
use rpi2_os::shell::{
    self, finish_register_read, handle_byte, print_prompt, report_register, run_command, start,
    Shell, BANNER, HELP, INFO, LINE_MAX,
};

/// The serial encoding written out independently: CR before every LF.
fn serial(s: &str) -> Vec<u8> {
    let mut out = Vec::new();
    for b in s.bytes() {
        if b == b'\n' {
            out.push(b'\r');
        }
        out.push(b);
    }
    out
}

fn font() -> Font {
    Font::from_glyphs(vec![[0xAA; 8]; GLYPHS]).unwrap()
}

fn ready_console() -> Console {
    let mut con = Console::new(font());
    let mut m = fb::request();
    m.0[1] = 0x8000_0000;
    m.0[5] = 64;
    m.0[6] = 32;
    m.0[28] = 0xC000_8000;
    m.0[33] = 256;
    assert!(fb::init(&mut con.fb, &m, true));
    con
}

/// Types `text` and returns what the last byte asked to read, if anything.
fn type_line(sh: &mut Shell, con: &mut Console, text: &[u8]) -> Option<usize> {
    let mut last = None;
    for &b in text {
        last = handle_byte(sh, con, b);
    }
    last
}

fn after_enter(typed: &str) -> Vec<u8> {
    let mut out = typed.as_bytes().to_vec();
    out.extend(serial("\r\n"));
    out
}

#[test]
fn start_prints_the_banner_and_the_prompt() {
    let mut con = Console::new(font());
    start(&mut con);
    let mut want = serial(BANNER);
    want.extend(b"rpi2> ");
    assert_eq!(con.tx, want);
}

#[test]
fn print_prompt_prints_the_prompt() {
    let mut con = Console::new(font());
    print_prompt(&mut con);
    assert_eq!(con.tx, b"rpi2> ".to_vec());
}

#[test]
fn help_lists_the_commands() {
    let mut sh = Shell::new();
    let mut con = Console::new(font());
    assert_eq!(type_line(&mut sh, &mut con, b"help\r"), None);
    let mut want = after_enter("help");
    want.extend(serial(HELP));
    want.extend(b"rpi2> ");
    assert_eq!(con.tx, want);
    assert!(sh.line().is_empty());
    assert!(HELP.starts_with("Commands:\r\n  help            show this message\r\n"));
}

#[test]
fn echo_prints_its_argument() {
    let mut sh = Shell::new();
    let mut con = Console::new(font());
    type_line(&mut sh, &mut con, b"echo hi there\n");
    let mut want = after_enter("echo hi there");
    want.extend(b"hi there");
    want.extend(serial("\r\n"));
    want.extend(b"rpi2> ");
    assert_eq!(con.tx, want);
}

#[test]
fn echo_keeps_spaces_after_the_first() {
    let mut con = Console::new(font());
    assert_eq!(run_command(&mut con, b"echo  x"), None);
    let mut want = b" x".to_vec();
    want.extend(serial("\r\n"));
    assert_eq!(con.tx, want);
    let mut con = Console::new(font());
    run_command(&mut con, b"echo");
    assert_eq!(con.tx, serial("\r\n"));
}

#[test]
fn unknown_commands_are_named() {
    let mut con = Console::new(font());
    assert_eq!(run_command(&mut con, b"foo bar"), None);
    let mut want = b"unknown command: foo".to_vec();
    want.extend(serial("\r\n"));
    assert_eq!(con.tx, want);
    // Commands are case-sensitive.
    let mut con = Console::new(font());
    run_command(&mut con, b"HELP");
    assert!(con.tx.starts_with(b"unknown command: HELP"));
}

#[test]
fn info_reports_the_framebuffer_state() {
    let mut con = Console::new(font());
    run_command(&mut con, b"info");
    assert_eq!(con.tx, serial(&format!("{}unavailable\r\n", INFO)));
    let mut con = ready_console();
    run_command(&mut con, b"info");
    assert_eq!(con.tx, serial(&format!("{}active\r\n", INFO)));
    assert!(INFO.starts_with("CPU:    ARM Cortex-A7 (BCM2836)\r\n"));
}

#[test]
fn clear_clears_terminal_and_screen() {
    let mut con = ready_console();
    rpi2_os::console::puts(&mut con, "abc\n");
    con.tx.clear();
    assert_eq!(run_command(&mut con, b"clear"), None);
    assert_eq!(con.tx, b"\x1b[2J\x1b[H".to_vec());
    assert_eq!(fb::cursor(&con.fb), (0, 0));
    assert!(fb::memory(&con.fb).iter().all(|&b| b == 0));
}

#[test]
fn hex_without_address_prints_usage() {
    let mut con = Console::new(font());
    assert_eq!(run_command(&mut con, b"hex"), None);
    assert_eq!(con.tx, serial("usage: hex <address>\r\n"));
    let mut con = Console::new(font());
    assert_eq!(run_command(&mut con, b"hex "), None);
    assert_eq!(con.tx, serial("usage: hex <address>\r\n"));
}

#[test]
fn hex_with_bad_address_says_so() {
    let mut con = Console::new(font());
    assert_eq!(run_command(&mut con, b"hex 0xZZ"), None);
    assert_eq!(con.tx, serial("invalid hex address\r\n"));
    let mut con = Console::new(font());
    assert_eq!(run_command(&mut con, b"hex 0x"), None);
    assert_eq!(con.tx, serial("invalid hex address\r\n"));
}

#[test]
fn hex_asks_for_the_register_and_then_reports_it() {
    let mut sh = Shell::new();
    let mut con = Console::new(font());
    let pending = type_line(&mut sh, &mut con, b"hex 0x3F215054\r");
    assert_eq!(pending, Some(0x3F21_5054));
    // Nothing more than the new line until the value is there.
    assert_eq!(con.tx, after_enter("hex 0x3F215054"));
    assert!(sh.line().is_empty());
    finish_register_read(&mut con, 0x3F21_5054, 0x60);
    let mut want = after_enter("hex 0x3F215054");
    want.extend(serial("0x3f215054 = 0x00000060\r\n"));
    want.extend(b"rpi2> ");
    assert_eq!(con.tx, want);
}

#[test]
fn report_register_formats_both_values() {
    let mut con = Console::new(font());
    report_register(&mut con, 0x3F00_B898, 0xDEAD_BEEF);
    assert_eq!(con.tx, serial("0x3f00b898 = 0xdeadbeef\r\n"));
    let mut con = Console::new(font());
    report_register(&mut con, 0x10, 0);
    assert_eq!(con.tx, serial("0x00000010 = 0x00000000\r\n"));
}

#[test]
fn enter_on_an_empty_line_prints_a_new_prompt() {
    let mut sh = Shell::new();
    let mut con = Console::new(font());
    assert_eq!(handle_byte(&mut sh, &mut con, b'\n'), None);
    let mut want = serial("\r\n");
    want.extend(b"rpi2> ");
    assert_eq!(con.tx, want);
}

#[test]
fn backspace_removes_the_last_byte() {
    let mut sh = Shell::new();
    let mut con = Console::new(font());
    type_line(&mut sh, &mut con, b"ab");
    handle_byte(&mut sh, &mut con, 0x08);
    assert_eq!(sh.line(), b"a");
    handle_byte(&mut sh, &mut con, 0x7F);
    assert_eq!(sh.line(), b"");
    // Nothing to remove: nothing happens.
    handle_byte(&mut sh, &mut con, 0x08);
    let mut want = b"ab".to_vec();
    want.extend(b"\x08 \x08\x08 \x08");
    assert_eq!(con.tx, want);
}

#[test]
fn the_line_holds_at_most_128_bytes() {
    let mut sh = Shell::new();
    let mut con = Console::new(font());
    let long = vec![b'x'; LINE_MAX + 5];
    type_line(&mut sh, &mut con, &long);
    assert_eq!(sh.line().len(), LINE_MAX);
    assert_eq!(con.tx.len(), LINE_MAX);
}

#[test]
fn control_and_high_bytes_are_ignored() {
    let mut sh = Shell::new();
    let mut con = Console::new(font());
    type_line(&mut sh, &mut con, &[0x00, 0x01, 0x1B, 0x80, 0xFF, b'a']);
    assert_eq!(sh.line(), b"a");
    assert_eq!(con.tx, b"a".to_vec());
}

#[test]
fn typed_bytes_reach_the_screen_too() {
    let mut sh = Shell::new();
    let mut con = ready_console();
    type_line(&mut sh, &mut con, b"ab");
    assert_eq!(fb::cursor(&con.fb), (16, 0));
    handle_byte(&mut sh, &mut con, 0x08);
    assert_eq!(fb::cursor(&con.fb), (8, 0));
    handle_byte(&mut sh, &mut con, b'\r');
    // "a" ran as an unknown command (wrapping over three rows and scrolling),
    // then the prompt: the cursor is after it on the last row.
    assert_eq!(fb::cursor(&con.fb), (48, 24));
    let _ = shell::LINE_MAX;
}

#[test]
fn carriage_return_and_line_feed_end_a_line_alike() {
    let mut sh1 = Shell::new();
    let mut con1 = Console::new(font());
    type_line(&mut sh1, &mut con1, b"echo x\r");
    let mut sh2 = Shell::new();
    let mut con2 = Console::new(font());
    type_line(&mut sh2, &mut con2, b"echo x\n");
    assert_eq!(con1.tx, con2.tx);
    assert!(sh1.line().is_empty() && sh2.line().is_empty());
}

#[test]
fn typing_then_erasing_gives_back_the_line() {
    let mut sh = Shell::new();
    let mut con = Console::new(font());
    type_line(&mut sh, &mut con, b"he");
    type_line(&mut sh, &mut con, &[b'x', 0x7F, b'y', 0x08]);
    assert_eq!(sh.line(), b"he");
}

#[test]
fn without_framebuffer_commands_leave_it_alone() {
    let mut con = Console::new(font());
    for cmd in [&b"help"[..], b"echo hi", b"info", b"hex", b"hex q", b"nope", b"clear"] {
        run_command(&mut con, cmd);
    }
    assert!(!fb::is_ready(&con.fb));
    assert!(fb::memory(&con.fb).is_empty());
    assert_eq!(fb::cursor(&con.fb), (0, 0));
}

#[test]
fn the_command_is_the_line_edited_since_the_last_enter() {
    let mut sh = Shell::new();
    let mut con = Console::new(font());
    // "hexx" with one x rubbed out, typed after an abandoned line.
    let pending = type_line(
        &mut sh,
        &mut con,
        b"junk\x08\x08\rhexx\x7f 10\x01\r",
    );
    assert_eq!(pending, Some(0x10));
    assert!(sh.line().is_empty());
}
