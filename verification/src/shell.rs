use vstd::prelude::*;
use vstd::string::StringSliceAdditionalSpecFns;
use crate::console::{self, Console, ConsoleState, echo_spec, write_spec};
use crate::fb;
use crate::hex::{hex08, is_lower_hex_digit, lemma_hex08, parse_hex, parse_hex_spec, push_hex08};
use crate::uart::{self, serial_encode};

verus! {

/// The longest command line the shell keeps; further bytes are ignored.
pub const LINE_MAX: usize = 128;

/// Backspace.
pub const BS: u8 = 0x08;

/// Delete, which terminals also send for the backspace key.
pub const DEL: u8 = 0x7F;

/// The space that separates a command from its argument.
pub const SPACE: u8 = 0x20;

/// The prompt.
pub const PROMPT: &'static str = "rpi2> ";

/// The start-up banner.
pub const BANNER: &'static str = "\r\n+==============================+\r\n|   RPi2 Bare Metal Shell      |\r\n|   Rust  *  no OS  *  ARMv7   |\r\n+==============================+\r\n\r\nType 'help' for commands.\r\n\r\n";

/// The answer to `help`.
pub const HELP: &'static str = "Commands:\r\n  help            show this message\r\n  echo <text>     print text\r\n  clear           clear the screen\r\n  info            hardware info\r\n  hex <addr>      read 32-bit MMIO register\r\n";

/// The answer to `info`, up to the framebuffer's status.
pub const INFO: &'static str = "CPU:    ARM Cortex-A7 (BCM2836)\r\nArch:   ARMv7-A, 32-bit, SVC mode\r\nUART:   Mini UART, 115200 8N1\r\nHDMI:   1024x768 32bpp framebuffer\r\nFB:     ";

/// The end of a line on the console.
pub const NEWLINE: &'static str = "\r\n";

/// What the console shows for an erased character: back, blank, back.
pub const RUB_OUT: &'static str = "\x08 \x08";

/// ANSI sequence that clears a serial terminal and homes its cursor.
pub const ANSI_CLEAR: &'static str = "\x1b[2J\x1b[H";

/// `hex` without an address.
pub const HEX_USAGE: &'static str = "usage: hex <address>\r\n";

/// `hex` with an address that does not parse.
pub const HEX_INVALID: &'static str = "invalid hex address\r\n";

/// The start of the answer to an unknown command.
pub const UNKNOWN: &'static str = "unknown command: ";

/// Whether `b` is a byte that the shell stores and echoes.
pub open spec fn is_printable(b: u8) -> bool {
    0x20 <= b <= 0x7E
}

/// Index of the first space in `s`, or its length when there is none.
pub open spec fn space_index(s: Seq<u8>) -> int
    decreases s.len(),
{
    if s.len() == 0 {
        0
    } else if s[0] == SPACE {
        0
    } else {
        1 + space_index(s.skip(1))
    }
}

/// The command word: everything before the first space.
pub open spec fn verb(input: Seq<u8>) -> Seq<u8> {
    input.take(space_index(input))
}

/// The argument: everything after the first space, empty when there is none.
pub open spec fn args(input: Seq<u8>) -> Seq<u8> {
    if space_index(input) < input.len() {
        input.skip(space_index(input) + 1)
    } else {
        Seq::empty()
    }
}

/// The answer to `info`: the board's fixed description, then whether the
/// framebuffer is `active` or `unavailable`.
pub open spec fn info_text(ready: bool) -> Seq<u8> {
    INFO.spec_bytes() + (if ready {
        "active".spec_bytes()
    } else {
        "unavailable".spec_bytes()
    }) + NEWLINE.spec_bytes()
}

/// The answer to `hex` once the register is read: `0x{:08x} = 0x{:08x}` of
/// the address and the value, then the end of the line.
pub open spec fn register_line(addr: usize, value: u32) -> Seq<u8> {
    "0x".spec_bytes() + hex08(addr as nat) + " = 0x".spec_bytes() + hex08(value as nat)
        + NEWLINE.spec_bytes()
}

/// What a command line does to the console, and the register address it
/// still has to read, if any. The command is the first word:
/// - `help` lists the commands;
/// - `echo` prints its argument byte by byte, then ends the line;
/// - `clear` clears the serial terminal with an ANSI sequence and the screen;
/// - `info` describes the hardware and whether the framebuffer is up;
/// - `hex` with a hexadecimal address (see `parse_hex_spec`) asks for the
///   32-bit register there, without printing yet; with no argument it prints
///   its usage, with one that does not parse an error;
/// - anything else is answered `unknown command: ` and the command word.
pub open spec fn command_spec(c: ConsoleState, input: Seq<u8>) -> (ConsoleState, Option<usize>) {
    let v = verb(input);
    let a = args(input);
    if v == "help".spec_bytes() {
        (write_spec(c, HELP.spec_bytes()), None)
    } else if v == "echo".spec_bytes() {
        (write_spec(echo_spec(c, a), NEWLINE.spec_bytes()), None)
    } else if v == "clear".spec_bytes() {
        (
            ConsoleState { tx: c.tx + serial_encode(ANSI_CLEAR.spec_bytes()), fb: fb::clear_spec(c.fb) },
            None,
        )
    } else if v == "info".spec_bytes() {
        (write_spec(c, info_text(c.fb.ready)), None)
    } else if v == "hex".spec_bytes() {
        if a.len() == 0 {
            (write_spec(c, HEX_USAGE.spec_bytes()), None)
        } else {
            match parse_hex_spec(a) {
                Some(addr) => (c, Some(addr)),
                None => (write_spec(c, HEX_INVALID.spec_bytes()), None),
            }
        }
    } else {
        (write_spec(echo_spec(write_spec(c, UNKNOWN.spec_bytes()), v), NEWLINE.spec_bytes()), None)
    }
}

/// One byte typed at the shell, from the line held so far and the console:
/// the line, the console and the pending register read afterwards.
/// - Carriage return or line feed ends the line: the console moves to a new
///   line, a non-empty line runs as a command (see `command_spec`) and is
///   emptied, and the prompt is printed, unless the command waits for a
///   register, in which case the prompt follows the answer.
/// - Backspace or delete removes the last byte of a non-empty line and rubs
///   it out on the console.
/// - A printable byte is kept and echoed while the line holds fewer than
///   `LINE_MAX` bytes.
/// - Any other byte is ignored.
pub open spec fn step_spec(line: Seq<u8>, c: ConsoleState, b: u8) -> (
    Seq<u8>,
    ConsoleState,
    Option<usize>,
) {
    if b == uart::CR || b == uart::LF {
        let c1 = write_spec(c, NEWLINE.spec_bytes());
        if line.len() > 0 {
            let (c2, pending) = command_spec(c1, line);
            if pending is Some {
                (Seq::empty(), c2, pending)
            } else {
                (Seq::empty(), write_spec(c2, PROMPT.spec_bytes()), None)
            }
        } else {
            (line, write_spec(c1, PROMPT.spec_bytes()), None)
        }
    } else if b == BS || b == DEL {
        if line.len() > 0 {
            (line.drop_last(), write_spec(c, RUB_OUT.spec_bytes()), None)
        } else {
            (line, c, None)
        }
    } else if is_printable(b) {
        if line.len() < LINE_MAX {
            (line.push(b), console::putc_spec(c, b), None)
        } else {
            (line, c, None)
        }
    } else {
        (line, c, None)
    }
}

/// The command line being typed.
pub struct Shell {
    line: Vec<u8>,
}

impl View for Shell {
    type V = Seq<u8>;

    closed spec fn view(&self) -> Seq<u8> {
        self.line@
    }
}

impl Shell {
    /// A shell with an empty line.
    pub fn new() -> (sh: Shell)
        ensures
            sh@ == Seq::<u8>::empty(),
    {
        Shell { line: Vec::new() }
    }

    /// The bytes typed so far.
    pub fn line(&self) -> (l: &[u8])
        ensures
            l@ == self@,
    {
        self.line.as_slice()
    }
}

/// Whether two byte strings are equal.
fn bytes_eq(a: &[u8], b: &[u8]) -> (r: bool)
    ensures
        r == (a@ == b@),
{
    if a.len() != b.len() {
        return false;
    }
    let mut i: usize = 0;
    while i < a.len()
        invariant
            i <= a@.len(),
            a@.len() == b@.len(),
            forall|j: int| 0 <= j < i ==> a@[j] == b@[j],
        decreases a@.len() - i,
    {
        if a[i] != b[i] {
            return false;
        }
        i += 1;
    }
    assert(a@ =~= b@);
    true
}

/// `space_index` is the first space, or the length.
proof fn lemma_space_index(s: Seq<u8>, i: int)
    requires
        0 <= i <= s.len(),
        forall|j: int| 0 <= j < i ==> s[j] != SPACE,
        i == s.len() || s[i] == SPACE,
    ensures
        space_index(s) == i,
    decreases i,
{
    if i > 0 {
        lemma_space_index(s.skip(1), i - 1);
    }
}

/// Writes the bytes of `bytes` to the console one by one with `putc`.
fn echo(con: &mut Console, bytes: &[u8])
    ensures
        final(con)@ == echo_spec(old(con)@, bytes@),
{
    let mut i: usize = 0;
    proof {
        assert(old(con)@.tx + bytes@.take(0) =~= old(con)@.tx);
    }
    while i < bytes.len()
        invariant
            i <= bytes@.len(),
            con@ == echo_spec(old(con)@, bytes@.take(i as int)),
        decreases bytes@.len() - i,
    {
        proof {
            console::lemma_echo_push(old(con)@, bytes@.take(i as int), bytes@[i as int]);
            assert(bytes@.take(i as int).push(bytes@[i as int]) =~= bytes@.take(i as int + 1));
        }
        console::putc(con, bytes[i]);
        i += 1;
    }
    assert(bytes@.take(bytes@.len() as int) =~= bytes@);
}

/// Prints the prompt.
pub fn print_prompt(con: &mut Console)
    ensures
        final(con)@ == write_spec(old(con)@, PROMPT.spec_bytes()),
{
    console::puts(con, PROMPT);
}

/// Prints the start-up banner and the first prompt.
pub fn start(con: &mut Console)
    ensures
        final(con)@ == write_spec(old(con)@, BANNER.spec_bytes() + PROMPT.spec_bytes()),
{
    console::puts(con, BANNER);
    print_prompt(con);
    proof {
        console::lemma_write_concat(old(con)@, BANNER.spec_bytes(), PROMPT.spec_bytes());
    }
}

/// Runs a command line; see `command_spec`. Returns the register address to
/// read when the command is `hex` with a valid address: the caller reads it
/// and passes the value to `report_register`.
pub fn run_command(con: &mut Console, input: &[u8]) -> (pending: Option<usize>)
    ensures
        (final(con)@, pending) == command_spec(old(con)@, input@),
{
    let mut i: usize = 0;
    while i < input.len() && input[i] != SPACE
        invariant
            i <= input@.len(),
            forall|j: int| 0 <= j < i ==> input@[j] != SPACE,
        decreases input@.len() - i,
    {
        i += 1;
    }
    proof {
        lemma_space_index(input@, i as int);
    }
    let word = &input[0..i];
    let empty: &[u8] = &[];
    let arg = if i < input.len() {
        &input[i + 1..input.len()]
    } else {
        empty
    };
    assert(word@ =~= verb(input@));
    assert(arg@ =~= args(input@));
    if bytes_eq(word, "help".as_bytes()) {
        console::puts(con, HELP);
        None
    } else if bytes_eq(word, "echo".as_bytes()) {
        echo(con, arg);
        console::puts(con, NEWLINE);
        None
    } else if bytes_eq(word, "clear".as_bytes()) {
        uart::puts(&mut con.tx, ANSI_CLEAR);
        fb::clear(&mut con.fb);
        None
    } else if bytes_eq(word, "info".as_bytes()) {
        let ready = fb::is_ready(&con.fb);
        console::puts(con, INFO);
        if ready {
            console::puts(con, "active");
            proof {
                console::lemma_write_concat(old(con)@, INFO.spec_bytes(), "active".spec_bytes());
            }
        } else {
            console::puts(con, "unavailable");
            proof {
                console::lemma_write_concat(
                    old(con)@,
                    INFO.spec_bytes(),
                    "unavailable".spec_bytes(),
                );
            }
        }
        let ghost status = if ready {
            "active".spec_bytes()
        } else {
            "unavailable".spec_bytes()
        };
        console::puts(con, NEWLINE);
        proof {
            console::lemma_write_concat(
                old(con)@,
                INFO.spec_bytes() + status,
                NEWLINE.spec_bytes(),
            );
        }
        None
    } else if bytes_eq(word, "hex".as_bytes()) {
        if arg.len() == 0 {
            console::puts(con, HEX_USAGE);
            None
        } else {
            match parse_hex(arg) {
                Some(addr) => Some(addr),
                None => {
                    console::puts(con, HEX_INVALID);
                    None
                },
            }
        }
    } else {
        console::puts(con, UNKNOWN);
        echo(con, word);
        console::puts(con, NEWLINE);
        None
    }
}

/// Prints the answer to `hex`: the address and the value read there; see
/// `register_line`.
pub fn report_register(con: &mut Console, addr: usize, value: u32)
    ensures
        final(con)@ == write_spec(old(con)@, register_line(addr, value)),
{
    let mut line: Vec<u8> = Vec::new();
    append(&mut line, "0x".as_bytes());
    push_hex08(&mut line, addr);
    append(&mut line, " = 0x".as_bytes());
    push_hex08(&mut line, value as usize);
    append(&mut line, NEWLINE.as_bytes());
    assert(line@ =~= register_line(addr, value));
    console::put_bytes(con, line.as_slice());
}

/// Appends `bytes` to `out`.
fn append(out: &mut Vec<u8>, bytes: &[u8])
    ensures
        final(out)@ == old(out)@ + bytes@,
{
    let mut i: usize = 0;
    while i < bytes.len()
        invariant
            i <= bytes@.len(),
            out@ == old(out)@ + bytes@.take(i as int),
        decreases bytes@.len() - i,
    {
        out.push(bytes[i]);
        i += 1;
        assert(out@ =~= old(out)@ + bytes@.take(i as int));
    }
    assert(bytes@.take(bytes@.len() as int) =~= bytes@);
}

/// Handles one byte typed at the shell; see `step_spec`. Returns the
/// register address to read when the line ran `hex` with a valid address:
/// the caller then reads it and calls `finish_register_read`.
pub fn handle_byte(sh: &mut Shell, con: &mut Console, b: u8) -> (pending: Option<usize>)
    ensures
        (final(sh)@, final(con)@, pending) == step_spec(old(sh)@, old(con)@, b),
{
    if b == uart::CR || b == uart::LF {
        console::puts(con, NEWLINE);
        if sh.line.len() > 0 {
            let pending = run_command(con, sh.line.as_slice());
            sh.line = Vec::new();
            assert(sh.line@ =~= Seq::<u8>::empty());
            if pending.is_some() {
                return pending;
            }
        }
        print_prompt(con);
        None
    } else if b == BS || b == DEL {
        if sh.line.len() > 0 {
            sh.line.pop();
            console::puts(con, RUB_OUT);
        }
        None
    } else if 0x20 <= b && b <= 0x7E {
        if sh.line.len() < LINE_MAX {
            sh.line.push(b);
            console::putc(con, b);
        }
        None
    } else {
        None
    }
}

/// Completes a line that waited for a register: prints the answer to `hex`
/// and then the prompt.
pub fn finish_register_read(con: &mut Console, addr: usize, value: u32)
    ensures
        final(con)@ == write_spec(old(con)@, register_line(addr, value) + PROMPT.spec_bytes()),
{
    report_register(con, addr, value);
    print_prompt(con);
    proof {
        console::lemma_write_concat(old(con)@, register_line(addr, value), PROMPT.spec_bytes());
    }
}

// ---------------------------------------------------------------------------
// Laws of the shell
// ---------------------------------------------------------------------------

/// Whether a line is one the shell can hold: at most `LINE_MAX` bytes, all
/// printable.
pub open spec fn line_ok(line: Seq<u8>) -> bool {
    &&& line.len() <= LINE_MAX
    &&& forall|i: int| 0 <= i < line.len() ==> is_printable(#[trigger] line[i])
}

/// Each typed byte edits the line as `edit_step` says.
pub proof fn lemma_step_edits_line(line: Seq<u8>, c: ConsoleState, b: u8)
    ensures
        step_spec(line, c, b).0 == edit_step(line, b),
{
}

/// Whatever is typed, the line never grows past `LINE_MAX` bytes and holds
/// only printable bytes; a byte typed into a full line is dropped without
/// any output.
pub proof fn lemma_step_keeps_line(line: Seq<u8>, c: ConsoleState, b: u8)
    requires
        line_ok(line),
    ensures
        line_ok(step_spec(line, c, b).0),
        line.len() == LINE_MAX && is_printable(b) ==> step_spec(line, c, b) == (line, c, None::<
            usize,
        >),
{
    let next = step_spec(line, c, b).0;
    if is_printable(b) && line.len() < LINE_MAX {
        assert forall|i: int| 0 <= i < next.len() implies is_printable(#[trigger] next[i]) by {
            if i < line.len() {
                assert(next[i] == line[i]);
            }
        }
    }
}

/// Typing a printable byte and then backspace or delete gives back the line
/// as it was, when there was room for the byte.
pub proof fn lemma_type_then_erase(line: Seq<u8>, c: ConsoleState, b: u8, erase: u8)
    requires
        line.len() < LINE_MAX,
        is_printable(b),
        erase == BS || erase == DEL,
    ensures
        ({
            let (l1, c1, p1) = step_spec(line, c, b);
            step_spec(l1, c1, erase).0 == line
        }),
{
    assert(line.push(b).drop_last() =~= line);
}

/// Carriage return and line feed both end the line, in the same way, and
/// leave it empty.
pub proof fn lemma_enter(line: Seq<u8>, c: ConsoleState)
    ensures
        step_spec(line, c, uart::CR) == step_spec(line, c, uart::LF),
        step_spec(line, c, uart::CR).0 == Seq::<u8>::empty(),
{
}

/// Backspace and delete do the same.
pub proof fn lemma_backspace_delete(line: Seq<u8>, c: ConsoleState)
    ensures
        step_spec(line, c, BS) == step_spec(line, c, DEL),
{
}

/// A command waits for a register only when it is `hex` followed by an
/// address that parses, and then the console is untouched until the value
/// is reported.
pub proof fn lemma_pending_only_for_hex(c: ConsoleState, input: Seq<u8>)
    ensures
        command_spec(c, input).1 matches Some(addr) ==> {
            &&& verb(input) == "hex".spec_bytes()
            &&& parse_hex_spec(args(input)) == Some(addr)
            &&& command_spec(c, input).0 == c
        },
{
}

/// While the framebuffer is down, commands other than `clear` reach only the
/// serial line; `clear` leaves the framebuffer as it is too.
pub proof fn lemma_command_without_framebuffer(c: ConsoleState, input: Seq<u8>)
    requires
        !c.fb.ready,
    ensures
        command_spec(c, input).0.fb == c.fb,
{
    let v = verb(input);
    let a = args(input);
    fb::lemma_puts_not_ready(c.fb, HELP.spec_bytes());
    fb::lemma_puts_not_ready(c.fb, a);
    fb::lemma_puts_not_ready(c.fb, NEWLINE.spec_bytes());
    fb::lemma_puts_not_ready(c.fb, info_text(false));
    fb::lemma_puts_not_ready(c.fb, HEX_USAGE.spec_bytes());
    fb::lemma_puts_not_ready(c.fb, HEX_INVALID.spec_bytes());
    fb::lemma_puts_not_ready(c.fb, UNKNOWN.spec_bytes());
    fb::lemma_puts_not_ready(c.fb, v);
}

/// What one typed byte does to the line: a carriage return or line feed
/// empties it, backspace or delete removes its last byte, a printable byte is
/// appended while there is room, anything else leaves it.
pub open spec fn edit_step(line: Seq<u8>, b: u8) -> Seq<u8> {
    if b == uart::CR || b == uart::LF {
        Seq::empty()
    } else if b == BS || b == DEL {
        if line.len() > 0 {
            line.drop_last()
        } else {
            line
        }
    } else if is_printable(b) && line.len() < LINE_MAX {
        line.push(b)
    } else {
        line
    }
}

/// The line after `bytes` are typed one by one from `line`.
pub open spec fn edit(line: Seq<u8>, bytes: Seq<u8>) -> Seq<u8>
    decreases bytes.len(),
{
    if bytes.len() == 0 {
        line
    } else {
        edit_step(edit(line, bytes.drop_last()), bytes.last())
    }
}

/// The shell's line and console after `bytes` are typed one by one (see
/// `step_spec`); a register read that a line waits for is left unanswered.
pub open spec fn shell_run(line: Seq<u8>, c: ConsoleState, bytes: Seq<u8>) -> (Seq<u8>, ConsoleState)
    decreases bytes.len(),
{
    if bytes.len() == 0 {
        (line, c)
    } else {
        let (l, c1) = shell_run(line, c, bytes.drop_last());
        let (l2, c2, pending) = step_spec(l, c1, bytes.last());
        (l2, c2)
    }
}

/// Over any stream of typed bytes the line is the editing of those bytes,
/// whatever the console shows.
pub proof fn lemma_shell_run_edits(line: Seq<u8>, c: ConsoleState, bytes: Seq<u8>)
    ensures
        shell_run(line, c, bytes).0 == edit(line, bytes),
    decreases bytes.len(),
{
    if bytes.len() > 0 {
        lemma_shell_run_edits(line, c, bytes.drop_last());
    }
}

/// An end of line forgets everything typed before it.
proof fn lemma_edit_after_enter(line: Seq<u8>, a: Seq<u8>, b: Seq<u8>)
    requires
        a.len() > 0,
        a.last() == uart::CR || a.last() == uart::LF,
    ensures
        edit(line, a + b) == edit(Seq::empty(), b),
    decreases b.len(),
{
    if b.len() == 0 {
        assert(a + b =~= a);
    } else {
        lemma_edit_after_enter(line, a, b.drop_last());
        assert((a + b).drop_last() =~= a + b.drop_last());
    }
}

/// The command that an end of line runs. When a fresh shell is fed `bytes`
/// and byte `i` is a carriage return or line feed, the line at that moment
/// is the editing of the bytes typed since the previous end of line (or
/// since the start); that line runs as a command exactly when it is not
/// empty, and the end of line leaves the line empty.
pub proof fn lemma_command_is_edited_input(c: ConsoleState, bytes: Seq<u8>, i: int)
    requires
        0 <= i < bytes.len(),
        bytes[i] == uart::CR || bytes[i] == uart::LF,
    ensures
        ({
            let (line, c1) = shell_run(Seq::empty(), c, bytes.take(i));
            let c2 = write_spec(c1, NEWLINE.spec_bytes());
            &&& line == edit(Seq::empty(), bytes.take(i))
            &&& forall|j: int|
                0 <= j < i && (bytes[j] == uart::CR || bytes[j] == uart::LF) ==> line == edit(
                    Seq::empty(),
                    #[trigger] bytes.subrange(j + 1, i),
                )
            &&& line.len() > 0 ==> step_spec(line, c1, bytes[i]).1 == (if command_spec(
                c2,
                line,
            ).1 is Some {
                command_spec(c2, line).0
            } else {
                write_spec(command_spec(c2, line).0, PROMPT.spec_bytes())
            })
            &&& line.len() == 0 ==> step_spec(line, c1, bytes[i]).1 == write_spec(
                c2,
                PROMPT.spec_bytes(),
            )
            &&& step_spec(line, c1, bytes[i]).0 == Seq::<u8>::empty()
        }),
{
    lemma_shell_run_edits(Seq::empty(), c, bytes.take(i));
    let line = shell_run(Seq::empty(), c, bytes.take(i)).0;
    assert forall|j: int|
        0 <= j < i && (bytes[j] == uart::CR || bytes[j] == uart::LF) implies line == edit(
        Seq::empty(),
        #[trigger] bytes.subrange(j + 1, i),
    ) by {
        let a = bytes.take(j + 1);
        let b = bytes.subrange(j + 1, i);
        assert(a + b =~= bytes.take(i));
        assert(a.last() == bytes[j]);
        lemma_edit_after_enter(Seq::empty(), a, b);
    }
}

// ---------------------------------------------------------------------------
// What each command and each typed byte does
// ---------------------------------------------------------------------------

/// The bytes of the short texts the shell writes.
proof fn lemma_text_bytes()
    ensures
        "help".spec_bytes() == seq![0x68u8, 0x65, 0x6C, 0x70],
        "echo".spec_bytes() == seq![0x65u8, 0x63, 0x68, 0x6F],
        "clear".spec_bytes() == seq![0x63u8, 0x6C, 0x65, 0x61, 0x72],
        "info".spec_bytes() == seq![0x69u8, 0x6E, 0x66, 0x6F],
        "hex".spec_bytes() == seq![0x68u8, 0x65, 0x78],
        "\r\n".spec_bytes() == seq![uart::CR, uart::LF],
        serial_encode("\r\n".spec_bytes()) == seq![uart::CR, uart::CR, uart::LF],
        "rpi2> ".spec_bytes() == seq![0x72u8, 0x70, 0x69, 0x32, 0x3E, 0x20],
        serial_encode("rpi2> ".spec_bytes()) == "rpi2> ".spec_bytes(),
        "\x08 \x08".spec_bytes() == seq![0x08u8, 0x20, 0x08],
        serial_encode("\x08 \x08".spec_bytes()) == seq![0x08u8, 0x20, 0x08],
        "\x1b[2J\x1b[H".spec_bytes() == seq![0x1Bu8, 0x5B, 0x32, 0x4A, 0x1B, 0x5B, 0x48],
        serial_encode("\x1b[2J\x1b[H".spec_bytes()) == seq![0x1Bu8, 0x5B, 0x32, 0x4A, 0x1B, 0x5B, 0x48],
{
    reveal_strlit("help");
    vstd::string::is_ascii_spec_bytes("help");
    reveal_strlit("echo");
    vstd::string::is_ascii_spec_bytes("echo");
    reveal_strlit("clear");
    vstd::string::is_ascii_spec_bytes("clear");
    reveal_strlit("info");
    vstd::string::is_ascii_spec_bytes("info");
    reveal_strlit("hex");
    vstd::string::is_ascii_spec_bytes("hex");
    reveal_strlit("\r\n");
    vstd::string::is_ascii_spec_bytes("\r\n");
    reveal_strlit("rpi2> ");
    vstd::string::is_ascii_spec_bytes("rpi2> ");
    reveal_strlit("\x08 \x08");
    vstd::string::is_ascii_spec_bytes("\x08 \x08");
    reveal_strlit("\x1b[2J\x1b[H");
    vstd::string::is_ascii_spec_bytes("\x1b[2J\x1b[H");
    assert("help".spec_bytes() =~= seq![0x68u8, 0x65, 0x6C, 0x70]);
    assert("echo".spec_bytes() =~= seq![0x65u8, 0x63, 0x68, 0x6F]);
    assert("clear".spec_bytes() =~= seq![0x63u8, 0x6C, 0x65, 0x61, 0x72]);
    assert("info".spec_bytes() =~= seq![0x69u8, 0x6E, 0x66, 0x6F]);
    assert("hex".spec_bytes() =~= seq![0x68u8, 0x65, 0x78]);
    assert("\r\n".spec_bytes() =~= seq![uart::CR, uart::LF]);
    assert("rpi2> ".spec_bytes() =~= seq![0x72u8, 0x70, 0x69, 0x32, 0x3E, 0x20]);
    assert("\x08 \x08".spec_bytes() =~= seq![0x08u8, 0x20, 0x08]);
    assert("\x1b[2J\x1b[H".spec_bytes() =~= seq![0x1Bu8, 0x5B, 0x32, 0x4A, 0x1B, 0x5B, 0x48]);
    let crlf = seq![uart::CR, uart::LF];
    assert(crlf.drop_last() =~= seq![uart::CR]);
    uart::lemma_encode_without_lf(seq![uart::CR]);
    assert(serial_encode(crlf) =~= seq![uart::CR, uart::CR, uart::LF]);
    uart::lemma_encode_without_lf(seq![0x72u8, 0x70, 0x69, 0x32, 0x3E, 0x20]);
    uart::lemma_encode_without_lf(seq![0x08u8, 0x20, 0x08]);
    uart::lemma_encode_without_lf(seq![0x1Bu8, 0x5B, 0x32, 0x4A, 0x1B, 0x5B, 0x48]);
}

/// The command word is everything before the first space, the argument
/// everything after it; a line without a space is all command word.
pub proof fn lemma_split(word: Seq<u8>, arg: Seq<u8>)
    requires
        forall|i: int| 0 <= i < word.len() ==> word[i] != SPACE,
    ensures
        verb(word + seq![SPACE] + arg) == word,
        args(word + seq![SPACE] + arg) == arg,
        verb(word) == word,
        args(word) == Seq::<u8>::empty(),
{
    let s = word + seq![SPACE] + arg;
    lemma_space_index(s, word.len() as int);
    lemma_space_index(word, word.len() as int);
    assert(s.take(word.len() as int) =~= word);
    assert(s.skip(word.len() as int + 1) =~= arg);
    assert(word.take(word.len() as int) =~= word);
}

/// `clear` sends the ANSI sequence ESC [ 2 J ESC [ H to the serial line,
/// whether or not the framebuffer is up, and clears the framebuffer.
pub proof fn lemma_clear_command(c: ConsoleState, input: Seq<u8>)
    requires
        verb(input) == "clear".spec_bytes(),
    ensures
        command_spec(c, input).0.tx == c.tx + seq![0x1Bu8, 0x5B, 0x32, 0x4A, 0x1B, 0x5B, 0x48],
        command_spec(c, input).0.fb == fb::clear_spec(c.fb),
        command_spec(c, input).1 is None,
{
    lemma_text_bytes();
}

/// `help` writes the list of commands to both outputs.
pub proof fn lemma_help_command(c: ConsoleState, input: Seq<u8>)
    requires
        verb(input) == "help".spec_bytes(),
    ensures
        ({
            let text = "Commands:\r\n  help            show this message\r\n  echo <text>     print text\r\n  clear           clear the screen\r\n  info            hardware info\r\n  hex <addr>      read 32-bit MMIO register\r\n".spec_bytes();
            &&& command_spec(c, input).0.tx == c.tx + serial_encode(text)
            &&& command_spec(c, input).0.fb == fb::puts_spec(c.fb, text)
            &&& command_spec(c, input).1 is None
        }),
{
}

/// `echo` sends its argument as it is to the serial line and draws it, then
/// ends the line.
pub proof fn lemma_echo_command(c: ConsoleState, input: Seq<u8>)
    requires
        verb(input) == "echo".spec_bytes(),
    ensures
        command_spec(c, input).0.tx == c.tx + args(input) + seq![uart::CR, uart::CR, uart::LF],
        command_spec(c, input).0.fb == fb::puts_spec(
            c.fb,
            args(input) + seq![uart::CR, uart::LF],
        ),
        command_spec(c, input).1 is None,
{
    lemma_text_bytes();
    fb::lemma_puts_concat(c.fb, args(input), seq![uart::CR, uart::LF]);
    assert(c.tx + args(input) + seq![uart::CR, uart::CR, uart::LF] =~= c.tx + args(input) + seq![
        uart::CR,
        uart::CR,
        uart::LF,
    ]);
}

/// `info` describes the board and says whether the framebuffer is up.
pub proof fn lemma_info_command(c: ConsoleState, input: Seq<u8>)
    requires
        verb(input) == "info".spec_bytes(),
    ensures
        ({
            let text = "CPU:    ARM Cortex-A7 (BCM2836)\r\nArch:   ARMv7-A, 32-bit, SVC mode\r\nUART:   Mini UART, 115200 8N1\r\nHDMI:   1024x768 32bpp framebuffer\r\nFB:     ".spec_bytes()
                + (if c.fb.ready {
                "active".spec_bytes()
            } else {
                "unavailable".spec_bytes()
            }) + "\r\n".spec_bytes();
            &&& command_spec(c, input).0.tx == c.tx + serial_encode(text)
            &&& command_spec(c, input).0.fb == fb::puts_spec(c.fb, text)
            &&& command_spec(c, input).1 is None
        }),
{
    lemma_text_bytes();
}

/// `hex` with an address that parses asks for the register at that very
/// address and prints nothing yet; without an address it prints its usage;
/// with one that does not parse it says so. No address is refused for its
/// value.
pub proof fn lemma_hex_command(c: ConsoleState, input: Seq<u8>)
    requires
        verb(input) == "hex".spec_bytes(),
    ensures
        args(input).len() > 0 && parse_hex_spec(args(input)) is Some ==> command_spec(c, input)
            == (c, parse_hex_spec(args(input))),
        args(input).len() == 0 ==> command_spec(c, input) == (ConsoleState {
            tx: c.tx + serial_encode("usage: hex <address>\r\n".spec_bytes()),
            fb: fb::puts_spec(c.fb, "usage: hex <address>\r\n".spec_bytes()),
        }, None::<usize>),
        args(input).len() > 0 && parse_hex_spec(args(input)) is None ==> command_spec(c, input)
            == (ConsoleState {
            tx: c.tx + serial_encode("invalid hex address\r\n".spec_bytes()),
            fb: fb::puts_spec(c.fb, "invalid hex address\r\n".spec_bytes()),
        }, None::<usize>),
{
    lemma_text_bytes();
}

/// Any other command word is answered `unknown command: ` and the word, sent
/// as it is, then the end of the line.
pub proof fn lemma_unknown_command(c: ConsoleState, input: Seq<u8>)
    requires
        verb(input) != "help".spec_bytes(),
        verb(input) != "echo".spec_bytes(),
        verb(input) != "clear".spec_bytes(),
        verb(input) != "info".spec_bytes(),
        verb(input) != "hex".spec_bytes(),
    ensures
        command_spec(c, input).0.tx == c.tx + serial_encode("unknown command: ".spec_bytes())
            + verb(input) + seq![uart::CR, uart::CR, uart::LF],
        command_spec(c, input).0.fb == fb::puts_spec(
            c.fb,
            "unknown command: ".spec_bytes() + verb(input) + seq![uart::CR, uart::LF],
        ),
        command_spec(c, input).1 is None,
{
    lemma_text_bytes();
    let u = "unknown command: ".spec_bytes();
    fb::lemma_puts_concat(c.fb, u, verb(input));
    fb::lemma_puts_concat(c.fb, u + verb(input), seq![uart::CR, uart::LF]);
}

/// A printable byte typed into a line with room is kept at its end, sent as
/// it is on the serial line and drawn, whether or not the framebuffer is up;
/// into a full line it is dropped with no output.
pub proof fn lemma_type_printable(line: Seq<u8>, c: ConsoleState, b: u8)
    requires
        0x20 <= b <= 0x7E,
    ensures
        line.len() < 128 ==> step_spec(line, c, b) == (line.push(b), ConsoleState {
            tx: c.tx.push(b),
            fb: fb::putc_spec(c.fb, b),
        }, None::<usize>),
        line.len() >= 128 ==> step_spec(line, c, b) == (line, c, None::<usize>),
{
}

/// Backspace or delete on a non-empty line removes its last byte and sends
/// back, blank, back to both outputs; on an empty line it does nothing.
pub proof fn lemma_type_erase(line: Seq<u8>, c: ConsoleState, b: u8)
    requires
        b == 0x08 || b == 0x7F,
    ensures
        line.len() > 0 ==> step_spec(line, c, b) == (line.drop_last(), ConsoleState {
            tx: c.tx + seq![0x08u8, 0x20, 0x08],
            fb: fb::puts_spec(c.fb, seq![0x08u8, 0x20, 0x08]),
        }, None::<usize>),
        line.len() == 0 ==> step_spec(line, c, b) == (line, c, None::<usize>),
{
    lemma_text_bytes();
}

/// Bytes that are not printable, not an end of line and not an erase are
/// ignored.
pub proof fn lemma_type_other(line: Seq<u8>, c: ConsoleState, b: u8)
    requires
        b < 0x20 || b > 0x7E,
        b != 0x0D && b != 0x0A && b != 0x08 && b != 0x7F,
    ensures
        step_spec(line, c, b) == (line, c, None::<usize>),
{
}

/// An end of line sends CR CR LF (the line end, encoded) and, on an empty
/// line, the prompt; a non-empty line runs as a command on the console after
/// the line end and the prompt follows unless the command waits for a
/// register. Either way the line is empty afterwards.
pub proof fn lemma_type_enter(line: Seq<u8>, c: ConsoleState, b: u8)
    requires
        b == 0x0D || b == 0x0A,
    ensures
        ({
            let c1 = ConsoleState {
                tx: c.tx + seq![uart::CR, uart::CR, uart::LF],
                fb: fb::puts_spec(c.fb, seq![uart::CR, uart::LF]),
            };
            let prompt = "rpi2> ".spec_bytes();
            let (cmd, pending) = command_spec(c1, line);
            &&& step_spec(line, c, b).0 == Seq::<u8>::empty()
            &&& line.len() == 0 ==> step_spec(line, c, b) == (line, ConsoleState {
                tx: c1.tx + prompt,
                fb: fb::puts_spec(c1.fb, prompt),
            }, None::<usize>)
            &&& line.len() > 0 && pending is Some ==> step_spec(line, c, b) == (
                Seq::<u8>::empty(),
                cmd,
                pending,
            )
            &&& line.len() > 0 && pending is None ==> step_spec(line, c, b) == (
                Seq::<u8>::empty(),
                ConsoleState { tx: cmd.tx + prompt, fb: fb::puts_spec(cmd.fb, prompt) },
                None::<usize>,
            )
        }),
{
    lemma_text_bytes();
}

/// The answer to `hex`: `0x`, the address in at least eight lowercase
/// hexadecimal digits, ` = 0x`, the value in eight, and the line end.
pub proof fn lemma_register_line(addr: usize, value: u32)
    ensures
        register_line(addr, value) == "0x".spec_bytes() + hex08(addr as nat) + " = 0x".spec_bytes()
            + hex08(value as nat) + seq![uart::CR, uart::LF],
        "0x".spec_bytes() == seq![0x30u8, 0x78],
        " = 0x".spec_bytes() == seq![0x20u8, 0x3D, 0x20, 0x30, 0x78],
        hex08(value as nat).len() == 8,
        forall|i: int|
            0 <= i < hex08(value as nat).len() ==> is_lower_hex_digit(
                #[trigger] hex08(value as nat)[i],
            ),
        forall|i: int|
            0 <= i < hex08(addr as nat).len() ==> is_lower_hex_digit(
                #[trigger] hex08(addr as nat)[i],
            ),
{
    lemma_text_bytes();
    reveal_strlit("0x");
    vstd::string::is_ascii_spec_bytes("0x");
    reveal_strlit(" = 0x");
    vstd::string::is_ascii_spec_bytes(" = 0x");
    assert("0x".spec_bytes() =~= seq![0x30u8, 0x78]);
    assert(" = 0x".spec_bytes() =~= seq![0x20u8, 0x3D, 0x20, 0x30, 0x78]);
    lemma_hex08(addr as nat);
    lemma_hex08(value as nat);
}

/// The start-up banner and the prompt, as printed by `start`.
pub proof fn lemma_start_text()
    ensures
        BANNER.spec_bytes() == "\r\n+==============================+\r\n|   RPi2 Bare Metal Shell      |\r\n|   Rust  *  no OS  *  ARMv7   |\r\n+==============================+\r\n\r\nType 'help' for commands.\r\n\r\n".spec_bytes(),
        PROMPT.spec_bytes() == seq![0x72u8, 0x70, 0x69, 0x32, 0x3E, 0x20],
{
    lemma_text_bytes();
}

} // verus!
