use vstd::prelude::*;
use vstd::string::StringSliceAdditionalSpecFns;
use crate::fb::{self, FbState, Framebuffer};
use crate::font::Font;
use crate::uart::{self, serial_encode};

verus! {

/// The dual console: everything written goes to the serial line and to the
/// framebuffer. `tx` holds the bytes queued for the serial line, oldest first.
pub struct Console {
    pub tx: Vec<u8>,
    pub fb: Framebuffer,
}

/// The model of the console: the queued serial bytes and the framebuffer.
pub struct ConsoleState {
    pub tx: Seq<u8>,
    pub fb: FbState,
}

impl View for Console {
    type V = ConsoleState;

    open spec fn view(&self) -> ConsoleState {
        ConsoleState { tx: self.tx@, fb: self.fb@ }
    }
}

/// One byte written to both outputs: sent as it is on the serial line, and
/// to the framebuffer console.
pub open spec fn putc_spec(c: ConsoleState, b: u8) -> ConsoleState {
    ConsoleState { tx: c.tx.push(b), fb: fb::putc_spec(c.fb, b) }
}

/// Text written to both outputs: encoded for the serial line (a carriage
/// return before each line feed), and to the framebuffer console.
pub open spec fn write_spec(c: ConsoleState, bytes: Seq<u8>) -> ConsoleState {
    ConsoleState { tx: c.tx + serial_encode(bytes), fb: fb::puts_spec(c.fb, bytes) }
}

/// Bytes written one by one with `putc`: as they are on the serial line.
pub open spec fn echo_spec(c: ConsoleState, bytes: Seq<u8>) -> ConsoleState {
    ConsoleState { tx: c.tx + bytes, fb: fb::puts_spec(c.fb, bytes) }
}

impl Console {
    /// A console with nothing queued and a framebuffer that is not up yet.
    pub fn new(font: Font) -> (con: Console)
        ensures
            con@.tx == Seq::<u8>::empty(),
            con@.fb == fb::unready(font@),
    {
        Console { tx: Vec::new(), fb: Framebuffer::new(font) }
    }
}

/// Writes one byte to both outputs.
pub fn putc(con: &mut Console, c: u8)
    ensures
        final(con)@ == putc_spec(old(con)@, c),
{
    con.tx.push(c);
    fb::putc(&mut con.fb, c);
}

/// Writes bytes to both outputs.
pub fn put_bytes(con: &mut Console, bytes: &[u8])
    ensures
        final(con)@ == write_spec(old(con)@, bytes@),
{
    uart::put_bytes(&mut con.tx, bytes);
    fb::put_bytes(&mut con.fb, bytes);
}

/// Writes a string to both outputs.
pub fn puts(con: &mut Console, s: &str)
    ensures
        final(con)@ == write_spec(old(con)@, s.spec_bytes()),
{
    put_bytes(con, s.as_bytes());
}

/// A formatting target that writes what it is given to both outputs.
pub struct Writer<'a> {
    pub console: &'a mut Console,
}

impl<'a> Writer<'a> {
    /// Writes `s` as `puts` does; never fails.
    pub fn write_str(&mut self, s: &str) -> (r: core::fmt::Result)
        ensures
            r is Ok,
            final(self).console@ == write_spec(old(self).console@, s.spec_bytes()),
            *final(final(self).console) == *final(old(self).console),
    {
        puts(self.console, s);
        Ok(())
    }
}

/// Writing `a` and then `b` is writing `a + b`.
pub proof fn lemma_write_concat(c: ConsoleState, a: Seq<u8>, b: Seq<u8>)
    ensures
        write_spec(write_spec(c, a), b) == write_spec(c, a + b),
{
    uart::lemma_encode_concat(a, b);
    fb::lemma_puts_concat(c.fb, a, b);
    assert(c.tx + serial_encode(a) + serial_encode(b) =~= c.tx + serial_encode(a + b));
}

/// Writing bytes one by one with `putc` extends like writing them at once.
pub proof fn lemma_echo_push(c: ConsoleState, a: Seq<u8>, b: u8)
    ensures
        putc_spec(echo_spec(c, a), b) == echo_spec(c, a.push(b)),
{
    assert(a.push(b).drop_last() =~= a);
    assert(c.tx + a + seq![b] =~= c.tx + a.push(b));
    assert(c.tx + a.push(b) =~= (c.tx + a).push(b));
}

/// Text without line feeds reaches the serial line the same whether written
/// at once or byte by byte.
pub proof fn lemma_write_without_lf(c: ConsoleState, bytes: Seq<u8>)
    requires
        forall|i: int| 0 <= i < bytes.len() ==> bytes[i] != uart::LF,
    ensures
        write_spec(c, bytes) == echo_spec(c, bytes),
{
    uart::lemma_encode_without_lf(bytes);
}

} // verus!
