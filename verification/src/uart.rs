use vstd::prelude::*;
use vstd::string::StringSliceAdditionalSpecFns;

verus! {

/// Carriage return.
pub const CR: u8 = 0x0D;

/// Line feed.
pub const LF: u8 = 0x0A;

/// The bytes put on the serial line for `bytes`: each byte as it is, with a
/// carriage return sent before every line feed so that a terminal also
/// returns to the start of the line.
pub open spec fn serial_encode(bytes: Seq<u8>) -> Seq<u8>
    decreases bytes.len(),
{
    if bytes.len() == 0 {
        Seq::empty()
    } else {
        serial_encode(bytes.drop_last()) + if bytes.last() == LF {
            seq![CR, LF]
        } else {
            seq![bytes.last()]
        }
    }
}

/// Queues `bytes` for transmission on `tx`, encoded by `serial_encode`.
pub fn put_bytes(tx: &mut Vec<u8>, bytes: &[u8])
    ensures
        final(tx)@ == old(tx)@ + serial_encode(bytes@),
{
    let mut i: usize = 0;
    while i < bytes.len()
        invariant
            i <= bytes@.len(),
            tx@ == old(tx)@ + serial_encode(bytes@.take(i as int)),
        decreases bytes@.len() - i,
    {
        let b = bytes[i];
        proof {
            assert(bytes@.take(i as int + 1).drop_last() =~= bytes@.take(i as int));
        }
        if b == LF {
            tx.push(CR);
        }
        tx.push(b);
        i += 1;
    }
    assert(bytes@.take(bytes@.len() as int) =~= bytes@);
}

/// Queues the bytes of `s` for transmission on `tx`, encoded by
/// `serial_encode`.
pub fn puts(tx: &mut Vec<u8>, s: &str)
    ensures
        final(tx)@ == old(tx)@ + serial_encode(s.spec_bytes()),
{
    put_bytes(tx, s.as_bytes());
}

/// A formatting target that queues what it is given for the serial line.
pub struct Writer<'a> {
    pub tx: &'a mut Vec<u8>,
}

impl<'a> Writer<'a> {
    /// Queues `s` as `puts` does; never fails.
    pub fn write_str(&mut self, s: &str) -> (r: core::fmt::Result)
        ensures
            r is Ok,
            final(self).tx@ == old(self).tx@ + serial_encode(s.spec_bytes()),
            *final(final(self).tx) == *final(old(self).tx),
    {
        puts(self.tx, s);
        Ok(())
    }
}

/// The GPFSEL1 value that routes GPIO 14 and 15 to the Mini UART (function
/// ALT5, `0b010`, in bits 12..15 and 15..18) from the value `sel` read from
/// the register, all other pins' bits kept.
pub fn mini_uart_pin_select(sel: u32) -> (r: u32)
    ensures
        r == (sel & !((0b111u32 << 12u32) | (0b111u32 << 15u32))) | ((0b010u32 << 12u32) | (
        0b010u32 << 15u32)),
        (r >> 12u32) & 0b111 == 0b010,
        (r >> 15u32) & 0b111 == 0b010,
        r & !0x3_F000u32 == sel & !0x3_F000u32,
{
    let mut v = sel;
    v = v & !((0b111u32 << 12u32) | (0b111u32 << 15u32));
    v = v | ((0b010u32 << 12u32) | (0b010u32 << 15u32));
    assert((v >> 12u32) & 0b111 == 0b010 && (v >> 15u32) & 0b111 == 0b010 && v & !0x3_F000u32
        == sel & !0x3_F000u32) by (bit_vector)
        requires
            v == (sel & !((0b111u32 << 12u32) | (0b111u32 << 15u32))) | ((0b010u32 << 12u32) | (
            0b010u32 << 15u32)),
    ;
    v
}

/// Encoding `a` and then `b` is encoding `a + b`.
pub proof fn lemma_encode_concat(a: Seq<u8>, b: Seq<u8>)
    ensures
        serial_encode(a + b) == serial_encode(a) + serial_encode(b),
    decreases b.len(),
{
    if b.len() == 0 {
        assert(a + b =~= a);
        assert(serial_encode(a) + serial_encode(b) =~= serial_encode(a));
    } else {
        lemma_encode_concat(a, b.drop_last());
        assert((a + b).drop_last() =~= a + b.drop_last());
        assert((a + b).last() == b.last());
        let tail = if b.last() == LF {
            seq![CR, LF]
        } else {
            seq![b.last()]
        };
        assert(serial_encode(a) + serial_encode(b.drop_last()) + tail =~= serial_encode(a) + (
        serial_encode(b.drop_last()) + tail));
    }
}

/// Bytes without a line feed are sent as they are.
pub proof fn lemma_encode_without_lf(bytes: Seq<u8>)
    requires
        forall|i: int| 0 <= i < bytes.len() ==> bytes[i] != LF,
    ensures
        serial_encode(bytes) == bytes,
    decreases bytes.len(),
{
    if bytes.len() > 0 {
        lemma_encode_without_lf(bytes.drop_last());
        assert(bytes.drop_last().push(bytes.last()) =~= bytes);
    }
}

/// A line feed is sent as carriage return, line feed.
pub proof fn lemma_encode_line_feed()
    ensures
        serial_encode(seq![LF]) == seq![CR, LF],
{
    let b = seq![LF];
    assert(b.drop_last() =~= Seq::<u8>::empty());
    assert(b.last() == LF);
    assert(serial_encode(b.drop_last()) =~= Seq::<u8>::empty());
    assert(serial_encode(b) =~= Seq::<u8>::empty() + seq![CR, LF]);
    assert(Seq::<u8>::empty() + seq![CR, LF] =~= seq![CR, LF]);
}

/// The encoding holds one more byte than the input for every line feed, and
/// every line feed in it comes right after a carriage return.
pub proof fn lemma_encode_line_feeds(bytes: Seq<u8>)
    ensures
        serial_encode(bytes).len() == bytes.len() + bytes.filter(|b: u8| b == LF).len(),
        forall|i: int|
            0 <= i < serial_encode(bytes).len() && #[trigger] serial_encode(bytes)[i] == LF ==> i
                > 0 && serial_encode(bytes)[i - 1] == CR,
    decreases bytes.len(),
{
    if bytes.len() > 0 {
        let init = bytes.drop_last();
        lemma_encode_line_feeds(init);
        reveal(Seq::filter);
        assert(bytes =~= init.push(bytes.last()));
        let e0 = serial_encode(init);
        let e = serial_encode(bytes);
        assert forall|i: int| 0 <= i < e.len() && #[trigger] e[i] == LF implies i > 0 && e[i - 1]
            == CR by {
            if i < e0.len() {
                assert(e[i] == e0[i]);
                assert(e0[i - 1] == e[i - 1]);
            }
        }
    }
}

} // verus!
