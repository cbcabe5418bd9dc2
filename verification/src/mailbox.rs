use vstd::prelude::*;

verus! {

/// A property-channel message: 36 words, the first holding the buffer size in
/// bytes, the second the request or response code, then the property tags and
/// a zero end tag.
pub struct Msg(pub [u32; 36]);

impl Msg {
    /// A message with every word zero.
    pub fn new() -> (m: Msg)
        ensures
            forall|i: int| 0 <= i < 36 ==> m.0@[i] == 0,
    {
        Msg([0u32; 36])
    }
}


/// The property channel, the one that carries requests for GPU services.
pub const CHAN_PROP: u32 = 8;

/// The response code that the GPU writes into word 1 on success.
pub const RESPONSE_OK: u32 = 0x8000_0000;

/// Status bit: the write mailbox is full.
pub const MBOX_FULL: u32 = 0x8000_0000;

/// Status bit: the read mailbox is empty.
pub const MBOX_EMPTY: u32 = 0x4000_0000;

/// The word written to the mailbox to send the message at `addr` (16-byte
/// aligned) on the property channel: the address with its low four bits
/// replaced by the channel number.
pub open spec fn request_word_spec(addr: u32) -> u32 {
    (addr & !0xFu32) | CHAN_PROP
}

/// Whether a word read from the mailbox answers the message at `addr`: it
/// comes on the property channel and names the same (aligned) address.
pub open spec fn is_reply_for(word: u32, addr: u32) -> bool {
    &&& word & 0xF == CHAN_PROP
    &&& word & !0xFu32 == addr & !0xFu32
}

/// The word that sends the message at `addr` on the property channel.
pub fn request_word(addr: u32) -> (w: u32)
    ensures
        w == request_word_spec(addr),
        w & 0xF == CHAN_PROP,
        w & !0xFu32 == addr & !0xFu32,
{
    let w = (addr & !0xFu32) | CHAN_PROP;
    assert(w & 0xF == 8 && w & !0xFu32 == addr & !0xFu32) by (bit_vector)
        requires
            w == (addr & !0xFu32) | 8u32,
    ;
    w
}

/// What a word read from the mailbox means while waiting for the answer to
/// the message at `addr`: `None` when it answers something else and the wait
/// goes on; otherwise whether the GPU reported success in word 1 of `msg`,
/// the buffer it wrote its answer into.
pub fn reply_outcome(word: u32, addr: u32, msg: &Msg) -> (o: Option<bool>)
    ensures
        o == (if is_reply_for(word, addr) {
            Some(msg.0@[1] == RESPONSE_OK)
        } else {
            None::<bool>
        }),
{
    if word & 0xF == CHAN_PROP && word & !0xFu32 == addr & !0xFu32 {
        Some(msg.0[1] == RESPONSE_OK)
    } else {
        None
    }
}

/// The only word that answers the message at `addr` is the very word that
/// sent it.
pub proof fn lemma_reply_is_request_word(word: u32, addr: u32)
    ensures
        is_reply_for(word, addr) <==> word == request_word_spec(addr),
{
    assert(((word & 0xF == 8u32) && (word & !0xFu32 == addr & !0xFu32)) <==> word == (addr
        & !0xFu32) | 8u32) by (bit_vector);
}

/// The request word carries the message address in its upper 28 bits and
/// channel 8 in its lower four; a read word answers the message exactly when
/// it is that word; the answer is success exactly when word 1 of the
/// message is `0x8000_0000` (see `reply_outcome`).
pub proof fn lemma_protocol(word: u32, addr: u32)
    ensures
        request_word_spec(addr) == (addr & 0xFFFF_FFF0u32) | 8u32,
        is_reply_for(word, addr) <==> word == (addr & 0xFFFF_FFF0u32) | 8u32,
        is_reply_for(word, addr) <==> (word & 0xF == 8 && word >> 4u32 == addr >> 4u32),
        CHAN_PROP == 8,
        RESPONSE_OK == 0x8000_0000,
{
    lemma_reply_is_request_word(word, addr);
    assert(!0xFu32 == 0xFFFF_FFF0u32) by (bit_vector);
    assert(((word & 0xF == 8u32) && (word & !0xFu32 == addr & !0xFu32)) <==> (word & 0xF == 8u32
        && word >> 4u32 == addr >> 4u32)) by (bit_vector);
}

} // verus!
