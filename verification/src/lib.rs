//! The logic of a small Raspberry Pi 2 bare-metal shell: a text console that
//! renders an 8x8 bitmap font into a 32bpp framebuffer, the Mini UART output
//! encoding, the VideoCore mailbox property protocol, and the line-editing
//! shell with its commands.

pub mod font;
pub mod mailbox;
pub mod fb;
pub mod uart;
pub mod console;
pub mod hex;
pub mod shell;

use vstd::prelude::*;

verus! {

/// `core::fmt::Error`, the error type of `core::fmt::Result`, declared so that
/// the `write_str` methods of the formatting targets can return that result.
/// Nothing is claimed of its contents.
#[verifier::external_type_specification]
#[verifier::external_body]
pub struct ExFmtError(core::fmt::Error);

} // verus!
