# rpi2_os

The logic of a bare-metal Raspberry Pi 2 shell, verified with Verus.

- `src/font.rs` — the 8x8 font type (95 printable ASCII glyphs).
- `src/fb.rs` — the framebuffer console: a model of the GPU framebuffer's
  geometry, text cursor and memory (bytes); glyph drawing, wrapping, scrolling,
  backspace and clearing; the mailbox request that allocates it and the
  reply that brings it up.
- `src/mailbox.rs` — the property-channel message and the mailbox word
  protocol.
- `src/uart.rs` — the serial output encoding (CR before LF) and the GPIO pin
  selection for the Mini UART.
- `src/console.rs` — the dual console: serial output queue plus framebuffer.
- `src/hex.rs` — hexadecimal parsing and `{:08x}` formatting.
- `src/shell.rs` — line editing and the commands `help`, `echo`, `clear`,
  `info` and `hex`.
- `app/` — the kernel around it: boot code, memory-mapped I/O for the Mini
  UART, the mailbox, the framebuffer memory and register reads, the glyph
  table, and the input loop.
