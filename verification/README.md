# makcu-rs

Host-side library for MAKCU devices, verified with Verus.

- `src/km/` — the `km.*` command protocol: the text of every command,
  the button byte, and `Link`, the host side of the serial exchange
  (command framing, tracked commands and their replies, streamed lines and
  button states), with `SentLog`, the one log of sent commands that filters
  the device's echoes, plus raw dumps and port choice. Every line that
  arrives while no command waits is streamed as it is.
- `src/sigtap/` — the SIGTAP timestamp records on the keyboard firmware's
  debug serial: CRC16, the resynchronising stream parser, and its laws
  (records are the same however the stream is split; a stream of framed
  records reads back as exactly those records; the CRC of data followed by
  its own CRC is zero).
- `src/latency/` — the keyboard-latency meter's logic: pairing firmware taps
  with host HID reports, the clock-beacon history, the host timebase, the
  command line and the start-up decisions.
- `app/` — what runs around the library: serial ports and threads, the
  device handles (blocking and tokio), the floating-point clock fit and
  statistics, IOKit HID capture, and the command-line tools.
- `tests/` — tests of the library on concrete values.
