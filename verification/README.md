# gipbridge

Reads a wired GIP (Xbox One style) controller over USB and drives Dolphin's
pipe input backend.

- `src/` — the verified library (Verus): GIP report decoding and payload
  layout detection (`gip`), id parsing for `--vid`/`--pid` (`cli`), the table
  of known controllers and the order plugged devices are tried in
  (`controllers`), interface/endpoint selection (`usb`), button mapping and
  `PRESS`/`RELEASE` commands (`mapping`), and the pipe path (`dolphin_pipe`).
- `app/` — the program around it: argument handling, USB and FIFO I/O, and
  the floating-point stick/trigger mapping and layout scoring.
- `tests/` — runtime tests of the library.
