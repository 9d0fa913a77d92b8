# rust-term-console

A terminal console for SSH sessions and serial ports, in one native window.

- `src/` is the verified core, checked with Verus: the ANSI/VT100 escape
  stripper, the session log (capped, mirrored to a log file while logging,
  local echo of sent lines), the send queue and its write steps, newline
  modes, the SSH channel's read and write-retry decisions, the connect form
  and its profiles, the notebook's XML form, and the text helpers they rest
  on.
- `app/` is the program around it: the window (`eframe`/`egui`), the serial
  (`serialport`) and SSH (`ssh2`) transports, and the files (profiles in
  TOML, session logs, notebooks).
- `tests/` exercises the library.
