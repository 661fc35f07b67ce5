# nobd

Two buttons that a player presses together land a few milliseconds apart. A game that
reads its controller once per frame can read one before the other, and a dash becomes a
stray jab. This library holds a fresh attack for up to the sync window and hands it on
together with its partner.

- `src/` is the library, verified with Verus: the sync window and its laws
  (`sync_window`, `sync_laws`, `sync_history`), the latches of a game hook (`game_window`,
  `hook`, `latched`), the Linux daemon's logic (`engine`, `evdev`, `bulk`, `uinput`, `uapi`,
  `config`, `ctl`, `cli`, `rt`, `source`), the virtual controller (`report`, `gip`,
  `channel`, `controller`, `names`, `registry`, `install`, `upgrade`), and the desktop
  program's logic (`input`, `scan`, `hid`, `winusb`, `stats`, `tester`, `monitor`,
  `screen`, `notices`, `tray`, `setup`, `hidhide`, `gameinstall`, `persist`, `sync_service`, `telemetry`,
  `updater`, `logo`).
- `tests/` runs it.
- `app/` is the programs around it: what talks to the kernel, to Windows, to the network
  and to the screen.
