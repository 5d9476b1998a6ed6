# statusbar

The logic of an X11 status bar, verified with Verus.

- `src/util.rs` — whitespace trimming, decimal integer parsing, UTF-8 text.
- `src/modules/clock.rs` — the `HH:MM:SS` text of the clock.
- `src/modules/network.rs` — download rate from successive counter samples, link state.
- `src/modules/workspace/` — i3/sway IPC framing, socket discovery, the IPC thread's
  decisions, the hand-over of workspace lists to the bar, button styles.
- `src/tray.rs` — the system tray: docked icons, their layout on the bar, and the
  answers to the X events that concern it.

`app/` holds what talks to the outside world: cairo drawing, file and socket I/O,
the i3 JSON replies, libc's local time, PulseAudio, and the X11 requests of the tray.
