# gameremap

A Linux gaming input remapper: per-game profiles, macros with millisecond
timing, modifier layers, and the extra buttons of gaming mice and keyboards.

The remapper's rules are a library verified with Verus; a thin command-line
program runs them against the devices.

## Layout

- `src/` — the verified library.
  - `config.rs`, `store.rs` — profiles, macros, assignments; file names and
    paths of the saved profiles and settings.
  - `keys.rs`, `text.rs` — key names and their reverse lookup; text helpers.
  - `engine/` — assignment matching, the remap state machine
    (`processor.rs`), macro scheduling (`schedule.rs`), the keys a session
    needs (`keysets.rs`), the engine log, the game scanner (`detect.rs`),
    and the laws that hold across events (`laws.rs`).
  - `drivers/` — HID report decoding for the Corsair K95, Logitech G502 and
    UTechSmart Venus, and which drivers to start.
  - `devices.rs`, `hidraw.rs`, `event_types.rs`, `monitor_view.rs` — how
    events and reports are shown, and the key monitor's rules.
  - `editor/` — the profile editor's rules: learned keys, recordings,
    assignment guards, edits and labels.
- `app/` — the `gameremap` program: command line, files, evdev and uinput,
  hidraw, threads and timers.
- `tests/` — tests of the library.

## Commands

The program runs in a terminal and has no windows. The profile editor's and
the key monitor's rules are in the library (`src/editor/`,
`src/monitor_view.rs`); the `profile` and `debug` commands apply them from
the command line, and profiles are edited as TOML files in the profiles
directory.

| Command | What it does |
|---------|--------------|
| `profile [--run NAME]` | Runs a profile, or switches profiles with the detected game |
| `debug [--mode capture\|log\|hid]` | Shows input events or raw HID reports |
| `monitor` | Prints what the remapper injects |
| `diagnose` | Prints devices and key name diagnostics |

Holding Escape for 7 seconds always stops the remapper.
