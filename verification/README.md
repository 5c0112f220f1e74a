# displays

Query and update logical displays (enabled state, orientation, layout) and physical monitors
(brightness) on Linux and Windows.

The library in `src/` is verified with Verus: its public functions carry `requires`/`ensures`
contracts, and the properties the library relies on are stated and proved as `law_*` proof
functions. The operating-system calls live in `app/`, which drives the library.

## Layout

- `src/types.rs`, `src/display.rs`: identifiers, displays and update requests; subset matching
  of identifiers.
- `src/matching.rs`: pairing logical displays with physical monitors (connector, serial number,
  manufacturer and model, then name; only unique matches are accepted), and the path-prefix
  pairing used on Windows.
- `src/manager.rs`, `src/session.rs`: assembling displays, looking them up by identifier, and
  applying updates one outside call at a time, with one result per requested update.
- `src/physical_linux.rs`, `src/backlight.rs`: DDC/CI monitors and sysfs backlight devices on
  Linux: metadata, sorting, routing brightness writes, and classifying failures.
- `src/logical_windows.rs`, `src/monitors.rs`: the Windows display configuration: distinct
  logical displays in ascending order, the update plan over configuration paths, the path/mode
  tables, and the monitor shown by a path.
- `src/astal.rs`: the plain data handed to the GObject bindings, the fake backend, and the
  conversion of the real managers' results.
- `src/commands.rs`: what the `query` command prints.
- `src/text.rs`, `src/order.rs`: text helpers (normalisation, hashing, number formatting) and
  the orders of physical metadata and of logical displays.
- `app/`: the command line and the platform I/O (ddc-hi, sysfs, the Windows display API).
- `tests/`: tests of the library on concrete values.
