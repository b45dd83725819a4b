# syswatch

A terminal system monitor: processors, graphics cards, memory, disks,
network interfaces and processes, each in a panel, with keybinds and panel
colors that the user configures.

The library under `src/` holds the monitor's logic, written in Verus with
contracts and proofs:

- `state` — the monitor's state machine: what each key press does, the
  processor pages, list selections, the configuration menu and the color
  picker, and the properties that every key press keeps.
- `config` — keybinds, panel colors and the palette, conflict detection
  and the report of conflicting keybinds.
- `color_input` — reading a typed `R,G,B` or palette index.
- `format`, `display`, `text` — the texts and decisions that the panels
  show (percentages, titles, durations, units, vendors, versions).
- `samples` — bounded histories, the process list in order of memory use,
  matching fresh samples to devices, wrapping long texts.

`app/` is the program around it: the terminal, the sampling of the machine,
drawing, and reading and writing the configuration file.
