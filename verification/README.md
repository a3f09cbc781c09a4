# Birb System Monitor

A system monitor with a dockable egui interface: CPU, memory, processes,
network and disk I/O, temperatures and Docker containers and images, read
locally or from a remote machine over SSH.

## Layout

- `src/` is the library, verified with Verus. It holds the decisions of the
  program with their contracts:
  - `backend`: routing of frontend commands to the collectors, the Docker
    endpoint state, and the system readings (memory, network and disk totals
    read through `sysinfo`);
  - `transport`: the newline-framed protocol between frontend and backend, its
    handshake, and the shell-safe remote command;
  - `utils`: the tick schedule of timed collectors;
  - `gui`: what the panels show — applying backend messages to the frontend
    state and its per-process histories, the process list (filter, sort,
    tree), the selected-process summary texts, the temperature chart's sensor
    selection, configuration sync and connection status;
  - `text`, `time`: decimal rendering, text search and order, and
    nanosecond-exact intervals.
- `app/` is the program around the library: command line, logging, the tokio
  runtime and channels, the collectors that read the machine and the Docker
  daemon, the SSH and stdio transport, serde, and the egui drawing, including
  everything that works with floating-point readings.
- `tests/` exercises the library from outside.

## Usage

```bash
cargo run --release
```

Add panels via the **panels** menu. Drag and rearrange tabs to your liking.
