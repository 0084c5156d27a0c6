# spikeling-os

The decision-making core of a small x86_64 kernel, written in Verus. Everything that the
kernel computes from plain values -- its file system, its processes and their system calls,
its scheduler, its console, its shell -- stands in `src/` with a contract, and Verus proves
the contracts. What touches hardware stands in `app/` and does what the core decides.

## How it works

A function of the core never performs input or output.

- Where it needs a sector of the drive or a register of a device, it answers `Step::Need`
  with its address and has changed nothing. The caller reads it, adds it to a cache, and asks
  again.
- Where something is to be done outside, it says what: sectors to write, pages to map, a page
  table to load, a context to switch to.

## Layout

- `src/text.rs`, `numbers.rs`, `bytes.rs`, `search.rs`, `step.rs` -- what the rest is written
  in terms of.
- `src/disk.rs`, `fs.rs`, `fs_laws.rs` -- the drive's sectors, the file system on them, and what
  holds of any sequence of its operations.
- `src/elf.rs`, `process.rs`, `address_space.rs`, `usertest.rs`, `process_laws.rs` -- executables,
  processes, building their address spaces, system calls.
- `src/reports.rs`, `build_reports.rs` -- what is reported on them on the serial console.
- `src/scheduler.rs`, `tasks.rs` -- which task runs next, and the life of tasks.
- `src/console.rs`, `mouse.rs`, `keyboard.rs`, `command.rs`, `replies.rs`, `shell.rs`,
  `shell_laws.rs` -- the screen, input, and the shell.
- `src/ata.rs`, `pci.rs`, `speaker.rs`, `interrupts.rs`, `memory.rs`, `allocator.rs`,
  `neurons.rs` -- the decisions behind the devices.
- `tests/` -- examples of all of this on concrete values.
- `app/` -- a runner for QEMU, the hardware layer, and programs for ring 3.

Names that begin with `law_` are public proof functions: each states one property of the
library as a whole.
