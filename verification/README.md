# bagua_os

The kernel library of BaGua OS, an x86_64 kernel whose scheduler hands out
per-slot CPU quotas from an impedance matrix between eight device slots.

`src/` holds the parts with proved contracts:

- `kernel::pagetable` — four-level page tables (map, unmap, translate) and the
  laws relating them;
- `kernel::memory` — Jiuzhou logical addresses and their round trips;
- `kernel::process`, `kernel::elimination`, `kernel::fork_exec` — the process
  table, audit rounds, fork / reap;
- `kernel::interrupt` — the pending-interrupt FIFO (kept in a `heapless::Vec`);
- `kernel::vfs` — the open-file table (kept in a `heapless::Vec`);
- `kernel::task_gate`, `hal` — task classes, strategies, device classes;
- `machine` — the kernel image's bump allocator, ELF loader, system-call table,
  interrupt vectors, boot headers and console report.

`app/` is the user-space simulator and the bare-metal glue: port I/O, the
interrupt table, and everything computed in floating point (polarity vectors,
impedances, quality scores, logic pressure).
