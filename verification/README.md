# kernel_core

The hardware-independent core of the Generic OS kernel, written in Verus:
every function in `src/` carries a contract that Verus proves.

- `src/` — the library: the bootstrap frame allocator and the physical
  memory manager, the kernel heap, page-table cloning, ELF loading, ACPI
  MADT parsing and the APIC and virtio bring-up steps, input decoding, the
  scheduler and process table, the VFS with its RAM and on-disk (GenericFS)
  filesystems, the boot archive, the shell's commands and the desktop.
  Laws that span several calls are public proof functions named `law_*`.
- `app/` — the kernel binary around it: boot hand-off, serial log,
  descriptor tables, port and MMIO access, and the loops that carry out the
  steps the library decides.
- `tests/` — the library's tests, run against the compiled crate.

Steps that touch hardware are written as state machines (`start`, then
`advance` with the answer to each request), so the decisions are verified
and the I/O stays in `app/`.
