# nastalli

The verified core of the Nastalli x86_64 kernel, written in Verus.

- `src/kernel/task.rs` — fixed-capacity task table: monotonic identifiers,
  at most one running task, context and kernel-stack ownership.
- `src/kernel/scheduler.rs` — round-robin scheduling with a tick quantum
  (five ticks by default).
- `src/kernel/memory.rs` — linear 4 KiB frame allocator over the boot memory
  map; proofs that frames are aligned, lie in usable regions, are never handed
  out twice, and that exactly the counted usable frames are handed out.
- `src/kernel/heap.rs`, `src/kernel/mod.rs` — heap alignment, the bootstrap
  task table, the boot banner's pixel offsets.
- `src/arch/` — the GDT (built with the `x86_64` crate), PIC/PIT arithmetic,
  end-of-interrupt sequences, UART programming, the scancode latch, user page
  access rights, and the layout of fresh cooperative and preemptive frames.
- `src/hal/` — scancode set 1 decoding and serial line encoding.
- `src/tools.rs` — subcommand selection of the host build tool.

`app/` holds what cannot be verified: port I/O, loading the GDT and TSS,
programming the PIC and PIT, page mapping, inline assembly, the boot flow and
the host build tool, taking every decision from the library. It builds no
IDT: the interrupt gates need handlers in the unstable `x86-interrupt`
calling convention, which this toolchain refuses, so `app/` keeps only the
handlers' work. It has no boot entry point or panic handler (a `no_std`,
`no_main` image cannot be the host tool's root), does not install the
kernel heap as the global allocator of the host tool, and its `image`
command needs the `bootloader` crate, which is not a dependency here because
its build script compiles the bootloader binaries itself.
