# aether

The logic of the Aether x86_64 kernel as a library verified with Verus,
and the kernel binary around it.

- `src/` is the verified library: the USTAR archive reader and file lookup
  (`fs`, `vfs`), the framebuffer text renderer (`display`), the physical
  frame allocator, the memory-map size and the direct-map address
  translation (`memory`), the register values of the local APIC, I/O APIC,
  HPET and TSC-Deadline timer (`drivers`, `acpi`), the kernel command-line
  configuration and log filtering (`config`, `log`), the keyboard decoding
  (`drivers::input`) and the line editing of the interrupt handlers
  (`interrupts`). Each public function
  states what it returns in its `ensures`; the laws that relate several
  calls are public proof functions beside them.
- `app/` is the kernel itself: the Limine boot requests, memory-mapped and
  port I/O, the descriptor tables, the interrupt handlers and the ACPI
  discovery, all handing plain values to the library and acting on what
  it returns.
- `tests/` runs the library on concrete inputs.
