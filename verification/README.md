# aao_os

The A.A.O operating system: a UEFI bootloader and an x86-64 microkernel, with
the logic of both written in Verus and proved against its contracts.

Layout:

- `src/` — the verified library.
  - `bootloader/elf_loader.rs` decodes the kernel's ELF header and program
    headers from the bytes read off the boot volume, selects the loadable
    segments and builds each segment's memory image.
  - `kernel/isolation/` holds capabilities, IPC messages and endpoints, ring-3
    domains, supervised services and the round-robin scheduler.
  - `kernel/memory/frame_allocator.rs` hands out 4 KiB frames of conventional
    memory from a copy of the firmware memory map.
  - `kernel/arch/x86_64/paging.rs` maps pages in a four-level page-table
    hierarchy held as a map from frame address to table; `idt.rs` builds
    interrupt gates; `apic.rs` reads the APIC base.
  - `kernel/graphics.rs` draws into a shadow framebuffer, including the dragon
    emblem; `kernel/syscall.rs` dispatches system calls.
- `app/` — the glue Verus does not see: firmware file access and page
  allocation, port and MSR I/O, loading the GDT, IDT and TSS, interrupt and
  system call entry points, the floating-point aura gradient, and copying the
  shadow framebuffer and page tables to and from physical memory.
- `tests/` — tests of the library on concrete values.
