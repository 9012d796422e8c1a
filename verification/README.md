# ferrite

The memory management, process and screen logic of the Ferrite kernel as a Verus library.

- `src/mm`: the buddy frame allocator (`pmm`, `free_lists`, `bits`), virtual memory areas
  and address spaces (`vma`, `address_space`, `vmm`, `user`), four-level x86_64 paging over
  a model of the page table memory (`paging`), and the boot mappings.
- `src/sched`: ELF64 validation, processes, the process table, spawning a process, and the
  pieces in which a segment is copied into the frames that map it.
- `src/screen`: a pixel framebuffer, PSF2 fonts, text drawing with scrolling, and the panic
  screens with the guard against entering a panic path twice.
- `src/state`: the early-boot state, the CPU selectors and the memory-management state.
- `app`: the glue that needs hardware or the bootloader: Limine data, CR3 and the TLB,
  the heap allocator, copying pixels and page tables to memory, and halting on a panic.
- `tests`: tests of the library on concrete values.
