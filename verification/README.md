# tiny_os

The memory and task logic of a small RISC-V (Sv39) teaching kernel, written
in Verus and proved against its contracts.

Physical memory is a `PhysMemory` value (frames of 512 words), so page
tables, frame allocation, the walk from user to physical addresses and the kernel's bookkeeping
run and are proved as ordinary functions on plain values.

Layout:

- `src/mm/`: addresses, the frame allocator, the boot-time static page table
  (`static_table`), the dynamic Sv39 table (`page_table`), user and kernel
  address spaces (`user_set`, `kernel_set`), user buffers (`memory_set`), and
  ELF parsing through `xmas_elf` (`elf`).
- `src/task/`: threads, trap contexts, processes, signals, ids, the
  scheduler's queues and the life cycle of processes.
- `src/fs/`, `src/syscall/`, `src/trap.rs`, `src/sync/`, `src/user/`: pipes,
  the system-call dispatcher, the trap decisions, locks and semaphores, and
  the user library's pieces.
- `tests/`: tests that run the library on concrete values.
- `app/`: a hosted program that boots a simulated machine's memory, loads an
  ELF file into a fresh address space and gives the memory back.

Collections of `hashbrown` are kept behind trusted wrappers whose contracts
speak of their contents as maps; the calls into `xmas_elf` and
`virtio-input-decoder` are trusted wrappers too. Everything else is verified.
