# amia

The core of a small RISC-V (Sv39) kernel as a verified library: physical
memory and its page allocator, three-level page tables, ELF images, the
process table and its round-robin scheduler, a lock, split virtqueues with
their DMA buffers, ARP requests, system-call decoding and the user shell's
line discipline.

- `src/` — the library; every function carries a contract that Verus proves.
  `mem` (RAM as bytes, `alloc_pages`), `paging` (`map_page` and the table
  model), `elf`, `process`, `mutex`, `virtio`, `virtio_net`, `net::arp`,
  `trap`, `sbi`, `shell`, `util`.
- `tests/` — scenario tests of the library.
- `app/` — a hosted runner: RAM is a buffer, the console is standard input and
  output, and the shell runs as the user program.
