# huseynos

The decision-making core of HuseynOS, a small x86_64 microkernel with its
drivers and window system in user mode, written in Verus: every function in
`src/` carries a contract that Verus proves.

## Layout

- `src/` — the verified library.
  - Memory: `frame` (bitmap frame allocator), `paging` (page-table walks:
    map, translate, unmap), `vma` (a process's address-space areas), `shm`
    (shared regions).
  - Processes: `process` (process table, exit), `scheduler` (round robin),
    `ipc` (bounded message queues), `syscall` (system call semantics, page
    faults), `loader` and `elf` (program images), `gdt`, `idt`, `pit`, `rtc`.
  - Files: `fat32` (the ramdisk's directory and files), `vfs` (descriptors).
  - Screen and input: `framebuffer`, `raster`, `font`, `console`,
    `console_driver`, `terminal`, `compositor`, `keyboard`, `mouse`, `shell`,
    `libhuseyn` (the user-side library's logic).
  - Properties that span several calls are stated and proved beside the
    code they speak of, as public proof functions: a page mapped leaves the
    others alone; a frame allocated and released gives the allocator back;
    over any run of allocations and releases the free count is the number
    of free frames; over any run of sends and receives the message queues
    deliver each accepted message once, in order; over any run of opens,
    reads, writes and closes the standard descriptors stay free and file
    positions stay within the files; the console's cursor cell stays on
    screen.
- `tests/` — tests on concrete values.
- `app/` — the unverified edge: the host tool that builds the FAT32 disk
  image, the kernel's start-up (loading the descriptor tables the library
  builds, the interrupt entry points), port I/O and device bring-up,
  page-table memory access (the library's walk runs on the tables copied in
  from memory), and the user-mode services' message loops, all calling into
  the library for their decisions.

## Checking

Verus verifies `src/`; the tests run with `cargo test`.
