# A verified hobby kernel's logic

This crate holds the decisions and data structures of a small x86-64 kernel, written in
Verus and proved against their contracts:

- `memory/pmm.rs`: the physical frame allocator (first fit above low memory, a sorted
  table of allocations, per-process accounting);
- `interrupts/`: the task table and scheduler, the interrupt descriptor table, the
  keyboard interrupt's decisions, and the system call layer (decoding, path resolution,
  file, pipe, window and memory calls);
- `fs/`: the ext2 file system (block maps up to triple indirection, directories, inode
  and block allocation, formatting), the virtual file system and its descriptor tables,
  pipes, and the ELF loader (header parsing, image sizing, segment placement, relocation
  values, segment copying);
- `window_manager/`: the window table and its depth order, event queues, the pointer and
  drag/resize state machine, and the repaint plans (dirty rectangles redrawn back to front
  from the first opaque window);
- `drivers/`: keyboard scancode decoding and the real-time clock's time of day;
- `printf.rs`, `libc.rs`: the formatting core and the string routines of the C library.

Device access (ports, disks, the framebuffer) is not part of the library: where a
function would touch hardware, it takes the values read and returns what is to be
written or done.

`tests/` runs the library on concrete values.
