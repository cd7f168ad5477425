# kboot

The logic of a small x86 bootloader, verified with Verus.

- `src/fat.rs`: FAT16 boot sector, root-directory search for `KERNEL.BIN`,
  FAT chain walk and file loading, over a caller-supplied sector reader.
- `src/ata.rs`: validation and register values of an ATA PIO READ SECTORS
  command, and the status-register tests.
- `src/debug_text.rs`: the byte writes of early debug output.
- `src/vga_video_buffer.rs`, `src/vga_buffer.rs`: the 80x25 text screen model
  (bottom-row writing, scrolling, colours).
- `src/lib.rs`: the ELF header types.
- `app/main.rs`: the hardware side (port I/O, memory-mapped writes, the jump
  to the kernel), which follows the library's decisions.
- `tests/`: tests on concrete disk images and screens.
