# reeos

The logic of ReeOS, a small hobby kernel, as a Verus-verified library, with
the kernel's hardware side around it.

- `src/fs.rs` — the RAM disk: at most 16 files, names cut to 32 bytes,
  contents to 512 bytes; create, read, delete, list, and the laws relating them.
- `src/vga_buffer.rs` — colors and color codes, and the writer that prints on
  the bottom row of a 25×80 text screen and scrolls it.
- `src/keyboard.rs` — scancode decoding and the line editor behind the prompt.
- `src/text.rs` — trimming (Unicode white space), searching and prefixes on bytes.
- `src/shell.rs` — what a typed line asks for, and what it does to the disk;
  the package manager's and calculator's commands.
- `src/install.rs` — the text of the installer's progress bars.
- `app/` — ports, the VGA buffer at 0xb8000, the global writer and disk, the
  waiting loops and the shell's messages.
