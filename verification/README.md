# dirt

`dirt` watches the file operations of the `shfs` file server and reports those
that succeed below a share of interest.

- `src/` is the core, verified with Verus: where the server's functions lie in
  its stripped binary, what the probes at the entry and the return of a file
  operation do step by step, and which share a path belongs to. The `elf` and
  `iced_x86` crates parse the file and decode its instructions; the contracts of
  `src/elf_file.rs` and `src/disasm.rs` say what is taken from them on trust.
- `tests/` runs the core on small binaries and on simulated probes.
- `app/` reads the installed binary and carries out the probes' steps in the
  kernel.
