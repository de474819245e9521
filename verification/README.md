# dcp

A file copier with three engines: io_uring with registered fixed buffers,
buffered streams, and `copy_file_range`.

- `src/` is the verified library (Verus). It holds every decision the copier
  makes: interpreting kernel results (`io`), buffer geometry and layouts
  (`io`), the least-common-multiple block size and progress reporting
  (`util`), and one scheduler per engine that the program drives step by
  step (`iouring::RingCopy`, `stream::StreamCopy`, `syscall::SyscallCopy`).
  The io_uring scheduler carries an invariant that places every buffer in
  exactly one of four stages, and proves that, while reads complete in
  submission order, each block is written at the offset it was read from.
- `app/` is the program: argument parsing, tracing, file and ring setup, the
  system calls, and the loops that feed completions back to the schedulers.
- `tests/` exercises the library on concrete values.
