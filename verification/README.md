# uffd_pager

Demand paging and live capture of a VM's memory over Linux userfaultfd, with its decisions
verified by Verus.

- `src/` is the verified library. It computes page geometry, builds kernel requests, reads
  replies, frames messages and runs the state machines that resolve faults and capture memory.
  The laws in `capture_laws`, `consistency` and `source_laws` say what those machines come to: every
  page is captured exactly once and released only after its bytes were copied, what is copied is
  the memory of the moment that protection was armed, and a run of pages returns the number of
  leading pages that the kernel's replies show to be installed.
- `app/` makes the system calls, moves bytes over files and sockets and serializes message bodies.
- `tests/` runs the library on concrete values.

The only facts that this crate itself takes on trust are the values of `libc::EEXIST` and
`libc::EAGAIN` on Linux (`src/reply.rs`).
