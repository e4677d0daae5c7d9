# wasmtime_mmap

Page-granular memory mappings, verified with Verus.

- `src/page.rs`: rounding a size up to a page multiple, with its laws.
- `src/mmap.rs`: the `Mmap` value (address and length) and the reservation
  protocol. `Mmap::with_at_least`, `Mmap::accessible_reserved` and
  `MapRequest::mapped` / `CommitRequest::committed` decide, step by step,
  what the system must map or protect and what comes of its answers;
  `Mmap::make_accessible` checks a range and says what to protect.
- `app/lib.rs`: the system calls (`mmap`, the code allocator, `region::protect`)
  and the loop that feeds their results back to the protocol.
