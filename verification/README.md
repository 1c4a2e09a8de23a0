# orbistoun_gpu

A guest GPU's command streams, decoded into what a host backend needs, with the decoding proved
against its specification by Verus.

- `src/packet.rs` walks a submitted buffer into packets; `src/packet/build` writes them, and a
  built command is proved to walk back to the packet it stood for.
- `src/registers.rs` pulls register writes out of the packets, reassembles shader addresses,
  decodes draws, dispatches and fixed-function state, and correlates each draw with the shaders
  live at it. `RegisterSweep` answers per-draw lookups in one pass.
- `src/tiling.rs` detiles and tiles `64KB_R_X` surfaces; the swizzle is proved a bijection and
  tiling then detiling proved to give the image back.
- `src/cp.rs` carries out the command processor's own memory work, proved to stop at the first
  packet it cannot carry out and to count exactly the work before it. A memory that keeps a record
  of the requests made of it (`CpMemory::requests`) is proved to have been asked, in order, exactly
  what each packet planned up to the stop and nothing after it - the stream's draws at most once,
  never when memory work sits between them.
- `src/guest.rs` models guest memory as a map from mapped addresses to bytes, read and written a
  dword or a quadword at a time; a read proves to give back what was stored, and a store to
  leave everything else alone. `GuestRegion` is one contiguous run of it.
- `src/agc.rs` answers the graphics library's calls over that memory: shader objects relocated in
  place, the shader-linkage tables written, and command packets appended through the guest's
  writer handle, each call's answer and effect stated exactly. `src/lib.rs` does the same for the
  previous generation's two dispatch builders.
- `src/agc_driver.rs` hands a drawer a colour target's contents and writes the drawn frame back
  tiled, in the target's byte order; `src/lazy_copies.rs` defers a copy of a flipped frame until
  something reads or writes where it lands, and keeps the protected ranges apart.
- `src/pipeline.rs` reconciles the registered and the inferred shader addresses, reads textures
  and shader windows out of guest memory, caches texels by content - serving held texels only
  where the host's write watch answered that nothing wrote them - binds each draw's textures, and
  emits the draws and dispatches a submission's commands end with; `src/backend.rs` and `src/render.rs` drive a backend through a frame.
- `src/lib.rs` holds the content hash, proved to give the same value however its words are fed;
  `src/perf.rs` the counters.

`app/` is the embedder's side: loading the vocabulary file (TOML), the process-wide counters and
their clocks, the viewport transform as floats, and the error types' messages. `tests/` runs the
library on concrete streams and surfaces.

What is not here: preparing a shader - decoding its instructions, translating them for the host
and keying the translation cache - needs the shader decoder and translator crates, which this
project does not have, so `Pipeline` itself and the driver's guest entry points that run it
(`submit_dcb`, `submit_command_buffer`, the timed submit, `install_draw_executor`, `execution`,
`last_submission_report`, `take_last_submission`, and the driver's table of implemented calls)
are left out. Those entry points are process-wide state around that pipeline; the decisions they
take - which draws run, where a frame is written back, what a copy defers - are the verified
functions above.
