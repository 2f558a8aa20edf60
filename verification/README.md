# lv2-atom

General data IO for LV2 plugins: reading and writing *atoms*, the self-describing,
8-byte aligned records (a 32-bit body size and a 32-bit type URID, then the body) through
which LV2 hosts and plugins exchange events and values.

The library is written in Verus. Its functions carry `requires`/`ensures` contracts over a
mathematical model of the buffers they work on, and Verus proves them.

## Layout

- `src/encoding.rs`, `src/header.rs` — the byte encoding of stored values and of the atom
  header.
- `src/space/` — buffers and the writers and readers over them: a cursor over a caller's
  slice, a growable aligned vector, writers that track the size of the atom they write,
  writers that keep a terminator byte, and a reader of values and atoms.
  `space/model.rs` is the model the writer contracts are stated in: the whole buffer, the
  number of allocated bytes and the positions of the headers of the atoms still being
  written.
- `src/atoms/` — the standard atom types: scalars, chunks, vectors, tuples, objects,
  strings and literals, and sequences of time-stamped events.
- `src/atom.rs`, `src/atomspace.rs`, `src/frame.rs`, `src/space/list.rs` — the older
  iterator, space, writing-frame and chunk-list interfaces.
- `src/port.rs`, `src/buf_size.rs` — atom ports and the host's buffer sizes.
- `src/laws.rs` — properties that relate operations to each other, such as reading back
  what was written.
- `app/` — what touches raw host pointers, floating point values and the plugin
  framework's traits.
- `tests/` — tests of the library on concrete values.

Writers borrow what they write into. Every writer operation keeps what that borrow will
finally hold, so once a writer is no longer used, the writer or buffer it borrowed is known
again: a cursor leaves its bytes in the caller's buffer (`SpaceCursor::lemma_resolved`), and an
atom writer leaves its parent well formed with the atom's bytes (`AtomWriter::lemma_resolved`).

Positions in a buffer are counted from its start, which is taken to be aligned for every
atom type; floating point values are held by their bit patterns.
