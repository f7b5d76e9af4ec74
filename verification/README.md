# vole

VOLE is a procedural video representation with an exact, integer-only
media domain, a byte rANS entropy floor and typed, hostile-safe parsers.
This crate is its library, written in Verus: every function carries a
`requires` / `ensures` contract and is proved against it.

## Layout

- `arith`, `time`, `pixel`, `object`, `state`, `trajectory` — the scalar
  domain: checked arithmetic, ticks, pixels, drawable objects, the
  committed render state and motion trajectories.
- `rans` — the byte rANS coder; encoding then decoding gives the input back.
- `integrity` — BLAKE3 and SHA-256 digests (through the `blake3` and `sha2`
  crates).
- `store` — content-store payload framing.
- `media` — the canonical video domain:
  - `time`, `layout`, `color`, `meta`, `plane`, `epoch`, `picture` —
    rational time, pixel layouts and plane geometry, colour and picture
    interpretation, sample planes, epochs and observations;
  - `procedural` — plane programs (objects, instances, overlays, interval
    ops) and their exact replay;
  - `ingest`, `encode`, `gen`, `global` — exact ingest of observed
    pictures, the encoder's family fits and byte model, the sealed
    generator and global-motion records;
  - `wire` — the multi-plane container: writer and parser, with the
    parser accepting only canonical encodings;
  - `bridge` — import of decoded sources: NUT demuxing, frame
    canonicalisation, the framehash oracle, prober output and the import
    plan.

Running external tools, file I/O and the command line are outside this
library: the bridge functions take the tools' output bytes as arguments.
