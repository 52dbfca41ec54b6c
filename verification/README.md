# ohl_engine

The game rules of an engine for GoldSrc-era maps, written in Verus: the
decisions and bookkeeping that sit between a loaded map and the host that
draws it, each stated in a `requires`/`ensures` contract and proved.

- `src/` is the verified library. Each module's own documentation says
  which rules it holds; the laws it proves are the public `proof fn`s
  (their doc comments state each law in words).
- `tests/` exercises the library on concrete values.
- `app/` is the host-side glue the rules are fed from: floating-point
  geometry (grid quantization, headings, turns, distances), the serialized
  forms of the save records, and the drivers that answer the rules'
  questions with collision measurements.
