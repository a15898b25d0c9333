# idiomatic

Small Rust libraries whose behaviour is stated in `requires` / `ensures` contracts and
proved with Verus.

- `src/` is the verified library, one module per component:
  - `framecodec`: the header of a framed protocol, its byte encoding and the checked
    conversions from the fields an input wrote;
  - `limit`: a bounded limit read from decimal or JSON text;
  - `infersched`, `infersched_lite`: per-model queues of inference requests, with and
    without model retirement;
  - `admission`: an admission queue for generation requests;
  - `cfgtool`, `cfg_v1`: what a stored configuration file means;
  - `notes`, `sessions`: in-memory note and session stores;
  - `linefmt`, `text`: line wrapping, indentation and the character-level views of text they
    rest on.
- `tests/` runs the library on concrete inputs.
- `app/` is the ordinary Rust around it: the `cfgtool` command line, file reading and
  writing, and the JSON forms of the library's types.
