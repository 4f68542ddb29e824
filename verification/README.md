# ssb64_utils

Verified tools for Super Smash Bros. 64 data files, written in Verus.

## Layout

- `src/` — the library, every function verified:
  - `bytes`, `pointers`: big-endian fields and the packed resource pointers
    of stage files.
  - `stage`, `music`, `stage_file`: the stage main file, read from and
    written to its binary form.
  - `stage_cli`, `paths`: what the stage tool's command line asks for, and
    the names of output files.
  - `collision`: collision points, planes, detections and spawn points; the
    JSON-side form (`formatted`), the buffer written by an import
    (`buffer`, `import`), the reading of an export (`export`) and the laws
    that relate them (`roundtrip`, `readback`).
  - `text`, `nemu`, `flat`, `nest`, `bass`: symbol files turned into Nemu64
    bookmark files, flat or nested in folders.
  - `order`: total orders, sorting and filtering of sequences that hold the
    same elements in another order.
- `tests/` — tests of the library on concrete values.
- `app/` — the command-line programs: argument handling, file I/O and the
  JSON forms of the library's types.
