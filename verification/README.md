# koshelf

The logic of KoShelf, a reading companion for KOReader, as a verified library: what it reads
from KOReader's `metadata.*.lua` sidecar files and statistics snapshots, how it edits sidecar
tables and writes them back in KOReader's `dump()` format, how it reads EPUB, FB2 and comic
book metadata, and how it computes reading statistics, streaks, calendars and yearly recaps.

- `src/` is the library, verified by Verus against the `requires`/`ensures` contracts of its
  functions; the calls into outside crates (quick-xml, chrono, chrono-tz, ammonia,
  md5, base64) stand behind small trusted wrappers whose doc comments say what is assumed
  of them.
- `app/` is the ordinary Rust around it: reading and writing files, evaluating Lua sidecar
  files (under a bound on their steps), walking folders, opening
  archives, and the conversions that need floating point.
- `tests/` runs the library on concrete inputs, with the real outside crates linked.
