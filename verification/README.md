# SceneWeaver core

The decision-making core of SceneWeaver, a local-first media search and
selects workspace for creators, written in Verus: the functions in `src/` carry contracts that Verus
proves. The exceptions are the calls into `std` and outside crates, whose
contracts are trusted, and the shared job-control flags (`JobControl`),
whose values other threads change and which therefore have no contract.

## Layout

- `src/` — the verified library.
  - `models.rs`, `errors.rs`: records, persisted names and their round trips.
  - `search.rs`, `ranking.rs`, `order.rs`, `entities.rs`, `semantic.rs`: the SQL
    a search runs, how candidates are merged, explained, ranked and rotated
    across libraries, which entities a query names, and the CLIP prompt.
  - `export.rs`: CSV, JSON records, EDL, FCPXML, HTML contact sheets, file URIs
    and base64.
  - `jobs.rs`, `requests.rs`, `collections.rs`: the job state machine, new
    records built from requests, select ordering and library rebasing.
  - `scan.rs`, `cache.rs`, `probe.rs`, `video.rs`: what a scan does with each
    file, cache paths, probe and EXIF timestamps, shot splitting, FFmpeg
    arguments and the subtitle/HUD frame hints.
  - `text.rs`: the string primitives the rest is proved with.
- `app/` — the program around the library: SQLite storage, the file-system
  walk, FFmpeg/ffprobe processes, image decoding, floating-point image
  features, the job worker thread and export file writing.
- `tests/` — executable tests of the library.

Public proof functions named `law_*` state properties that hold across
calls, such as that a persisted name reads back as the same value, that a
shot list tiles the whole video, or that reordering a collection keeps its
positions a permutation.
