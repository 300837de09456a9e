# auralis

The decision-making core of the Auralis music player, verified with Verus.

- `src/` is the library. Every function in it is verified against its
  `requires`/`ensures`: MP4 container forensics (`mp4`), download
  completeness and integrity checks (`completeness`, `validation`), the
  streaming and range top-up state machines (`stream`, `range`, `topup`),
  file-name and extension rules (`names`, `formats`, `paths`), the library
  scan: directory walking and exclusion (`walk`, `exclude`, `scanner`) and
  the step machine that decides what each root, file and stored record
  adds to the scan summary (`libscan`), the playback queue (`queue`) and
  the player's decisions around its audio output (`player`), peer
  bookkeeping (`network`), partial templates (`templates`), cover-art naming
  (`artwork`), record pruning (`prune`), `MediaStore` publishing (`publish`)
  and tag-write requests (`tags`). Laws that span several calls are stated
  as `law_*` proof functions next to the code they are about.
- Calls into other crates (`glob`, `rand`) and the few std functions vstd
  does not specify (Unicode lower-casing and letter classes, `Debug` quoting) go through small `#[verifier::external_body]` wrappers
  whose doc comments say what their contracts assume.
- `app/` is the unverified shell: the command line, file and network I/O
  (tokio, reqwest, lofty, symphonia, rodio), the track repository, and the
  loops that perform the actions the library's step machines decide, such as
  walking a directory or reading tags for each file a scan reports.
- `tests/` runs the library on concrete inputs.
