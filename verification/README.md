# burrow

The decision logic of Burrow, a macOS cleaning and maintenance tool, as a
library verified with Verus.

- `src/` is the library. Every function there carries a contract that
  Verus proves: which paths may be trashed, deleted, browsed, scanned or
  replaced (`guard`), the grants that tie an action to what the interface
  listed (`grants`), what the system's tools print and the web services
  return, parsed into plain values (`updates`, `brew`, `network`, `status`,
  `apfs`, `json`, ...), the orders of every listing (`order`, with its
  laws), the commands run with administrator rights (`staging`, `settings`,
  `system`), and the duplicate finder's grouping (`duplicates`).
  The few calls into other crates (`serde_json`, `sha2`, `base64`, `uuid`)
  and into std sit behind small trusted functions whose contracts say what
  those crates document.
- `app/` is the macOS side: it reads the file system, runs the tools, and
  hands their output to the library. It holds what the library cannot:
  I/O, threads, floating-point metrics and the forecast of a filling disk.
- `tests/` runs the library on concrete inputs.
