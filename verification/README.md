# LAST

A portable, Scoop-compatible package manager for Windows, written as a
verified library and a thin command-line program.

- `src/` is the library, verified with Verus: manifest resolution per
  architecture, hash specifications and digests, download sources (local, HTTP, FTP), configuration and dotted
  keys, bucket lookup order, install/uninstall decisions, persist links,
  shims, mirroring to a binary share, exports, Scoop migration, script
  dispatch and the log format. Each public function states in its contract
  what it returns; the laws the library keeps (such as "a mirrored
  manifest installs from the share" or "removing an added `PATH` entry
  restores `PATH`") are proof functions.
- `app/` is the `last` program: argument parsing, reading and writing
  files, HTTP and FTP transfers, unpacking archives, links, the registry
  and the Rhai script engine. It takes the library's plans and steps (what
  to download and how, the steps of an FTP session, what a mirror run
  does, what an uninstall removes) and carries them out; what stays in it
  is I/O and its order, such as reading a multi-line FTP reply, walking
  directories and which file operations follow each other.
- `tests/` runs the library on concrete values.
