# dscode

The logic of a Windows desktop launcher for a bundled command-line harness, verified
with Verus:

- `src/cmdline.rs`: MSVC quoting of command-line arguments and the UTF-16 command line;
  proved to read back as exactly the program and arguments given: the program name by
  its own rule (no backslash escapes; for names with no `"` that, where quoted, do not
  end in a backslash), each argument by the MSVC rules.
- `src/env_block.rs`: the environment block of a child process; variable names match
  without regard to ASCII case, and setting a variable replaces instead of duplicating.
- `src/version.rs`: reading `node --version` and the Node.js compatibility rule.
- `src/runtime.rs`, `src/cli.rs`, `src/cores.rs`, `src/lifecycle.rs`: the decisions
  behind the runtime report, the data directory, the command-line entry and start-up.
- `src/text.rs`, `src/utf16.rs`: string helpers (trimming, searching, UTF-16).

`app/` holds the file-system, process and environment access around the library,
including the Windows-only process creation.
