# arca

The rules of a host for sandboxed applications, verified with Verus: how
packages are signed, checked and installed, how processes are launched and
watched, what the registry records, and how frames are drawn.

- `src/types` – identities, capabilities, digests, errors, protocol versions
- `src/sign` – the package digest, the ring of trust, signatures, verification
  while extracting
- `src/pkg.rs`, `src/installer` – packages; installing, updating, rolling back,
  sweeping up after crashes
- `src/store` – rows, grants, queries, migrations and transactions of the
  registry
- `src/exec_abi`, `src/exec_native` – the life of an instance; launching,
  filtering and watching native processes
- `src/rt` – the runtime inside an application
- `src/ui` – canvas, font, widgets, input, frames
- `app` – files, the database, processes and channels around the library
- `tests` – the library from outside

What a function does is stated in its contract, and what holds across functions
in the proof functions whose names begin with `law_`.
