# githelper

A library of safe, reviewable Git operations, verified with Verus: uncommitting
paths from a branch's history, editing commit messages, reverting paths,
cleaning up dirty submodules, splitting changes onto a new branch, switching
branches with Saved work, and moving the checkout back in history. Each write
operation is planned first (the plan lists the exact commands it will run),
checked against the repository again before it runs, and recorded in an
operation log from which every reversible operation can be undone.

## Layout

- `src/` — the verified library.
  - `git.rs` — Git commands and the `GitRunner` host trait: running `git`, the
    file system, the clock. Nothing is assumed of what a runner returns.
  - `host.rs` — `Host`, the only way to the runner: it keeps, as ghost state,
    every request made (each command with its arguments, each read and write
    of the log) and what Git printed for each command that succeeded.
    Contracts state which requests a function makes and what it made of the
    answers: the exact commands of a submodule sync, a plan that holds only
    where the state read again matches it, the commits of the Editable range
    as Git listed them, the record a write operation logs when it begins and
    when it finishes, or that a plan refused as stale was refused after reads
    only. `GitRepository` exposes the trace and the answers as spec functions,
    so its own contracts speak of them too.
  - `inspection.rs` — changed paths and dirty submodules, read from Git's
    output.
  - `text.rs`, `order.rs`, `map.rs` — strings, the byte order of paths, and
    `PathMap`, a map kept sorted by name.
  - `recording/` — the operation log and the recovery command of each entry.
  - `rewrite/` — reading commits and trees, planning and materialising
    history rewrites.
  - `revert/`, `submodule_cleanup/`, `split/`, `switch/` — the operations.
  - `repository.rs` — `GitRepository`, the entry point; writes hold the
    repository's lock.
- `tests/` — tests of the library, with a scripted runner.
- `app/` — the host: a `GitRunner` that runs the real `git`, the JSON
  operation log, and error types with user-facing messages.
