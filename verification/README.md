# repolith

A declarative orchestrator for toolchains that are spread over several sibling git
repositories. One `repolith.toml` names the repositories and what to do with each:
`git-clone`, `cargo-install`, `docker`, or a nested stack (`repolith`). A sync plans
all actions in layers, skips whatever is up to date, runs the rest in parallel and
records what happened in a cache.

## Layout

- `src/` is the library. Everything that decides or computes is here, with contracts
  that Verus proves.
- `app/` is the program around it: the command line, subprocesses, the file system,
  the cache databases and the async runtime.
- `tests/` runs the library on concrete values.

## Modules

| Area | Modules |
|---|---|
| Values | `types`, `text`, `digest`, `order`, `idmap`, `clock` |
| Manifest | `manifest`, `checks`, `manifest_laws` |
| Plan | `graph`, `plan`, `plan_laws` |
| Run | `execution`, `orchestrator`, `progress`, `sync_laws` |
| Cache | `cache`, `rows`, `neo4j` |
| Actions | `command`, `steps`, `steps_laws`, `git_clone`, `cargo_install`, `docker`, `federation`, `factory` |
| Sources | `source`, `paths`, `source_hash`, `source_hash_laws`, `source_closure`, `closure_walk`, `closure_laws`, `metadata` |
| Command line | `cli`, `cli_progress`, `status`, `human` |

## How it works

Planning and running are state machines. `Planner` names the next layer of actions to
look at and takes what was found out about each; `Execution` names the next layer to
run, takes how each action ended, and says what to record and whether the others are
to be stopped. So are the actions: given the answers it got so far, an action says
what it wants to know next (a path, a file, the output of a program) or what it came
to. The program does the waiting in between. `steps_laws` proves that every action
comes to an end, that a failed command is the last one, and that nothing outside a
node's checkout is built or run.

An action is skipped only if the cache holds a success for its current input hash, its
artifact is on this machine, nothing it depends on runs again, and nobody forced it.
`plan_laws` proves that, and that every action comes after what it depends on.
`sync_laws` proves that a sync which came to its end leaves nothing to do for the
next one.

What an input hash depends on is stated as the exact bytes that go into it.
`cargo_install`, `docker`, `git_clone` and `source_hash_laws` prove which changes it
cannot miss. `closure_laws` proves that the walk over a package's local dependencies
ends, and that the digest of what it finds depends on the trees and workspace files
that can be reached from the package and on nothing else.

## What is trusted

A few small functions call other crates, and their contracts are believed: SHA-256
(`sha2`), hexadecimal text (`hex`), URLs (`url`), versions (`semver`), JSON
(`serde_json`), tables (`comfy-table`), the home directory (`dirs`), the number of
processors (`num_cpus`), cancellation tokens (`tokio-util`), the clock, and three
functions of the standard library on text. Each says in its comment what it claims.
