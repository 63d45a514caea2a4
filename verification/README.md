# praxec_core

The core of a workflow gateway, verified with Verus: flows are state machines in JSON, and the
runtime moves instances of them from state to state, records every move before it is stored,
and stops where a decision is somebody else's.

## Layout

- `src/` is the library. Every function in it has a contract, and Verus proves it.
  - `json`, `json_text`, `pointer`, `text`, `path`, `sorting`, `scan`, `hashing`: documents, texts
    and digests.
  - `shared`: values that several handles lead to.
  - `model`, `run_env`: instances, audit entries, moments, and what a run works on.
  - `runtime`: start, submission, chains, guards, timeouts, cancellation, recovery and responses.
  - `slot`, `templating`, `skills`, `tier`: what definitions declare.
  - `repo_locks`, `repo_git`, `sandbox`, `store`: the rules around files, git, confined commands
    and stores.
  - `structural_fingerprint`, `fingerprint_laws`, `duplicate_laws`: which flows are the same
    machine.
  - `tool_catalog`: tools from several registries in one catalog.
- `tests/` runs the library.
- `app/` is the ordinary Rust around it: databases, files, git, processes, HTTP, and the loop that
  performs what the runtime asks for.

## How the runtime is written

What the runtime does reaches stores, executors and clocks, so its drives are written as functions
from a request and the replies so far to what is to be done next. Each of them is pure: called
again with one more reply, it names the next effect, or the end. A contract equates it with a
specification of the same shape, and the laws are stated over that specification. They hold for
whatever the outside answers.

Laws are the public proof functions whose names begin with `law_`.

## What is trusted

Calls of `chrono`, `globset`, `serde_json`, `sha2`, `uuid` and the standard library stand in small
functions marked `external_body`, or are given a contract by `assume_specification`. Each says in
its comment what is claimed of the call and what is left open.
