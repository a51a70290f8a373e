# kiln

kiln runs pipelines of targets hermetically: each target's run block is
executed in a sandbox, its result is cached under a content-addressed key,
and independent targets are scheduled in parallel waves.

The crate is written in Verus.

- `src/` is the verified library: pipelines and their validation, the wave
  planner (Kahn levels over a `petgraph` graph, then the split of each wave
  by declared conflicts and exclusive resources), BLAKE3 content hashes and
  cache keys, the checks a cache lookup applies, the fetch digest check, the
  bind-mount plan of the sandbox, and the bookkeeping of an execution run.
  `plan_laws.rs` states and proves what every plan guarantees.
- `app/` is the command-line program around it: argument parsing, the
  on-disk store, JSON manifests, process spawning, namespaces and mounts.
- `tests/` exercises the library through its public interface.
