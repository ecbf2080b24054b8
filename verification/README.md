# rine

The decision logic of Rine, a runtime that runs Windows x86-64 programs on
Linux, and of its tooling: the NT object, file and memory services, the
module registry behind `GetProcAddress`/`LoadLibrary`, the PE loader's
relocation and import fix-ups, the manager's app library and run reports,
and the differential test harness (generators, models, comparison,
normalization, minimization, campaign reports).

Every function in `src/` is verified with Verus against its contract.
Host work (mapping pages, opening files, spawning processes, reading and
writing JSON) is done by the command-line front end in `app/`, which hands
the library plain values and takes its decisions back.

Layout:

- `src/` — the verified library, one module per service or tool.
- `tests/` — tests of the library from outside.
- `app/` — `rine-app`, the command-line front end (`differential`, `fuzz`,
  `reproduce`, `minimize`, `corpus`, `report`, `coverage`, `api-coverage`,
  `registry`, `run`, `settings`, `runtime`, `capsule`).

What this build cannot do: cases that run a guest program need the PE guest
builder and the runtime, which are not part of it. So `differential fileops`,
`fuzz pe`, and `reproduce` and `minimize` of a fileops case stop at once with
an error, and `corpus` skips fileops cases. Their decisions (the file model, its verdicts and its
coverage) are in `src/` all the same. `run` spawns the runtime without
checking the capsule's TOML first, and `api-coverage` reads an API database
that was written elsewhere, since the PE scanner is not part of this build.
