# stormstorage

The storage control plane across Storm nodes and clusters, with its decisions
verified by Verus. It is never in the data path: it only calls the management
APIs of the stormblock engines.

## Layout

- `src/` is the verified library. It takes plain values and gives plain values
  back; what an engine is to be asked is a value (`engine::Call`,
  `orchestrate::Errand`), and what it answered is handed back in.
  - `text`, `names`, `json`, `double`, `clock`: texts, maps and sets in name
    order, JSON values, the arithmetic of free ratios, the time of day.
  - `config`, `model`, `events`: the configuration, the federation's state, the
    event ring.
  - `placement`: where a volume's legs go.
  - `inventory`: which slab each of an engine's volumes lives on, and tiers.
  - `engine`: requests to an engine and how its answers are read.
  - `registry`: polls, inventories, adoption of the local engine.
  - `orchestrate`: assembling a volume's legs, tearing them down, moving one.
  - `replicate`: what peers tell each other.
  - `api`, `components`: what is served, and creating and deleting volumes.
- `app/` is the program around it: the HTTP server and client, the files, the
  poll loop.
- `tests/` exercises the library with concrete values.

## What is taken on trust

The library believes, without proof, what it states of these functions:

- `str::to_lowercase`, `str::trim` and the `Debug` form of a `str` (`text`);
- `serde_json::to_string` of a string (`json`);
- `SystemTime::now`, of which it states nothing (`clock`).

Free ratios and readable sizes are those of IEEE doubles, computed on integers
(`double`).
