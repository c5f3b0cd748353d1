# ggg

The core of a small game engine, written in Verus: the logic is verified against its contracts, and what talks to
threads, files and floating-point values stands around it.

- `src/` is the verified library:
  - `time`, `timing`, `clock`: nanosecond instants and offsets, timers, and stopwatches on the monotonic clock;
  - `run`: the timing decisions of the main loop (frames, fixed-duration update steps, resizes);
  - `job_queue`: jobs with dependencies; `job_queue::manager` decides what to run, what to notify and what to
    remove, keeping its dependency graph (petgraph) and its queues (hashlink) consistent: an added job enters
    the graph with an edge to each of its dependencies and is handed out with its input, and it is ready to run
    only once every dependency completed;
  - `screen`, `input`, `cursor`, `camera`: physical screen coordinates, input buttons, cursor icons, camera kinds;
  - `list`, `reset`: type-level lists and the resets folded over them;
  - `texture_def`: collecting the layers of a texture array;
  - `shader_include`: finding and splicing `#include` directives of shader sources.
- `tests/` exercises the library.
- `app/` runs the job queue on threads, reads and writes configuration files, expands shader includes from files,
  and holds the floating-point screen types and the raw input.
