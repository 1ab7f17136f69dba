# gpu-arbiter

A daemon that gives games first claim on a GPU that they share with AI tenants
such as Ollama. When a game starts, the managed units are made to let go of the
GPU: they are asked to yield, then stopped, then killed. When the last game ends
they are brought back. Between tenants a ladder of priorities decides.

`src/` is the library. Every rule the daemon follows stands there, with a
contract that Verus proves: what makes a process a game (`classify`, `observe`),
who may use the GPU (`ladder`), how one unit is evicted (`units`, `eviction`),
how a pass goes (`pass`, `reconcile`), what is counted and shown (`metrics`,
`state`, `http`, `cli`, `tray`), and how configuration and tool output are read
(`config`, `gpu`, `cgroup`). Evictions and passes are machines: they are told
what happened and say what to do next.

`app/` runs them: it reads files, spawns commands, listens to the kernel and
serves HTTP, and holds no rule of its own.

`tests/` holds the tests of the library.
