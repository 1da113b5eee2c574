# svod-tensor

Preparation and realization of lazily built tensors: a computation graph is
brought into the form under which its schedule is cached, the kernels that are
not cached are optimized and compiled, an execution plan is assembled, and the
tensors take on the plan's outputs. Kernels can be autotuned by beam search, whose
candidates are compiled by helper processes.

`src/` is the library, verified with Verus. It holds no input or output: where
work alternates with decisions, a function takes what came of the last action and
gives the next one.

| modules | what they hold |
| --- | --- |
| `graph`, `vars`, `device`, `text`, `error` | graphs, variables, devices, numbers as text, errors |
| `slots`, `schedule_cache`, `schedule_laws`, `pre_schedule`, `cache_laws` | the cached form of a graph, the way back, and what both keep |
| `schedule`, `program`, `plan` | schedule items, program metadata, execution plans |
| `kernels`, `batch`, `opt_cache`, `shared_map`, `renderer`, `config` | which kernels are compiled, for what, and where they are kept |
| `beam`, `opt`, `pool`, `worker` | the search, its plans, its helper processes and what they are told |
| `helper`, `serve`, `compile`, `frame` | finding and starting helpers, serving in one, compiling a candidate, frames on pipes |
| `realize`, `layers` | realizing tensors, alone or together, and layers |

`app/` is what surrounds it: processes and pipes, threads, the environment, and
traits for the compilers, devices and tensor operations. `tests/` runs the
library.
