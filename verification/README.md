# kubelet_runtime

The decisions of a Kubernetes node agent, verified with Verus: what containers and
sandboxes are created from, what is written into volumes, when a probe or a failed init
container leads to a restart, what is stopped and in which order, what is garbage, and
what is reported of all this.

- `src/` is the library. Each module states in its contracts, over sequences of
  characters, what its functions return. Functions named `law_...` prove what holds of
  several of them together.
- `tests/` runs the library on concrete values.
- `app/` is the agent around it: it talks to the container daemon, to storage and to the
  file system, and carries out what the library decides.

Maps of the cluster API are lists of pairs here. Where a decision depends on what an
outside call says, the library takes the answer as an argument, or asks for it step by
step (`check_liveness`, `ensure_image`, `start_pod`, `next_pause_step`,
`next_container_step`).
