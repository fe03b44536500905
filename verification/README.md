# caminos_lib

A cycle-driven interconnection network simulator kept as a verified library.
Each part states its behaviour as a contract that Verus proves:

- `allocator`: crossbar allocators (iSLIP, random, random with priorities) and the granted requests.
- `router`: input buffers, credit counters and other link statuses, and `router::basic`, the basic router's cycle:
  requests from the front phits, arbitration by label and origin, and at most one phit per output port, with flit
  sizes, the bubble and requests to busy ports.
- `routing` and `policies`: routing algorithms over a tabulated topology and the virtual channel policies that narrow
  their candidates.
- `event`: the circular event queue.
- `network`: messages, packets, phits, servers and their statistics.
- `pattern`: traffic patterns.
- `experiments`, `output`, `config`, `text`: job scripts, text helpers and the binary form of configuration names.

`app/` holds what is left around the library: reading the configuration files, the job launcher and the quantities
shown to users. `tests/` runs the library on concrete values.
