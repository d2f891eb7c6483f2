# openlogi_flow

Pointer-edge host switching between machines that share one keyboard and
mouse, as a library verified with Verus. The pointer leaves the desktop through
an edge, the keyboard and mouse move to the host past that edge, and the peer
places its own pointer where this one left.

- `src/` is the library: plain computation with proved contracts.
- `tests/` runs it.
- `app/` is ordinary Rust around it: sockets, display servers, HID++ devices,
  timers and the configuration file.

Modules of the library:

| Module | What it holds |
| --- | --- |
| `config` | the `[flow]` section: edges, hosts, rates |
| `single`, `fraction`, `fraction_laws` | where along an edge the pointer crossed, exact to the last bit of single precision |
| `flow` | the handoff between two hosts and where it lands |
| `little_endian`, `seal`, `seal_laws`, `wire` | signing a handoff, refusing forgeries and replays, and its bytes |
| `clock` | the system clock as seconds and nanoseconds |
| `send`, `listen` | delivering and receiving a handoff |
| `pointer`, `edge_switch`, `edge_switch_laws`, `edge_watch` | when the pointer has crossed an edge |
| `link`, `backoff`, `host_switch*` | the manager that moves the devices |
| `hosts`, `host_name`, `host_table` | the host table a device keeps |

Times are nanoseconds of a monotonic clock unless they say otherwise.
