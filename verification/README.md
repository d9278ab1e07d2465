# omicron

Parts of the control plane of a rack: the query language of its metrics, its inventory, the external
addresses of its instances, the placement of its services, and what a sled does with its disks, its
links and its agent.

- `src/` is the library. What it does is stated in contracts, and Verus proves that the code meets
  them.
  - `oxql/`: queries, filters, grouping and joins of timeseries
  - `inventory/`: how a collection is stored, read back, pruned and deleted
  - `external_ip.rs`, `services.rs`: addresses of instances, and services of a rack
  - `storage/`: the disks of a sled, its zpools and the zones of their datasets
  - `sled_agent/`, `link.rs`, `port.rs`: how the agent starts, and the links of its zones
  - `bootstore/`: the protocol by which sleds share the secret of the rack
  - `artifacts.rs`, `project_create.rs`, `sim.rs`, `wicket.rs`: smaller parts
- `app/` is what runs around it: tasks, channels, files, and the system behind traits.
- `tests/` runs the library.
