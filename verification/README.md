# firemage_runtime

The decision logic of the Firemage runtime, which manages Firecracker
microVMs, written in Verus: every rule the runtime applies before it touches
a VM, its disks, its network or its snapshots is an executable function with
a contract, and the properties that span several of them are proof
functions.

## Layout

- `src/` is the verified library.
  - `lifecycle`: VM states, actions, refresh of a recorded state, stops and
    recovery.
  - `isolation`: host policy for isolation modes, host paths, the jailer's
    limits and command line, reserved jailer identities, confinement checks.
  - `addressing`: subnets, address suggestions and reservations, MACs.
  - `egress`: raw API requests, egress policies and the shared policy
    catalog.
  - `snapshots`, `provenance`, `disk_swap`: capture and restore of portable
    snapshots, the checks applied to their records, and the reversible swap
    of a VM's files.
  - `prepare`, `seed`, `assets`, `terminal`, `editing`: preparing a VM's
    devices and seed files, boot file budgets, the web terminal, edits of a
    definition.
  - `naming`, `catalog_alias`, `locks`, `process`, `digest`, `text`: paths,
    names, aliases, lock order, process identity, digests and text helpers.
- `tests/` exercises the library on concrete values.
- `app/` holds what stays outside the proofs: reading `/proc`, JSON device
  configurations and records, and the file operations of a disk swap.

Outside crates (`chrono`, `uuid`, `getrandom`, `sha2`, `hex`, `base64`) are called from
`src/` through small wrappers whose contracts are stated next to them.
