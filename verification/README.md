# krata (verified core)

The decisions and data handling of the krata hypervisor tools, written in
Verus and proved against their contracts:

- `digest`, `repository`: OCI digest checking, blob locations, and the
  repository table of the image store (read back what was stored).
- `autonet`: which zones have a usable network, and what appeared and
  disappeared between two zone listings.
- `daemon`, `controller`: store paths, zone asset lookup, the persistent
  host identity, the configured subnets, and how the control service is
  served.
- `exec`: checking an exec request and the updates sent back about it.
- `fs9p`, `fs9p_lifecycle`: the xenstore keys of a 9p backend, the rescan
  of the backend root, taking a
  request out of the shared ring, and a backend's life (waiting for its
  frontend, reading the ring configuration, serving, closing) as a state
  machine.
- `cpu_topology`, `platform`, `oci_data`, `oci_schema`: the topology
  command's output, the image platform, and raw/parsed OCI documents.
- `text`: decimal rendering and parsing, whitespace trimming, path joining.

`app/` holds the input and output around it: files, processes, argument
parsing and printing. Tests are under `tests/`.
