# netbricks_nf

Verified parts of a packet-processing framework and of network functions built
on it, written in Verus.

`src/` (verified):

- `headers` — header descriptors (`EndOffset`, `NullHeader`).
- `batch` — the `Batch` trait, packet batches, and the chainable filter and header-replacing operators.
- `shared_vec` — a vector and the page-rounded size of the shared region meant to back it.
- `sctp` — the connection table of the SCTP control server.
- `json` — JSON documents as plain values (parsed by `serde_json`) and member lookup.
- `tls` — walking a server's first TLS flight (framing and decoding by `rustls`).
- `validator` — the per-segment state machine of the TLS validator.
- `p2p` — the BitTorrent flow classifier and workload trigger.
- `rdr`, `workload` — the remote-rendering proxy's users, visit decisions,
  tallies, and the workload built from a recorded session.

`app/` holds the browsing and file reading around `rdr` and `workload`
(headless Chrome; the session file is read there and parsed in `workload`).
