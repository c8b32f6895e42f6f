# sateater

A payment page for a Lightning node, with a small ecash game (the vault).

- `src/` is the library, verified with Verus: the vault game as a state
  machine (`vault`), reading the cashu wallet's output (`cashu`, `text`), the
  settings file (`config`), inbound channel requests and their notices
  (`inbound`, `email`), invoice ids and on-chain payment checks (`lnd`,
  `hexcode`) and the records handed back to web clients (`payment`).
- `app/` is the web server around it (Rocket): HTTP routes, the cashu
  wallet process, the node's gRPC interface, the mail service, files.
- `tests/` runs the library on concrete inputs.
