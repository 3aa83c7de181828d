# LabStreamGate

A gateway that carries TCP connections over WebSocket for CTF platforms, and the
local connector that belongs to it.

- `src/` holds the rules of the gateway, verified with Verus: which tunnels may
  be opened and how long they are served (`serve`, `tunnel`, `hosts`), how many
  connections each may have (`limits`), who may manage them (`headers`), how a
  connection runs and what is recorded of it (`session`, `traffic`), how captures
  are written, named and kept (`pcap`, `capture`, `retention`), and which remote
  addresses the connector takes (`connect`). Promises that span several functions
  are stated as proof functions whose names begin with `law_`.
- `tests/` runs the library on concrete values.
- `app/` is the program around it: command line, web server, sockets and files.

What the library takes from outside it and does not prove is stated above each
function marked `#[verifier::external_body]` and above the one
`assume_specification`.
