# agent-mux

MQTT-based async RPC, liveness and coordination mesh for Codex agents: one
MCP server binary that runs as the manager (master node) or as an executor
(slave node).

- `src/` — the coordination core, verified with Verus: task scheduling and
  dependency release, the five-level approval gate, zone locks, event
  classification and the digest, the pending-RPC registry with expiry and
  retry, heartbeats and liveness sweeps, watches, conflict history and risk
  zones, topic routing, wake-channel resolution, configuration and
  command-line rules. `src/laws.rs` states the properties that span several
  operations.
- `app/` — the process around it: the stdio JSON-RPC loop, the MQTT link
  (rumqttc on tokio), JSON encoding, the file system, tmux and process
  probing.
- `tests/` — executable tests of the library.
