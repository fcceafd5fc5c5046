# grand_cross

A thin crossplay relay that bridges Roblox, Minecraft and Hytale clients
through one packet envelope (CRP), verified with Verus.

- `src/` is the relay's logic with its contracts and proofs: the CRP wire
  format, the session manager, the router, the peer and connection
  registries, the dispatch decisions, the Roblox JSON codec and WebSocket
  decisions, the TCP framing, the voice jitter buffer, the voice filter and
  the per-player voice pipeline. JSON is read and printed by serde_json,
  the tables live in `dashmap` maps and the outbound channels are tokio's;
  those calls stand behind small trusted wrappers in `json.rs`,
  `tables.rs` and `channel.rs`.
- `app/` is the program around it: command line, logging, the WebSocket and
  TCP servers, the dispatch loops and outbound pumps, PCM energy
  measurement, and the action payload types with their serde derives.
- `tests/` runs the library on concrete inputs.
