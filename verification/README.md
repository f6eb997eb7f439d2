# ensemble

Multiplayer sessions for games: lobbies, the signalling server that brings their players together,
and the peers once they talk to each other. The library is written in Verus and every function of it
is proved against its contract.

| Module | What it is |
|---|---|
| `protocol`, `transport`, `text` | The messages, how they are carried, and reading settings |
| `server` | The signalling server: lobbies, limits, handing a lobby on, the relay's settings |
| `sockets` | A connection to a peer: negotiation, candidates, routes, recovery |
| `webrtc` | A session over WebRTC: what each event, signal and packet does to it, and whom it trusts |
| `steam` | A session over Steam |
| `loopback` | An in-process network of peers, deterministic to the frame |

What the library promises across functions stands in public proof functions named `law_...`.

What was not proved is what it takes from elsewhere: the concurrent maps of `dashmap`, the draws of
`rand` and `uuid`, the relay keys of `turn`, and a few functions of the standard library. Each stands
behind one small function whose contract says what is taken for granted of it.

`app/` is the program around the library: the server, a lister, and a player without a game. It holds
the sockets, the clock and the wire format.
