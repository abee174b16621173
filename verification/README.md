# wolfvoice

Spatial WebRTC voice for OpenSimulator: a service that a region's voice capabilities are
relayed to, and that mixes a separate stream for every listener.

- `src/` is the library, verified with Verus: the wire protocol, sessions and rooms, who
  hears whom on a tick and what each is told, provisioning, and log control.
- `app/` is the program around it: HTTP and TLS, the WebRTC transport, Opus, and the
  floating-point sums of the mixer.
- `tests/` runs the library.

The library knows nothing of floating point. Coordinates are bit patterns of binary64
numbers, gains are integers in the viewer's units (220 is unity), and what has to be
computed with either is handed in as a function.

| module | what it holds |
|---|---|
| `json` | JSON documents as `serde_json` holds, reads and writes them |
| `proto` | the JSON-RPC envelope, capability bodies, data-channel messages, the roster |
| `sdp` | what is read out of a session description |
| `session` | ports, SSRCs, RTP clock, link states, what a transport hands to a session |
| `mixer` | frames, and a speaker's part in a mix |
| `room` | rooms and sessions: positions, gains, mutes, the jitter buffer |
| `registry` | all live sessions, by id and by room |
| `mix` | one 20 ms tick of a room, and when a tick is skipped |
| `service` | what a call does and what is answered |
| `tls` | certificates and the private key out of PEM files |
| `logctl`, `calendar`, `text` | log levels and lines, dates, characters |
