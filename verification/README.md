# tor-js-gateway

Gateway server for tor-js: it keeps a fresh copy of the Tor directory documents that a browser
client needs to bootstrap, serves them over HTTP, and relays WebSockets and WebRTC data channels
to Tor relays for clients that cannot open TCP connections.

- `src/` is the library. Every function in it is verified with [Verus](https://github.com/verus-lang/verus):
  what it returns is stated in its contract, and what holds of several functions together is
  stated by the proof functions whose names begin with `law_`. The few functions marked
  `#[verifier::external_body]` call outside crates; their contracts are believed, and their doc
  comments say what of the outside crate they claim.
- `app/` is the program around it: command line, files, sockets, the WebRTC stack and the Tor
  client. It carries out what the library decides.
- `tests/` runs the library, with the outside crates linked, on concrete values.

| Module | What it decides |
|---|---|
| `config`, `path` | where files are, what the settings are |
| `service` | the steps that install and remove the systemd user service |
| `gateway` | commands, and when to sync again |
| `sync`, `consensus`, `cache`, `dir` | directory requests, diffs, what is fetched, cached and written |
| `server`, `http` | routes, content negotiation, replies |
| `ws_proxy` | which WebSockets are relayed, limits on connections |
| `webrtc_proxy` | signaling, data channels, the event loop, TCP bridges |
| `json`, `net`, `text`, `time` | JSON messages, addresses, text scanning, times |
