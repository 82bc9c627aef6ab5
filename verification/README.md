# reflex

The core of a proxy, with its behaviour stated in contracts and proved by Verus.

`src/` decides; `app/` acts. The library takes plain values (frames, events, configurations, the
time) and gives plain values back (frames to write, commands to run, requests to send). `app/` owns
the TUN device, the sockets, the HTTP client and the YAML reader, and runs the loops.

| Module | What it holds |
|---|---|
| `inbound::tun` | The TUN inbound: packet rewriting, the TCP NAT, UDP sessions, echo replies, checksums, and the engine that ties them together. |
| `inbound::tun::platform` | The commands that route the traffic of a system to the interface and undo it: Linux, macOS, Windows. |
| `outbound` | What outbounds show, how targets are resolved, how octets are relayed. |
| `outbound::xhttp` | The XHTTP transport: URLs, headers, sessions, cutting of uploads, reading of responses. |
| `provider::parser::clash` | Outbounds from subscriptions in the format of Clash. |
| `config` | The configurations that the above take. |
| `net`, `text`, `octets`, `assoc`, `headers`, `buf` | Addresses, numerals, octets, association lists, HTTP headers, shared buffers. |

Proof functions whose names start with `law_` state what holds of the library as a whole: what one
call undoes of another, what every operation keeps, what is never lost. `buf`, `outbound::xhttp` and
`text` hold the few items whose contracts are taken on trust, each above a call into an outside
crate or the standard library.
