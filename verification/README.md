# ratchet

WebSockets (RFC 6455) as verified state machines.

The library under `src/` performs no input or output. Readers say how many bytes they wait for, and
writers say which bytes are to be sent, so that any stream can be driven by them. Every function of it
is verified with Verus against the contract in its header.

| Module | What it holds |
| --- | --- |
| `protocol` | operation codes, close codes, frame headers, masks, messages |
| `framed` | decoding and encoding of frames, reading of messages |
| `session` | the state of a connection, control frames, the closing handshake |
| `fragment` | messages that are sent in fragments |
| `ws`, `split`, `identity` | WebSockets, their sending and receiving halves, and which belong together |
| `handshake` | the opening handshake of clients and servers, subprotocols |
| `ratchet_ext`, `ext` | the interfaces that extensions implement, and an extension that does nothing |
| `axum` | upgrades of requests that another HTTP server has received |
| `autobahn` | the decisions of the programs that run the Autobahn test suite |
| `http_types`, `buffer`, `crypto`, `text`, `ascii`, `errors` | what the others are made of |

The calls into other crates stand in `buffer`, `crypto`, `framed::write`, `handshake`, `handshake::head`,
`http_types`, `identity` and `text`. Their contracts are taken on trust; each says which function it speaks of.

`app/` drives the library on Tokio streams: echoing clients and servers, an HTTP server whose
connections are upgraded, and the runs of the test suite.
