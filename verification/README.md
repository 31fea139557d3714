# ws_client

WebSocket clients by URL for programs that watch many streams at once: who is behind a URL, who owns
it, what it has received, what it still has to send, and what is left when it is shut down. The
library is written in Verus; every function states what it does, and the laws that span functions are
proved beside them.

## Layout

- `src/`: the library. `transport` is the registry of clients, `scope` their owners and the shutdown,
  `client` one client with `client_view` its mathematics, `inbound` what it does with what the socket
  brings, `bridge` and `flight` the handles that message handlers use, `raw` the observers of
  undecoded messages, `bounds` the limits and the decoding, `proxy` the tunnel through an HTTP proxy.
  `client_laws` and `transport_laws` hold what is true of every state.
- `tests/`: the library at work.
- `app/`: sockets, tasks, deadlines and process-wide state around the library.

## Limits

| Boundary | Limit |
| --- | --- |
| Wire message | 256 KiB |
| Expanded gzip or raw deflate payload | 1 MiB |
| Parsed inbound queue | 256 entries and 4 MiB of estimated memory |
| Outgoing queue | 64 entries and 1 MiB, the frame being written included |
| Mock capture | 64 entries and 1 MiB of estimated memory |
| Raw channel of one URL | 64 entries |
| Raw channel for all URLs | 256 entries |
| URL | 4096 bytes |
| URLs with raw observers | 256 |
| Registered clients | 1024 |
| Generations that one owner acquires | 256 |

Overflow of a payload, of a decoded payload or of a queue ends the client and is told as its failure.
A raw channel that is full gives up its oldest frame instead, and counts that.
