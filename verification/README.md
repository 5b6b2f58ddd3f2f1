# Wispers Access

Wispers Access shares web apps with guests, peer to peer. A host runs `waserver` next to the
apps it shares; each guest device runs a client that makes them available on localhost.

`src/` is the verified library: what both ends decide and compute, with contracts that Verus
proves.

- `wire`: what host and guest put on a stream, and what they read off it.
- `headers`: HTTP headers on their way through a proxy, and the guest's identity among them.
- `server/`: the host. Its config and state database, who is served and what, the guest API,
  the status report, the command line.
- `guest/`: the guest. Its store of joined shares, invite codes, the guest API calls, the
  loopback proxy.
- `text`, `bytes`, `clock`, `table`: the vocabulary that the rest is written in.

`app/` is ordinary Rust around it: sockets, files, SQLite, the transports and the command
lines of `waserver` and `waclient`. `tests/` runs the library on concrete values.
