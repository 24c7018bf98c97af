# blockchat

A generalised blockchain with a small peer-to-peer network and a chat
application on top of it.

`src/` is the library, verified with Verus:

- `crypto` – keys as big-endian bytes, and the calls into `rsa`
  (PKCS#1 v1.5 signatures and encryption), `rust-crypto` (SHA3-256) and
  `rand`.
- `events` – the data stored on the chain, events, their byte encoding and
  hash, signing and verification.
- `blockchain` – blocks and the chain: hashing, appending, validation,
  lookups, and the laws that appending keeps a chain valid.
- `accounts` – roles and participants' accounts.
- `config` – participant profiles.
- `messages` – messages between nodes and between a node's tasks.
- `participants` – what a node does with each message it receives, as a
  function from state and message to new state and reaction.
- `lookup` – the address table of the lookup service, and what a node does
  with its replies.
- `outbox` – what a node does with the jobs queued for sending and
  connecting.
- `permits` – the counts behind a node's job queue.
- `pool` – bookkeeping of open connections.
- `framing` – length-prefixed frames on a stream.
- `input` – keys typed by the operator.

`app/` is the program around it: command line, configuration file, files,
sockets, tasks and serialisation.
