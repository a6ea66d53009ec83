# transport_amqp

AMQP 0-9-1 as a verified library: frames and their octets, the client's side of
one connection, and the broker's side of one.

- `src/` is the library, verified with Verus. It holds no socket. Each call that
  spans several frames is a machine: it is given the frames that are read and
  says what to send.
  - `octets`, `text`, `arguments`: numbers, texts and method arguments on the
    wire.
  - `writer`, `reader`, `frame`: writing and reading arguments and frames.
  - `content`: the header and the body frames of a message.
  - `client`, `session`: the two sides of a connection.
  - `conversation`: the laws that hold between the two sides.
  - `error`, `method`, `step`: what can go wrong, what is waited for, and what
    is done about a frame.
- `tests/` runs it.
- `app/` puts it on TCP.
