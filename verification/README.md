# pqgch_router

A relay for group chats between clusters of clients. Clients sign in as a
cluster member or a cluster leader. After that they send typed messages, and
the relay passes each message on to the clients that its kind selects.

- `src/` is the verified library:
  - `message` covers message kinds, their wire codes and the JSON line of a message.
  - `routing` covers client identities and who receives a message.
  - `session` covers the session record, and what each command and the periodic timeout check does to it.
  - `connection` covers the decisions taken for a single connection.
  - `laws` holds the properties proved of the whole library.
- `app/` is the TCP server. It reads and writes lines, holds each connection's channels, runs the clock and the timeout timer, and carries out the actions that the library decides on.
- `tests/` holds runtime tests of the library.
