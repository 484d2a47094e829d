# sn_client

The client side of a network of elders, verified with Verus.

A client bootstraps with a node, is told which elders to connect to, and connects
to enough of them. It signs its messages, sends them to all of its elders, and
elects one response to a query among those that the elders give. What the elders
send later is handed to the callers that wait for it.

- `src/` is the library. `voting` and `tally` hold the election of a response and
  `election_laws` what holds of every election; `elders` when a client is connected
  to enough elders; `retry` how often an elder is tried; `pending` who waits for
  what; `connection_manager` and `client` what is sent and what is done with what
  comes back; `wire` the calls into the crates with the network's data types and
  encodings.
- `app/` runs the library on real connections: the tasks, the channels, the
  transport.
- `tests/` runs it on given values.
