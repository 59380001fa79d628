# nq_deribit

A Deribit market-data client and the services built on it, with its logic
verified by Verus.

## Layout

- `src/` — the verified library.
  - `text` — character-level helpers (search, split and join, trimming,
    number parsing and printing) with exact specifications.
  - `model`, `request`, `subscription`, `jsonrpc`, `errors` — the API's
    values: currencies, instrument kinds and states, index names, requests
    and their JSON parameters, subscription channel names and how they read
    back.
  - `protocol` — JSON-RPC request texts, the classification of incoming
    texts, heartbeat handling and the setup sequence of a connection.
  - `connection`, `transport` — reconnect and setup backoff, batching,
    websocket frame handling, and the table of requests that wait for answers.
  - `pool` — how channels are spread over connections of bounded capacity.
  - `client` — settings and answer matching of the single-connection client.
  - `template`, `bridge` — the MQTT to HTTP bridge: body templates, batching
    and the registry of bridges.
  - `subscriber`, `monitor`, `metrics` — the channel list of the forwarder,
    the option monitor's settings and followed options, channel groups.
- `app/` — the runtime around the library: websockets, tasks, MQTT, HTTP and
  the services' entry points. It waits, sends and reads; what to send, where
  an answer goes and what an answer means it takes from the library, apart
  from JSON decoding into its serde types.
- `tests/` — tests of the library on concrete values.
