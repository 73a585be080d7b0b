# redis_server

A small Redis-compatible server, with its logic verified by Verus.

- `src/` is the verified library:
  - `resp.rs`, `resp_result.rs`: the RESP wire format (simple strings, bulk
    strings, null, arrays, the RDB header), `resp_parser` for simple strings,
    `bytes_to_resp` for every value, and the decoding errors.
  - `resp_laws.rs`: that parsing reads a value back from its wire form.
  - `commands/`: the commands ECHO, GET, INFO, PING, PSYNC, REPLCONF and SET,
    each from server state and words to new state and answers.
  - `server.rs`: the server state, `run_command`, which runs a command by
    its lower-cased name, and `process_request`, which reads a command from
    a request and runs it.
  - `handshake.rs`: a replica's handshake with its master, as a step function
    from state and answer to next state and action.
  - `table.rs`: the map from text keys to values that the storage keeps.
  - `set.rs`: the options of a SET command and their parser.
  - `storage.rs`, `storage_result.rs`: the key-value store with key expiry.
    The clock reads as nanoseconds from `u64::MAX + 1` seconds before the
    UNIX epoch, so that times before the epoch keep their order.
  - `replication.rs`: replication settings and the `HOST PORT` master address.
  - `server_result.rs`, `request.rs`, `connection.rs`: requests and the
    messages between connections and the server.
  - `text.rs`: decimal formatting, joining words, lower-casing.
- `app/main.rs` is the program around it: command-line arguments, the TCP
  listener, the connections, the server loop and the connection to a master.
- `tests/` holds the tests.
