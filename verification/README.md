# Chilsonite

A minimal rotating proxy with a verified core, written in Verus.

Two programs make up the proxy.

- **CICADA** is the master. Agents connect to it over WebSocket, and clients speak SOCKS5 to it. It
  chooses an agent for each client and hands the client's request on.
- **GARADAMA** is the agent. It introduces itself to the master, resolves names, opens the
  connections that the master asks for, and carries the data.

## Choosing an agent

The SOCKS5 username says which agent a client wants. The password is not looked at.

| Username | Agent |
| --- | --- |
| `agent_` and more | the agent with exactly this identifier |
| `all`, or no authentication | any agent, at random |
| `country_` and two-letter codes, such as `country_JPUS` | any agent in one of the countries, at random |

Any other username is refused.

## Layout

- `src/` is the library, all of it verified: the SOCKS5 grammar, the choice of an agent, the requests
  that wait for an answer, the relaying of data, and the decisions that both programs take.
  - `cicada/` is the master's part and `garadama/` the agent's.
  - `protocol.rs` states what the two can rely on of each other.
  - `payload.rs`, `target.rs`, `transfer.rs`, `request_map.rs`, `address.rs` and `text.rs` are shared.
- `app/` is the rest: sockets, tasks, channels, JSON, settings and the log.
- `tests/` runs the library on concrete values.

What the library does is stated in `requires` and `ensures` clauses. Facts that relate several
functions are public proof functions whose names begin with `law_`.

The library trusts what the doc comments of its `external_body` and `assume_specification` items
say about `base64`, `dashmap`, `rand`, `url`, `uuid` and the standard library.

## Running

The name of the executable decides which program runs: one that begins with `garadama` is the agent,
any other is the master.

The master reads `config.toml` in the current directory:

```toml
bind_address = "::"
websocket_port = 3005
socks5_port = 3006
connect_timeout_seconds = 10
```

The agent takes the WebSocket URL of the master as its argument, and uses `ws://127.0.0.1:3005`
without one.
