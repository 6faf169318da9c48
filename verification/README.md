# Horizon Atlas

A proxy and load balancer in front of a cluster of game servers. It sends clients to the
servers that own their positions, hands them over from one server to another, watches the
health of servers and of its own nodes, and publishes metrics.

The rules by which it does so are a library in Verus under `src/`: each function states in
its contract what it returns or changes, and the laws that span functions stand beside
them as `lemma_*` proof functions.

| Modules | What they hold |
| --- | --- |
| `scalar`, `text`, `bytes`, `clock`, `search`, `table` | order keys of floats, decimal text, byte orders, time spans, searches, keyed tables |
| `json`, `ids`, `sealing` | values of JSON text, random identifiers, ciphers and encodings |
| `config`, `types`, `state`, `spatial`, `error`, `errors` | configurations, shared types, the geometry of the world, errors |
| `proxy`, `client`, `server`, `transfer`, `skim`, `persistence` | the proxy: clients, backend servers, transfers, traffic analysis, saved players |
| `server_manager`, `regions`, `game_server` | servers and regions of the world, and the servers that are started and watched |
| `discovery`, `routing`, `transitions`, `health`, `cluster`, `metrics` | the services around the proxy |
| `compression`, `encryption`, `crypto` | compressed and encrypted messages |

Floating-point numbers are held as order keys (`scalar::Scalar`); where a rule needs
floating-point arithmetic, the caller hands it in as a function. Time is an argument.

`app/` is the program around the library: sockets, threads, tasks, HTTP, files, the clock
and floating-point arithmetic. `tests/` runs the library on concrete values.
