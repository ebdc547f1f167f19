# gatekeeper

The decision core of an API security proxy, verified with Verus.

`src/` is the library. Every request decision is made there and proved against its
contract:

- `policy`: rules, the matcher (path substring, ASCII-case-insensitive method, user-agent
  patterns) and the engine (the highest-priority matching rule wins, the first of equals).
- `security::rate_limit`: per-key token buckets with saturating refill and eviction of idle
  buckets.
- `threat`: blocked addresses and user agents, and the parsing of feed bodies.
- `wasm`: the choice between WebAssembly rule answers, and the checks on guest memory.
- `proxy`: the request pipeline (threat feeds, WebAssembly rules, policy rules, then the rate
  limiter), the body limit and the forwarding headers.
- `auth`: roles and permissions, the user store (Argon2 hashes), bearer tokens and access
  decisions, token claims and secret checks.
- `config`: the configuration types and rule validation.
- `context`, `log`, `metrics`, `grpc`, `cli`: request context and client address, audit
  events and log rotation, counter selection, rule synchronisation between nodes, and the
  command line.
- `text`: string operations (search, trimming, splitting, decimal text) with their
  specifications.

`app/` is the program around it: the HTTP server, upstream forwarding, JWT encoding, TOML
parsing, file watching, feed fetching, WebAssembly execution, metrics export and the gRPC
transport.
