# redis-rust-proxy

A proxy for Redis deployments with a master, replicas and sentinels. For each
client it asks the sentinel for the current master and forwards the
connection there; it remembers every cache it has seen, so that it can still
find the master when the sentinel cannot be reached.

- `src/` is the verified library: reading `INFO` and sentinel replies
  (`redis_tools`), the choice of master for a client (`transfer`), the shared
  state and its updates (`state`), addresses (`addr`) and text splitting
  (`text`).
- `app/` is the program: options, logging, the listener, the queries to
  sentinel and caches, and the copying of bytes between client and master.
- `tests/` runs the library on concrete replies and scenarios.
