# minecraftpingws

A WebSocket server that pings Minecraft servers of both editions, once or again and again for all
clients that subscribe to the same server.

- `src/` is the library, verified with Verus: the wire formats of both editions, the steps of a
  ping, the requests and responses, the registry of ping tasks, and what a connection and a task
  do next. `src/service.rs` states what holds of all clients and tasks together.
- `app/` is the program around it: sockets, name lookups, clocks, JSON texts and logs. It performs
  the step that the library names and hands back what came of it.
- `tests/` runs the library on given values.

A client sends `ping` to keep its connection alive and gets `pong`; a connection closes after three
minutes without a message from the client. A ping task stops when it has no subscribers, and after
ten failed pings in a row; subscriptions end with their task, and may be made anew. A request may carry an `id`, which every response to it carries too.
