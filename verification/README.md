# chat_relay

A small chat system over TCP, and a thread-pool web server, with the logic
verified by Verus.

Clients connect to the server, introduce themselves, and send chat messages as
JSON frames, one per line. The server stores each message, acknowledges it to
its sender, and delivers it to its receiver, oldest first; the receiver
acknowledges it and the server drops it.

## Layout

- `src/` — the verified library:
  - `message` — messages and frames;
  - `text` — white space, trimming, decimal numbers;
  - `framing` — splitting what a connection reads into frames, and the line
    that carries a written frame;
  - `store` — the server's message store: which message a connection delivers
    next, and what the database worker does with a request;
  - `server` — the decisions of a connection's event worker, as a step from
    state and event to new state and actions;
  - `database` — messages kept per receiver;
  - `registry`, `clients` — values kept under names, and the table of
    connected clients. The names are strings, and vstd's `HashMap`
    specification holds only for key types that obey its key model, which it
    grants to integers and not to `String` (a `HashMap<String, _>` proves
    nothing, not even its length after one insert). So the registry is a
    `Vec` of entries with distinct names, viewed as a map from name to value;
    like the `HashMap` it stands for, it promises no order;
  - `client` — the decisions of a chat client;
  - `http` — routing and answers of the web server.
- `app/` — the programs: `app server`, `app client <id>`, `app http`. They do
  the networking, the JSON, the threads and the timers, and call the library
  for the decisions. Two details of the client's side of the protocol are
  written down there: it sends its hello frame before anything else, and it
  writes its acknowledgements without a line end.
- `tests/` — tests of the library.
