# xyio

Callback-driven, non-blocking I/O and a small HTTP/1.1 server. The data structures, the rules and
the state machines are verified by Verus; the system calls and the threads around them are not.

- `src/` is the library. It makes no system calls: its state machines take the outcomes of the
  calls and tell a driver what to do next.
  - `operation`, `queue`: what a reactor is asked to do.
  - `http::reactor`, `http::event_loop`: the reactor of the servers.
  - `http::server`, `http::reader`, `http::muncher`: connections that read ahead while their
    responses are being written.
  - `http::connection`, `http::message`, `http::parse`: connections that answer one request at a
    time, with gathering writes.
  - `http::refusal`: requests with lines that do not fit into the read buffer.
  - `epoll`: a reactor whose callbacks are numbered, and its connections.
  - `io`: the reactor of clients, which ends when it has nothing left to do.
  - `schedule`: how accepted connections reach the worker threads.
  - `sys`: the outcomes of raw system calls.
  - `collections`, `logging`, `text`: the rest.
- `app/` is the driver: it makes the system calls, starts the threads, and keeps a connection for
  as long as the library asks it to.
- `tests/` runs the library on concrete values, with the real parsers.

The laws that relate several functions are the proof functions whose names begin with `law_`.
